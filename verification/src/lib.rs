//! driftwatch watches a Solana validator's disk and warns when disk trouble
//! starts costing votes.
//!
//! Two signals meet on one timeline. The box layer (`event`, `window`, `disk`)
//! turns the kernel's per-request records into windows with percentiles. The
//! validator layer (`rpc`, `output`) turns three JSON-RPC replies into one
//! sample. `correlate` joins them, one report per window, and `drift` decides
//! when the disk is the cause and the vote lag the effect.
//!
//! The library does no input or output and reads no clock: it takes replies,
//! records and times as values, and gives back text and decisions.

pub mod banner;
pub mod correlate;
pub mod count;
pub mod device;
pub mod disk;
pub mod drift;
pub mod event;
pub mod json;
pub mod output;
pub mod rpc;
pub mod text;
pub mod units;
pub mod window;
pub mod xtask;
