# driftwatch

driftwatch watches a Solana validator's disk from inside the kernel and warns
when disk trouble starts costing votes. It names the cause instead of just
reporting the damage.

```
+00:24 | disk p99 59.2ms | 23,633 reqs | 30.8 MB/s || slot 1,459 | lag 1 | credits 22,781 | OK
!! DRIFT: disk p99 40.6ms = 190x baseline 213µs for 3 windows, vote lag 9 vs norm 1. disk is the lead signal
```

The library under `src/` is written in Verus: every function states what it
returns, and the statements are proved. It does no input or output and reads no
clock. `app/` is the program around it: command line, HTTP, eBPF and printing.

| module      | what it decides or computes                                      |
| ----------- | ---------------------------------------------------------------- |
| `event`     | the kernel's 32-byte record of a disk request                    |
| `device`    | `major:minor` and the packed device number                       |
| `window`    | the requests of one window and their percentiles                 |
| `disk`      | events and windows as text, the drop counter                     |
| `rpc`       | the three calls of a poll and the sample that their replies make |
| `output`    | a sample as a status line                                        |
| `correlate` | both signals on one timeline, one report per window              |
| `drift`     | the rule that makes an alert of them                             |
| `units`     | latencies rounded as doubles round them, sizes and rates exactly |
| `text`      | numbers as text                                                  |
| `count`     | how many items of a sequence have a property                     |
| `json`      | what is relied on of `serde_json`                                |
| `banner`    | what each mode says when it starts                               |
| `xtask`     | the commands that sync, build and run in a VM                    |

The proof functions named `law_..` state what holds of the library as a whole:
that between two alerts the disk has returned to normal, that no alert fires
without a victim, that a record reads back as it was written, that the shell
hands on a quoted script unchanged, and so on.

## The drift rule

Two conditions must both hold:

- the disk's p99 is above 4x its own baseline, the median of recent normal
  windows, and above a 1 ms floor, for 3 windows in a row;
- the vote lag is above its own norm by 3 or more slots. A dead RPC counts as the
  worst case.

Then one alert fires, and the rule is armed again only after the disk has
returned to normal.

## Usage

```shell
driftwatch poll                        # validator layer only, no eBPF
driftwatch watch --dev 253:16          # disk layer only
driftwatch run   --dev 253:16          # the joined timeline plus the drift rule
driftwatch run   --dev 253:16 --json   # one JSON object per window
```

The eBPF object is read from `/usr/lib/driftwatch/driftwatch.o`, or from the file
that `DRIFTWATCH_OBJECT` names. Started under the name `xtask`, the program is
the build and deploy tool.
