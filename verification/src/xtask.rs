//! The build and deploy loop: which programs are run, with which arguments, to
//! sync the code into a VM and run it there over SSH.

use vstd::prelude::*;
use crate::text::{
    chars_of, ends_with, fields, free_of, lemma_back, lemma_fields_join, lemma_front,
    lemma_only_field, push_signed, signed_decimal, starts_with,
};

verus! {

/// Where the code is and where it goes.
#[derive(Debug)]
pub struct Target {
    /// The SSH configuration that knows the VM.
    pub ssh_config: String,
    pub ssh_host: String,
    pub local_dir: String,
    pub remote_dir: String,
}

/// What is asked for.
#[derive(Debug)]
pub enum Task {
    /// Install the toolchain.
    Setup,
    Build,
    /// Sync, build and run, with arguments for the binary.
    Run { args: Vec<String> },
    Check,
    Sync,
    Ssh,
}

/// One program to run, and what is said when it fails.
#[derive(Debug)]
pub struct Invocation {
    pub program: String,
    pub args: Vec<String>,
    pub context: Option<String>,
}

/// An `Invocation` as a mathematical value.
pub struct InvocationView {
    pub program: Seq<char>,
    pub args: Seq<Seq<char>>,
    pub context: Option<Seq<char>>,
}

/// The characters of a list of strings.
pub open spec fn texts(v: Seq<String>) -> Seq<Seq<char>> {
    v.map_values(|s: String| s@)
}

impl View for Invocation {
    type V = InvocationView;

    open spec fn view(&self) -> InvocationView {
        InvocationView {
            program: self.program@,
            args: texts(self.args@),
            context: match self.context {
                Some(c) => Some(c@),
                None => None,
            },
        }
    }
}

/// A character inside single quotes: the quote itself leaves them, stands
/// escaped and opens them again.
pub open spec fn escaped_char(c: char) -> Seq<char> {
    if c == '\'' {
        seq!['\'', '\\', '\'', '\'']
    } else {
        seq![c]
    }
}

/// Text inside single quotes.
pub open spec fn escaped(s: Seq<char>) -> Seq<char>
    decreases s.len(),
{
    if s.len() == 0 {
        seq![]
    } else {
        escaped_char(s[0]) + escaped(s.drop_first())
    }
}

/// Text as one word of the shell.
pub open spec fn quoted(s: Seq<char>) -> Seq<char> {
    "'"@ + escaped(s) + "'"@
}

/// A script with the toolchain's environment loaded first.
pub open spec fn with_env(script: Seq<char>) -> Seq<char> {
    "source \"$HOME/.cargo/env\" 2>/dev/null || true; "@ + script
}

/// The command line that runs a script in the VM.
pub open spec fn remote_command(script: Seq<char>) -> Seq<char> {
    "bash -lc "@ + quoted(with_env(script))
}

/// Strings with single spaces between them.
pub open spec fn joined(words: Seq<Seq<char>>) -> Seq<char>
    decreases words.len(),
{
    if words.len() == 0 {
        seq![]
    } else if words.len() == 1 {
        words[0]
    } else {
        joined(words.drop_last()) + " "@ + words.last()
    }
}

/// `ssh` with a script.
pub open spec fn remote_of(t: Target, script: Seq<char>) -> InvocationView {
    InvocationView {
        program: "ssh"@,
        args: seq!["-F"@, t.ssh_config@, "-t"@, t.ssh_host@, remote_command(script)],
        context: None,
    }
}

/// `rsync` of the code, without build artifacts and history.
pub open spec fn sync_of(t: Target) -> InvocationView {
    InvocationView {
        program: "rsync"@,
        args: seq![
            "-az"@,
            "--delete"@,
            "--exclude"@,
            "target/"@,
            "--exclude"@,
            ".git/"@,
            "-e"@,
            "ssh -F "@ + t.ssh_config@,
            t.local_dir@ + "/"@,
            t.ssh_host@ + ":"@ + t.remote_dir@ + "/"@,
        ],
        context: Some("rsync to VM failed"@),
    }
}

/// The arguments for the binary: `watch` where none are given.
pub open spec fn bin_args_of(args: Seq<Seq<char>>) -> Seq<char> {
    if args.len() == 0 {
        "watch"@
    } else {
        joined(args)
    }
}

/// The script that detaches stale tracepoint links of an unclean exit, builds
/// and runs.
pub open spec fn run_script_of(remote_dir: Seq<char>, args: Seq<Seq<char>>) -> Seq<char> {
    "cd "@ + remote_dir
        + " && sudo bpftool link list 2>/dev/null | awk -F: '/tracepoint/{print $1}' | xargs -r -I{} sudo bpftool link detach id {} 2>/dev/null; cargo build --release -p driftwatch && sudo RUST_LOG=info ./target/release/driftwatch "@
        + bin_args_of(args)
}

/// The script that installs the eBPF toolchain in the VM. There is no prebuilt
/// `bpf-linker` for aarch64, so it is built against the system's LLVM.
pub open spec fn setup_text() -> Seq<char> {
    "set -eux; export DEBIAN_FRONTEND=noninteractive; sudo apt-get update -qq; sudo apt-get install -y --fix-missing build-essential pkg-config libelf-dev clang llvm llvm-dev libclang-dev curl rsync; if ! command -v rustup >/dev/null; then curl --proto '=https' --tlsv1.2 -sSf https://sh.rustup.rs | sh -s -- -y; fi; source \"$HOME/.cargo/env\"; rustup toolchain install stable --profile default; rustup toolchain install nightly --profile default --component rust-src; rustup default nightly; command -v bpf-linker >/dev/null || cargo install bpf-linker"@
}

/// The programs that a task runs, in order.
pub open spec fn plan_of(t: Target, task: Task) -> Seq<InvocationView> {
    match task {
        Task::Setup => seq![
            InvocationView {
                context: Some("VM toolchain install failed"@),
                ..remote_of(t, setup_text())
            },
        ],
        Task::Sync => seq![sync_of(t)],
        Task::Build => seq![
            sync_of(t),
            remote_of(t, "cd "@ + t.remote_dir@ + " && cargo build --release"@),
        ],
        Task::Run { args } => seq![
            sync_of(t),
            remote_of(t, run_script_of(t.remote_dir@, texts(args@))),
        ],
        Task::Check => seq![
            sync_of(t),
            remote_of(t, "cd "@ + t.remote_dir@ + " && cargo clippy --all-targets"@),
        ],
        Task::Ssh => seq![
            InvocationView {
                program: "ssh"@,
                args: seq!["-F"@, t.ssh_config@, "-t"@, t.ssh_host@],
                context: None,
            },
        ],
    }
}

/// How a program ended, as `Ok` or what went wrong.
pub open spec fn outcome_of(program: Seq<char>, success: bool, code: Option<i32>) -> Result<
    (),
    Seq<char>,
> {
    if success {
        Ok(())
    } else {
        match code {
            Some(code) => Err("`"@ + program + "` exited with status "@ + signed_decimal(code as int)),
            None => Err("`"@ + program + "` was terminated by a signal"@),
        }
    }
}

/// The line that announces a program.
pub open spec fn banner_of(i: InvocationView) -> Seq<char> {
    "[xtask] $ "@ + i.program + " "@ + joined(i.args)
}

fn push_escaped(out: &mut String, s: &str)
    ensures
        final(out)@ == old(out)@ + escaped(s@),
{
    let chars = chars_of(s);
    let mut i: usize = 0;
    let ghost before = out@;
    assert(chars@.skip(0) =~= chars@);
    while i < chars.len()
        invariant
            i <= chars.len(),
            chars@ == s@,
            out@ + escaped(chars@.skip(i as int)) == before + escaped(s@),
        decreases chars.len() - i,
    {
        let ghost rest = chars@.skip(i as int);
        let ghost so_far = out@;
        assert(rest.drop_first() =~= chars@.skip(i + 1));
        let c: char = chars[i];
        if c == '\'' {
            out.push('\'');
            out.push('\\');
            out.push('\'');
            out.push('\'');
        } else {
            out.push(c);
        }
        assert(out@ =~= so_far + escaped_char(c));
        assert(out@ + escaped(chars@.skip(i + 1)) =~= so_far + escaped(rest));
        i += 1;
    }
    assert(out@ + escaped(chars@.skip(i as int)) =~= out@);
}

/// The command line that runs a script in the VM: `bash -lc` and the script as
/// one quoted word.
pub fn remote(script: &str) -> (r: String)
    ensures
        r@ == remote_command(script@),
{
    let mut inner = String::from_str("source \"$HOME/.cargo/env\" 2>/dev/null || true; ");
    inner.append(script);
    let mut out = String::from_str("bash -lc ");
    out.append("'");
    push_escaped(&mut out, inner.as_str());
    out.append("'");
    assert(out@ =~= remote_command(script@));
    out
}

fn join(words: &Vec<String>) -> (r: String)
    ensures
        r@ == joined(texts(words@)),
{
    let mut out = String::new();
    let mut i: usize = 0;
    let ghost all = texts(words@);
    assert(all.take(0) =~= seq![]);
    while i < words.len()
        invariant
            i <= words.len(),
            all == texts(words@),
            out@ == joined(all.take(i as int)),
        decreases words.len() - i,
    {
        assert(all.take(i + 1).drop_last() =~= all.take(i as int));
        if i > 0 {
            out.append(" ");
        }
        out.append(words[i].as_str());
        assert(out@ =~= joined(all.take(i + 1)));
        i += 1;
    }
    assert(all.take(i as int) =~= all);
    out
}

fn concat2(a: &str, b: &str) -> (r: String)
    ensures
        r@ == a@ + b@,
{
    let mut out = String::from_str(a);
    out.append(b);
    out
}

/// `ssh` with a script.
pub fn remote_invocation(t: &Target, script: &str) -> (r: Invocation)
    ensures
        r@ == remote_of(*t, script@),
{
    let mut args: Vec<String> = Vec::new();
    args.push(String::from_str("-F"));
    args.push(t.ssh_config.clone());
    args.push(String::from_str("-t"));
    args.push(t.ssh_host.clone());
    args.push(remote(script));
    let r = Invocation { program: String::from_str("ssh"), args, context: None };
    assert(r@.args =~= remote_of(*t, script@).args);
    r
}

/// `rsync` of the code into the VM.
pub fn sync(t: &Target) -> (r: Invocation)
    ensures
        r@ == sync_of(*t),
{
    let mut args: Vec<String> = Vec::new();
    args.push(String::from_str("-az"));
    args.push(String::from_str("--delete"));
    args.push(String::from_str("--exclude"));
    args.push(String::from_str("target/"));
    args.push(String::from_str("--exclude"));
    args.push(String::from_str(".git/"));
    args.push(String::from_str("-e"));
    args.push(concat2("ssh -F ", t.ssh_config.as_str()));
    args.push(concat2(t.local_dir.as_str(), "/"));
    let mut dest = concat2(t.ssh_host.as_str(), ":");
    dest.append(t.remote_dir.as_str());
    dest.append("/");
    args.push(dest);
    let r = Invocation {
        program: String::from_str("rsync"),
        args,
        context: Some(String::from_str("rsync to VM failed")),
    };
    assert(r@.args =~= sync_of(*t).args);
    r
}

/// The script that installs the eBPF toolchain in the VM; it can be run again.
pub fn setup_script() -> (r: &'static str)
    ensures
        r@ == setup_text(),
{
    "set -eux; export DEBIAN_FRONTEND=noninteractive; sudo apt-get update -qq; sudo apt-get install -y --fix-missing build-essential pkg-config libelf-dev clang llvm llvm-dev libclang-dev curl rsync; if ! command -v rustup >/dev/null; then curl --proto '=https' --tlsv1.2 -sSf https://sh.rustup.rs | sh -s -- -y; fi; source \"$HOME/.cargo/env\"; rustup toolchain install stable --profile default; rustup toolchain install nightly --profile default --component rust-src; rustup default nightly; command -v bpf-linker >/dev/null || cargo install bpf-linker"
}

fn run_script(remote_dir: &str, args: &Vec<String>) -> (r: String)
    ensures
        r@ == run_script_of(remote_dir@, texts(args@)),
{
    let mut out = concat2("cd ", remote_dir);
    out.append(
        " && sudo bpftool link list 2>/dev/null | awk -F: '/tracepoint/{print $1}' | xargs -r -I{} sudo bpftool link detach id {} 2>/dev/null; cargo build --release -p driftwatch && sudo RUST_LOG=info ./target/release/driftwatch ",
    );
    if args.len() == 0 {
        out.append("watch");
    } else {
        out.append(join(args).as_str());
    }
    out
}

/// The programs that a task runs, in order; the first that fails ends it.
pub fn plan(t: &Target, task: &Task) -> (r: Vec<Invocation>)
    ensures
        r@.map_values(|i: Invocation| i@) == plan_of(*t, *task),
{
    let mut r: Vec<Invocation> = Vec::new();
    match task {
        Task::Setup => {
            let mut i = remote_invocation(t, setup_script());
            i.context = Some(String::from_str("VM toolchain install failed"));
            r.push(i);
        },
        Task::Sync => {
            r.push(sync(t));
        },
        Task::Build => {
            r.push(sync(t));
            let mut script = concat2("cd ", t.remote_dir.as_str());
            script.append(" && cargo build --release");
            r.push(remote_invocation(t, script.as_str()));
        },
        Task::Run { args } => {
            r.push(sync(t));
            r.push(remote_invocation(t, run_script(t.remote_dir.as_str(), args).as_str()));
        },
        Task::Check => {
            r.push(sync(t));
            let mut script = concat2("cd ", t.remote_dir.as_str());
            script.append(" && cargo clippy --all-targets");
            r.push(remote_invocation(t, script.as_str()));
        },
        Task::Ssh => {
            let mut args: Vec<String> = Vec::new();
            args.push(String::from_str("-F"));
            args.push(t.ssh_config.clone());
            args.push(String::from_str("-t"));
            args.push(t.ssh_host.clone());
            let i = Invocation { program: String::from_str("ssh"), args, context: None };
            assert(i@.args =~= seq!["-F"@, t.ssh_config@, "-t"@, t.ssh_host@]);
            r.push(i);
        },
    }
    assert(r@.map_values(|i: Invocation| i@) =~= plan_of(*t, *task));
    r
}

/// The line that announces a program.
pub fn banner(i: &Invocation) -> (r: String)
    ensures
        r@ == banner_of(i@),
{
    let mut out = concat2("[xtask] $ ", i.program.as_str());
    out.append(" ");
    out.append(join(&i.args).as_str());
    out
}

/// How a program ended: whether it succeeded, and its exit code unless a signal
/// ended it.
pub fn outcome(program: &str, success: bool, code: Option<i32>) -> (r: Result<(), String>)
    ensures
        r is Ok <==> outcome_of(program@, success, code) is Ok,
        r is Err ==> outcome_of(program@, success, code) == Err::<(), Seq<char>>(r->Err_0@),
{
    if success {
        return Ok(());
    }
    let mut out = concat2("`", program);
    match code {
        Some(code) => {
            out.append("` exited with status ");
            push_signed(&mut out, code as i64);
        },
        None => {
            out.append("` was terminated by a signal");
        },
    }
    Err(out)
}

/// What the shell makes of a word of single quoted parts and escaped
/// characters; `None` where it is not one such word.
pub open spec fn shell_word(s: Seq<char>, in_quotes: bool) -> Option<Seq<char>>
    decreases s.len(),
{
    if s.len() == 0 {
        if in_quotes {
            None
        } else {
            Some(seq![])
        }
    } else if s[0] == '\'' {
        shell_word(s.drop_first(), !in_quotes)
    } else if in_quotes {
        prefixed(s[0], shell_word(s.drop_first(), in_quotes))
    } else if s[0] == '\\' && s.len() > 1 {
        prefixed(s[1], shell_word(s.skip(2), in_quotes))
    } else {
        None
    }
}

/// One character in front of a word.
pub open spec fn prefixed(c: char, word: Option<Seq<char>>) -> Option<Seq<char>> {
    match word {
        Some(w) => Some(seq![c] + w),
        None => None,
    }
}

/// The shell takes a quoted text for one word and hands on exactly that text,
/// whatever characters it holds.
pub proof fn law_quoted_text_survives_the_shell(s: Seq<char>)
    ensures
        shell_word(quoted(s), false) == Some(s),
{
    reveal_strlit("'");
    let tail = escaped(s) + seq!['\''];
    assert(quoted(s) =~= seq!['\''] + tail);
    assert(quoted(s).drop_first() =~= tail);
    lemma_escaped_reads_back(s);
}

proof fn lemma_escaped_reads_back(s: Seq<char>)
    ensures
        shell_word(escaped(s) + seq!['\''], true) == Some(s),
    decreases s.len(),
{
    let end = seq!['\''];
    let whole = escaped(s) + end;
    if s.len() == 0 {
        assert(whole =~= end);
        assert(end.drop_first() =~= seq![]);
        assert(shell_word(end.drop_first(), false) == Some(s));
    } else {
        let rest = escaped(s.drop_first()) + end;
        lemma_escaped_reads_back(s.drop_first());
        assert(seq![s[0]] + s.drop_first() =~= s);
        if s[0] == '\'' {
            assert(whole =~= seq!['\'', '\\', '\'', '\''] + rest);
            let a = whole.drop_first();
            assert(a =~= seq!['\\', '\'', '\''] + rest);
            let b = a.skip(2);
            assert(b =~= seq!['\''] + rest);
            assert(b.drop_first() =~= rest);
            assert(shell_word(b, false) == shell_word(rest, true));
            assert(shell_word(a, false) == prefixed('\'', shell_word(b, false)));
            assert(shell_word(whole, true) == shell_word(a, false));
        } else {
            assert(whole =~= seq![s[0]] + rest);
            assert(whole.drop_first() =~= rest);
        }
    }
}

/// Words that hold no spaces are found again where the joined text is split at
/// its spaces: none is lost, and none is added.
pub proof fn law_joined_words_split_back(words: Seq<Seq<char>>)
    requires
        words.len() > 0,
        forall|i: int| 0 <= i < words.len() ==> free_of(#[trigger] words[i], ' '),
    ensures
        fields(joined(words), ' ') == words,
    decreases words.len(),
{
    reveal_strlit(" ");
    if words.len() == 1 {
        lemma_only_field(words[0], ' ');
        assert(seq![words[0]] =~= words);
    } else {
        let front = words.drop_last();
        assert forall|i: int| 0 <= i < front.len() implies free_of(#[trigger] front[i], ' ') by {
            assert(front[i] == words[i]);
        }
        law_joined_words_split_back(front);
        assert(words[words.len() - 1] == words.last());
        lemma_only_field(words.last(), ' ');
        lemma_fields_join(joined(front), ' ', words.last());
        assert(" "@ =~= seq![' ']);
        assert(front + seq![words.last()] =~= words);
    }
}

/// Whatever the words hold: one word stands as it is, and one more word stands
/// behind a single space.
pub proof fn law_one_more_word_follows_a_space(words: Seq<Seq<char>>, word: Seq<char>)
    ensures
        joined(seq![word]) == word,
        words.len() > 0 ==> joined(words.push(word)) == joined(words) + seq![' '] + word,
{
    reveal_strlit(" ");
    assert(" "@ =~= seq![' ']);
    assert(words.push(word).drop_last() =~= words);
}

/// What `bash -lc` gets to run, where a program's last argument is such a command
/// with one quoted word.
pub open spec fn handed_on(i: InvocationView) -> Option<Seq<char>> {
    if starts_with(i.args.last(), "bash -lc "@) {
        shell_word(i.args.last().skip(9), false)
    } else {
        None
    }
}

/// A script reaches the VM whole: `ssh` is told the configuration and the host,
/// and the shell there runs the script behind the line that loads the
/// environment.
pub proof fn law_script_reaches_the_vm(t: Target, script: Seq<char>)
    ensures
        ({
            let i = remote_of(t, script);
            &&& i.program == "ssh"@
            &&& i.args.len() == 5
            &&& i.args.take(4) == seq!["-F"@, t.ssh_config@, "-t"@, t.ssh_host@]
            &&& i.context is None
            &&& handed_on(i) == Some(
                "source \"$HOME/.cargo/env\" 2>/dev/null || true; "@ + script,
            )
        }),
{
    reveal_strlit("bash -lc ");
    let inner = with_env(script);
    let i = remote_of(t, script);
    assert(i.args.take(4) =~= seq!["-F"@, t.ssh_config@, "-t"@, t.ssh_host@]);
    lemma_front("bash -lc "@, quoted(inner));
    assert(i.args.last().skip(9) =~= quoted(inner));
    law_quoted_text_survives_the_shell(inner);
}

/// The run task syncs, and then runs a script in the project's directory that
/// ends in the binary's path, a space and the arguments with single spaces
/// between them, for every list of arguments that is not empty. Only for an
/// empty list the binary is told to `watch`.
pub proof fn law_run_passes_every_argument(t: Target, args: Vec<String>)
    ensures
        ({
            let steps = plan_of(t, Task::Run { args });
            let script = handed_on(steps[1]);
            &&& steps.len() == 2
            &&& steps[0] == sync_of(t)
            &&& steps[1] == remote_of(t, run_script_of(t.remote_dir@, texts(args@)))
            &&& script is Some
            &&& starts_with(
                script->0,
                "source \"$HOME/.cargo/env\" 2>/dev/null || true; "@ + ("cd "@ + t.remote_dir@
                    + " && "@),
            )
            &&& args.len() == 0 ==> ends_with(script->0, "./target/release/driftwatch watch"@)
            &&& args.len() > 0 ==> ends_with(
                script->0,
                "./target/release/driftwatch "@ + joined(texts(args@)),
            )
            &&& args.len() == 1 ==> ends_with(
                script->0,
                "./target/release/driftwatch "@ + args[0]@,
            )
        }),
{
    let words = texts(args@);
    let script = run_script_of(t.remote_dir@, words);
    law_script_reaches_the_vm(t, script);
    let env = "source \"$HOME/.cargo/env\" 2>/dev/null || true; "@;
    let middle = " && sudo bpftool link list 2>/dev/null | awk -F: '/tracepoint/{print $1}' | xargs -r -I{} sudo bpftool link detach id {} 2>/dev/null; cargo build --release -p driftwatch && sudo RUST_LOG=info ./target/release/driftwatch "@;
    lemma_run_literal();
    let n = middle.len() as int;
    let binary = "./target/release/driftwatch "@;
    let given = bin_args_of(words);
    let whole = env + script;
    lemma_back(env + ("cd "@ + t.remote_dir@ + middle.take(n - 28)), binary + given);
    assert(middle =~= middle.take(n - 28) + binary);
    assert(whole =~= env + ("cd "@ + t.remote_dir@ + middle.take(n - 28)) + (binary + given));
    lemma_front(env + ("cd "@ + t.remote_dir@ + " && "@), middle.skip(4) + given);
    assert(middle =~= " && "@ + middle.skip(4));
    assert(whole =~= env + ("cd "@ + t.remote_dir@ + " && "@) + (middle.skip(4) + given));
    if args.len() == 0 {
        reveal_strlit("watch");
        reveal_strlit("./target/release/driftwatch ");
        reveal_strlit("./target/release/driftwatch watch");
        assert("./target/release/driftwatch watch"@ =~= binary + given);
    }
    if args.len() == 1 {
        assert(joined(words) == words[0]);
    }
}

proof fn lemma_run_literal()
    ensures
        ({
            let middle = " && sudo bpftool link list 2>/dev/null | awk -F: '/tracepoint/{print $1}' | xargs -r -I{} sudo bpftool link detach id {} 2>/dev/null; cargo build --release -p driftwatch && sudo RUST_LOG=info ./target/release/driftwatch "@;
            &&& middle.len() > 32
            &&& middle.take(4) == " && "@
            &&& middle.skip(middle.len() - 28) == "./target/release/driftwatch "@
            &&& "./target/release/driftwatch "@.len() == 28
            &&& " && "@.len() == 4
        }),
{
    reveal_strlit(
        " && sudo bpftool link list 2>/dev/null | awk -F: '/tracepoint/{print $1}' | xargs -r -I{} sudo bpftool link detach id {} 2>/dev/null; cargo build --release -p driftwatch && sudo RUST_LOG=info ./target/release/driftwatch ",
    );
    reveal_strlit("./target/release/driftwatch ");
    reveal_strlit(" && ");
    let middle = " && sudo bpftool link list 2>/dev/null | awk -F: '/tracepoint/{print $1}' | xargs -r -I{} sudo bpftool link detach id {} 2>/dev/null; cargo build --release -p driftwatch && sudo RUST_LOG=info ./target/release/driftwatch "@;
    assert(middle.take(4) =~= " && "@);
    assert(middle.skip(middle.len() - 28) =~= "./target/release/driftwatch "@);
}

/// Every task but the setup and the login syncs first. Building and checking run
/// `cargo` in the project's directory, the setup and the login only use `ssh`.
pub proof fn law_tasks_sync_before_they_build(t: Target)
    ensures
        plan_of(t, Task::Sync) == seq![sync_of(t)],
        plan_of(t, Task::Build).len() == 2 && plan_of(t, Task::Build)[0] == sync_of(t),
        handed_on(plan_of(t, Task::Build)[1]) is Some && ends_with(
            handed_on(plan_of(t, Task::Build)[1])->0,
            "cd "@ + t.remote_dir@ + " && cargo build --release"@,
        ),
        plan_of(t, Task::Check).len() == 2 && plan_of(t, Task::Check)[0] == sync_of(t),
        handed_on(plan_of(t, Task::Check)[1]) is Some && ends_with(
            handed_on(plan_of(t, Task::Check)[1])->0,
            "cd "@ + t.remote_dir@ + " && cargo clippy --all-targets"@,
        ),
        plan_of(t, Task::Setup).len() == 1 && plan_of(t, Task::Setup)[0].program == "ssh"@,
        plan_of(t, Task::Setup)[0].args == remote_of(t, setup_text()).args,
        plan_of(t, Task::Setup)[0].context == Some("VM toolchain install failed"@),
        plan_of(t, Task::Ssh).len() == 1 && plan_of(t, Task::Ssh)[0].program == "ssh"@,
        plan_of(t, Task::Ssh)[0].context is None,
        plan_of(t, Task::Build)[1].context is None && plan_of(t, Task::Check)[1].context is None,
        plan_of(t, Task::Ssh)[0].args == remote_of(t, setup_text()).args.take(4),
{
    let env = "source \"$HOME/.cargo/env\" 2>/dev/null || true; "@;
    let build = "cd "@ + t.remote_dir@ + " && cargo build --release"@;
    let check = "cd "@ + t.remote_dir@ + " && cargo clippy --all-targets"@;
    law_script_reaches_the_vm(t, build);
    law_script_reaches_the_vm(t, check);
    law_script_reaches_the_vm(t, setup_text());
    lemma_back(env, build);
    lemma_back(env, check);
}

/// The sync copies what is in the local directory into the remote one on the
/// host, over the same `ssh` configuration, deletes what is gone, and leaves out
/// build artifacts and history.
pub proof fn law_sync_copies_local_to_remote(t: Target)
    ensures
        ({
            let i = sync_of(t);
            let n = i.args.len() as int;
            &&& i.program == "rsync"@
            &&& n == 10
            &&& i.args[n - 2] == t.local_dir@.push('/')
            &&& i.args[n - 1] == t.ssh_host@.push(':') + t.remote_dir@.push('/')
            &&& i.args[n - 4] == "-e"@
            &&& i.args[n - 3].skip(7) == t.ssh_config@
            &&& starts_with(i.args[n - 3], "ssh -F "@)
            &&& i.args[0] == "-az"@
            &&& i.args[1] == "--delete"@
            &&& i.args.subrange(2, 6) == seq!["--exclude"@, "target/"@, "--exclude"@, ".git/"@]
            &&& i.context == Some("rsync to VM failed"@)
        }),
{
    reveal_strlit("/");
    reveal_strlit(":");
    reveal_strlit("ssh -F ");
    let i = sync_of(t);
    assert(i.args[8] =~= t.local_dir@.push('/'));
    assert(i.args[9] =~= t.ssh_host@.push(':') + t.remote_dir@.push('/'));
    assert(i.args[7].skip(7) =~= t.ssh_config@);
    lemma_front("ssh -F "@, t.ssh_config@);
    assert(i.args.subrange(2, 6) =~= seq!["--exclude"@, "target/"@, "--exclude"@, ".git/"@]);
}

/// A program that succeeds is never an error and one that does not always is,
/// whatever its exit code. The error begins with the program in back quotes and
/// ends in the code, or says that a signal ended it.
pub proof fn law_failure_names_program_and_code(
    program: Seq<char>,
    success: bool,
    code: Option<i32>,
)
    ensures
        outcome_of(program, success, code) is Ok <==> success,
        !success ==> starts_with(
            outcome_of(program, success, code)->Err_0,
            "`"@ + program + "` "@,
        ),
        !success && code is Some ==> ends_with(
            outcome_of(program, success, code)->Err_0,
            "` exited with status "@ + signed_decimal(code->0 as int),
        ),
        !success && code is None ==> ends_with(
            outcome_of(program, success, code)->Err_0,
            "` was terminated by a signal"@,
        ),
{
    reveal_strlit("` ");
    reveal_strlit("` exited with status ");
    reveal_strlit("` was terminated by a signal");
    let front = "`"@ + program;
    if !success {
        let back = match code {
            Some(code) => "` exited with status "@ + signed_decimal(code as int),
            None => "` was terminated by a signal"@,
        };
        let text = outcome_of(program, success, code)->Err_0;
        assert(text =~= front + back);
        lemma_back(front, back);
        lemma_front(front + "` "@, back.skip(2));
        assert(back =~= "` "@ + back.skip(2));
        assert(text =~= (front + "` "@) + back.skip(2));
    }
}

/// A program is announced with its name and all its arguments.
pub proof fn law_announcement_names_program_and_arguments(i: InvocationView)
    ensures
        banner_of(i).take(10) == "[xtask] $ "@,
        banner_of(i).skip(10) == i.program + seq![' '] + joined(i.args),
{
    reveal_strlit("[xtask] $ ");
    reveal_strlit(" ");
    assert(banner_of(i).take(10) =~= "[xtask] $ "@);
    assert(banner_of(i).skip(10) =~= i.program + seq![' '] + joined(i.args));
}

} // verus!
