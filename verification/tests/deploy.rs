use driftwatch::xtask::{
    banner, outcome, plan, remote, remote_invocation, setup_script, sync, Invocation, Target, Task,
};

fn target() -> Target {
    Target {
        ssh_config: "/vm/ssh.config".to_string(),
        ssh_host: "lima-ebpf".to_string(),
        local_dir: "/src/driftwatch".to_string(),
        remote_dir: "/home/u/driftwatch".to_string(),
    }
}

fn script_of(i: &Invocation) -> &str {
    assert_eq!(i.program, "ssh");
    assert_eq!(i.args[..4], ["-F", "/vm/ssh.config", "-t", "lima-ebpf"]);
    i.args[4].as_str()
}

#[test]
fn scripts_are_one_quoted_word() {
    assert_eq!(
        remote("ls"),
        "bash -lc 'source \"$HOME/.cargo/env\" 2>/dev/null || true; ls'"
    );
    assert_eq!(
        remote("awk '{print $1}'"),
        "bash -lc 'source \"$HOME/.cargo/env\" 2>/dev/null || true; awk '\\''{print $1}'\\'''"
    );
    let script = "a'b''c";
    let with_env = format!("source \"$HOME/.cargo/env\" 2>/dev/null || true; {}", script);
    assert_eq!(
        remote(script),
        format!("bash -lc '{}'", with_env.replace('\'', r"'\''"))
    );
}

#[test]
fn sync_pushes_the_code() {
    let i = sync(&target());
    assert_eq!(i.program, "rsync");
    assert_eq!(
        i.args,
        [
            "-az",
            "--delete",
            "--exclude",
            "target/",
            "--exclude",
            ".git/",
            "-e",
            "ssh -F /vm/ssh.config",
            "/src/driftwatch/",
            "lima-ebpf:/home/u/driftwatch/",
        ]
    );
    assert_eq!(i.context.as_deref(), Some("rsync to VM failed"));
}

#[test]
fn tasks_sync_before_they_work() {
    let t = target();
    for (task, script) in [
        (Task::Build, "cd /home/u/driftwatch && cargo build --release"),
        (Task::Check, "cd /home/u/driftwatch && cargo clippy --all-targets"),
    ] {
        let p = plan(&t, &task);
        assert_eq!(p.len(), 2);
        assert_eq!(p[0].program, "rsync");
        assert_eq!(script_of(&p[1]), remote(script));
    }
    let p = plan(&t, &Task::Sync);
    assert_eq!(p.len(), 1);
    assert_eq!(p[0].program, "rsync");
    let p = plan(&t, &Task::Ssh);
    assert_eq!(p.len(), 1);
    assert_eq!(p[0].args, ["-F", "/vm/ssh.config", "-t", "lima-ebpf"]);
    let p = plan(&t, &Task::Setup);
    assert_eq!(p.len(), 1);
    assert_eq!(script_of(&p[0]), remote(setup_script()));
    assert_eq!(p[0].context.as_deref(), Some("VM toolchain install failed"));
}

#[test]
fn run_passes_its_arguments_on() {
    let t = target();
    let script = |args: Vec<String>| {
        let p = plan(&t, &Task::Run { args });
        assert_eq!(p.len(), 2);
        script_of(&p[1]).to_string()
    };
    let before = "cd /home/u/driftwatch && sudo bpftool link list 2>/dev/null | awk -F: '/tracepoint/{print $1}' | xargs -r -I{} sudo bpftool link detach id {} 2>/dev/null; cargo build --release -p driftwatch && sudo RUST_LOG=info ./target/release/driftwatch ";
    assert_eq!(script(vec![]), remote(&(before.to_string() + "watch")));
    assert_eq!(
        script(vec!["run".to_string(), "--dev".to_string(), "253:16".to_string()]),
        remote(&(before.to_string() + "run --dev 253:16"))
    );
}

#[test]
fn programs_are_announced() {
    let i = remote_invocation(&target(), "ls");
    assert_eq!(
        banner(&i),
        format!("[xtask] $ ssh -F /vm/ssh.config -t lima-ebpf {}", remote("ls"))
    );
}

#[test]
fn program_outcomes() {
    assert_eq!(outcome("ssh", true, Some(0)), Ok(()));
    assert_eq!(
        outcome("ssh", false, Some(255)),
        Err("`ssh` exited with status 255".to_string())
    );
    assert_eq!(
        outcome("rsync", false, None),
        Err("`rsync` was terminated by a signal".to_string())
    );
}

/// What a POSIX shell makes of one word of single quoted and escaped parts.
fn unquote(word: &str) -> String {
    let mut out = String::new();
    let mut quoted = false;
    let mut chars = word.chars();
    while let Some(c) = chars.next() {
        match c {
            '\'' => quoted = !quoted,
            '\\' if !quoted => out.push(chars.next().unwrap()),
            _ => {
                assert!(quoted, "{:?} stands outside the quotes", c);
                out.push(c);
            }
        }
    }
    assert!(!quoted);
    out
}

#[test]
fn quoted_scripts_survive_the_shell() {
    for script in ["", "ls", "'", "''", "a'b\\'c", "echo \"$HOME\" && awk '{print $1}'", "µ\n'x"] {
        let command = remote(script);
        let word = command.strip_prefix("bash -lc ").unwrap();
        assert_eq!(
            unquote(word),
            format!("source \"$HOME/.cargo/env\" 2>/dev/null || true; {}", script)
        );
    }
}

#[test]
fn setup_installs_the_toolchain() {
    assert_eq!(
        setup_script(),
        "set -eux; export DEBIAN_FRONTEND=noninteractive; sudo apt-get update -qq; sudo apt-get install -y --fix-missing build-essential pkg-config libelf-dev clang llvm llvm-dev libclang-dev curl rsync; if ! command -v rustup >/dev/null; then curl --proto '=https' --tlsv1.2 -sSf https://sh.rustup.rs | sh -s -- -y; fi; source \"$HOME/.cargo/env\"; rustup toolchain install stable --profile default; rustup toolchain install nightly --profile default --component rust-src; rustup default nightly; command -v bpf-linker >/dev/null || cargo install bpf-linker"
    );
}
