use collector::cargo::{fake_rustc, BuildKind, CargoProcess, Host, Stage, Step};
use collector::command::{command_output, touch_all, Arg, Command, Output, Ran};
use collector::path::FilePath;
use collector::profiler::Profiler;

fn path(s: &str) -> FilePath {
    FilePath { bytes: s.as_bytes().to_vec() }
}

fn word(arg: &Arg) -> String {
    match arg {
        Arg::Text(text) => text.clone(),
        Arg::Os(bytes) => format!("<{}>", String::from_utf8(bytes.clone()).unwrap()),
    }
}

fn args(command: &Command) -> Vec<String> {
    command.args.iter().map(word).collect()
}

fn host() -> Host {
    Host { shell: Some(b"/bin/sh".to_vec()), path: None, fake_rustc: fake_rustc(&path("/bin")) }
}

fn process<'a>(rustc: &'a FilePath, cargo: &'a FilePath) -> CargoProcess<'a> {
    CargoProcess {
        rustc_path: rustc,
        cargo_path: cargo,
        build_kind: BuildKind::Debug,
        profiler: None,
        incremental: false,
        nll: false,
        manifest_path: "sub/Cargo.toml".to_string(),
        cargo_args: vec!["--all".to_string(), "-v".to_string()],
        rustc_args: vec!["-Ztime-passes".to_string()],
    }
}

fn ended(success: bool, stdout: &[u8], stderr: &[u8]) -> Ran {
    Ran::Ended(Output {
        success,
        status: "exit status: 7".to_string(),
        stdout: stdout.to_vec(),
        stderr: stderr.to_vec(),
        shown: String::new(),
    })
}

#[test]
fn profilers_have_their_names() {
    let names: Vec<&str> = [
        Profiler::PerfStat,
        Profiler::PerfRecord,
        Profiler::Cachegrind,
        Profiler::Callgrind,
        Profiler::DHAT,
        Profiler::Massif,
    ]
    .iter()
    .map(|p| p.name())
    .collect();
    assert_eq!(names, ["perf-stat", "perf-record", "cachegrind", "callgrind", "dhat", "massif"]);
}

#[test]
fn wrapper_lies_beside_the_program() {
    assert_eq!(fake_rustc(&path("/opt/bin")).bytes, b"/opt/bin/rustc-fake");
}

#[test]
fn base_command_starts_from_a_clean_environment() {
    let (rustc, cargo) = (path("/r"), path("/c"));
    for (incremental, value) in [(false, "0"), (true, "1")] {
        let process = process(&rustc, &cargo).incremental(incremental);
        let command = process.base_command(&path("/work"), &host(), "clean");
        assert_eq!(command.program, "cargo");
        assert!(command.clear_env);
        assert_eq!(command.cwd.as_ref().unwrap().bytes, b"/work");
        let env: Vec<(String, String)> =
            command.env.iter().map(|v| (v.name.clone(), word(&v.value))).collect();
        let expected: Vec<(String, String)> = [
            ("SHELL", "</bin/sh>"),
            ("PATH", "<>"),
            ("RUSTC", "</bin/rustc-fake>"),
            ("RUSTC_REAL", "</r>"),
            ("CARGO", "</c>"),
            ("CARGO_INCREMENTAL", value),
        ]
        .iter()
        .map(|(a, b)| (a.to_string(), b.to_string()))
        .collect();
        assert_eq!(env, expected);
        assert_eq!(args(&command), ["clean", "--manifest-path", "sub/Cargo.toml"]);
    }
}

#[test]
fn plain_build_has_no_compiler_arguments() {
    let (rustc, cargo) = (path("/r"), path("/c"));
    let command = process(&rustc, &cargo).rustc_command(&path("/w"), &host(), "x#0.1.0");
    assert_eq!(
        args(&command),
        ["rustc", "--manifest-path", "sub/Cargo.toml", "-p", "x#0.1.0", "--all", "-v", "--"]
    );
}

#[test]
fn kinds_of_build_have_their_flags() {
    let (rustc, cargo) = (path("/r"), path("/c"));
    let mut p = process(&rustc, &cargo);
    p.cargo_args = vec![];
    p.build_kind = BuildKind::Check;
    assert_eq!(
        args(&p.rustc_command(&path("/w"), &host(), "x"))[3..],
        ["-p", "x", "--profile", "check", "--"]
    );
    p.build_kind = BuildKind::Opt;
    assert_eq!(args(&p.rustc_command(&path("/w"), &host(), "x"))[3..], ["-p", "x", "--release", "--"]);
    p.build_kind = BuildKind::Debug;
    assert_eq!(args(&p.rustc_command(&path("/w"), &host(), "x"))[3..], ["-p", "x", "--"]);
}

#[test]
fn wrapping_reaches_the_final_crate_only() {
    let (rustc, cargo) = (path("/r"), path("/c"));
    let plain = args(&process(&rustc, &cargo).rustc_command(&path("/w"), &host(), "x"));
    let wrapped = process(&rustc, &cargo)
        .profiler(Profiler::Massif)
        .nll(true)
        .rustc_command(&path("/w"), &host(), "x");
    let wrapped = args(&wrapped);
    assert_eq!(wrapped[..plain.len()], plain[..]);
    assert_eq!(plain.last().unwrap(), "--");
    assert_eq!(
        wrapped[plain.len()..],
        ["-Zborrowck=mir", "--wrap-rustc-with", "massif", "-Ztime-passes"]
    );
    let only_nll = process(&rustc, &cargo).nll(true).rustc_command(&path("/w"), &host(), "x");
    assert_eq!(args(&only_nll)[plain.len()..], ["-Zborrowck=mir"]);
}

#[test]
fn builders_change_one_thing_each() {
    let (rustc, cargo) = (path("/r"), path("/c"));
    let p = process(&rustc, &cargo).profiler(Profiler::DHAT).incremental(true).nll(true).nll(false);
    assert_eq!(p.profiler, Some(Profiler::DHAT));
    assert!(p.incremental && !p.nll);
    assert_eq!(p.build_kind, BuildKind::Debug);
    assert_eq!(p.manifest_path, "sub/Cargo.toml");
}

#[test]
fn package_identifier_is_trimmed() {
    let (rustc, cargo) = (path("/r"), path("/c"));
    let pkgid = process(&rustc, &cargo).get_pkgid(&" file:///é#0.1.0\r\n".as_bytes().to_vec());
    assert_eq!(pkgid, "file:///é#0.1.0");
}

#[test]
fn build_runs_three_commands() {
    let (rustc, cargo) = (path("/r"), path("/c"));
    let (cwd, host) = (path("/w"), host());
    let p = process(&rustc, &cargo);
    let (stage, command) = match p.run_rustc(&cwd, &host) {
        Step::Run(stage, command) => (stage, command),
        other => panic!("{:?}", other),
    };
    assert_eq!(args(&command)[0], "pkgid");
    let (stage, command) = match p.run_rustc_next(&cwd, &host, stage, ended(true, b"x#1\n", b"")) {
        Step::Run(stage, command) => (stage, command),
        other => panic!("{:?}", other),
    };
    assert_eq!(command.program, "bash");
    assert_eq!(command.cwd.as_ref().unwrap().bytes, b"/w");
    let (stage, command) = match p.run_rustc_next(&cwd, &host, stage, ended(true, b"", b"")) {
        Step::Run(stage, command) => (stage, command),
        other => panic!("{:?}", other),
    };
    assert!(matches!(stage, Stage::Rustc));
    assert_eq!(args(&command)[..5], ["rustc", "--manifest-path", "sub/Cargo.toml", "-p", "x#1"]);
    match p.run_rustc_next(&cwd, &host, stage, ended(true, b"out", b"err")) {
        Step::Finished(output) => {
            assert_eq!(output.stdout, b"out");
            assert_eq!(output.stderr, b"err");
        }
        other => panic!("{:?}", other),
    }
}

#[test]
fn build_stops_at_the_first_failure() {
    let (rustc, cargo) = (path("/r"), path("/c"));
    let (cwd, host) = (path("/w"), host());
    let p = process(&rustc, &cargo);
    let not_run = || Ran::NotRun("no such file".to_string());
    match p.run_rustc_next(&cwd, &host, Stage::Pkgid, not_run()) {
        Step::NoPkgid(reason) => assert_eq!(reason, "no such file"),
        other => panic!("{:?}", other),
    }
    assert!(matches!(
        p.run_rustc_next(&cwd, &host, Stage::Pkgid, ended(true, b"\xff", b"")),
        Step::PkgidNotText
    ));
    match p.run_rustc_next(&cwd, &host, Stage::Touch("x".to_string()), ended(false, b"o", b"e")) {
        Step::Failed(reason) => {
            assert_eq!(reason, "expected success, got exit status: 7\n\nstderr=e\n\n stdout=o")
        }
        other => panic!("{:?}", other),
    }
    match p.run_rustc_next(&cwd, &host, Stage::Rustc, not_run()) {
        Step::Failed(reason) => assert_eq!(reason, "no such file"),
        other => panic!("{:?}", other),
    }
}

#[test]
fn output_of_a_failed_command_is_told_as_far_as_it_is_text() {
    let reason = command_output(ended(false, b"a\xffb", "é".as_bytes())).unwrap_err();
    assert_eq!(reason, "expected success, got exit status: 7\n\nstderr=é\n\n stdout=a\u{fffd}b");
    let output = command_output(ended(true, b"a\xffb", b"")).unwrap();
    assert_eq!(output.stdout, b"a\xffb");
}

#[test]
fn touching_finds_the_rust_sources() {
    let command = touch_all(&path("/w"));
    assert_eq!(command.program, "bash");
    assert!(!command.clear_env);
    assert!(command.env.is_empty());
    assert_eq!(command.cwd.as_ref().unwrap().bytes, b"/w");
    assert_eq!(args(&command), ["-c", "find . -name '*.rs' | xargs touch"]);
}
