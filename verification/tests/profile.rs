use collector::benchmark::{Benchmark, Error};
use collector::cargo::BuildKind;
use collector::command::{Arg, Output};
use collector::config::BenchmarkConfig;
use collector::path::FilePath;
use collector::profile::{FileWork, Reply, Request, Stage};
use collector::profiler::Profiler;

fn path(s: &str) -> FilePath {
    FilePath { bytes: s.as_bytes().to_vec() }
}

fn text(p: &FilePath) -> String {
    String::from_utf8(p.bytes.clone()).unwrap()
}

fn output(stderr: &[u8]) -> Output {
    Output {
        success: true,
        status: String::new(),
        stdout: b"out".to_vec(),
        stderr: stderr.to_vec(),
        shown: String::new(),
    }
}

/// What is done with the files of a run under the profiler.
fn kept(profiler: Profiler) -> Option<Vec<String>> {
    let benchmark = Benchmark::new("hello".to_string(), path("/b"), vec![], None);
    let (out, rustc, cargo) = (path("/out"), path("/r"), path("/c"));
    let state = benchmark.profile(profiler, &out, &rustc, &cargo, "id7").unwrap();
    match state.request() {
        Some(Request::MakePrepDir(base)) => assert_eq!(text(&base), "/b"),
        other => panic!("{:?}", other),
    }
    let state = state.advance(Reply::Made(path("/tmp/p")));
    match state.request() {
        Some(Request::Build(process, cwd)) => {
            assert_eq!(process.profiler, None);
            assert_eq!(process.build_kind, BuildKind::Debug);
            assert_eq!(text(&cwd), "/tmp/p");
        }
        other => panic!("{:?}", other),
    }
    let state = state.advance(Reply::Built(output(b"first")));
    match state.request() {
        Some(Request::MakeTimingDir(base)) => assert_eq!(text(&base), "/tmp/p"),
        other => panic!("{:?}", other),
    }
    let state = state.advance(Reply::Made(path("/tmp/t")));
    match state.request() {
        Some(Request::Build(process, cwd)) => {
            assert_eq!(process.profiler, Some(profiler));
            assert_eq!(process.build_kind, BuildKind::Debug);
            assert!(!process.incremental && !process.nll);
            assert_eq!(text(&cwd), "/tmp/t");
        }
        other => panic!("{:?}", other),
    }
    let state = state.advance(Reply::Built(output(b"second")));
    assert!(state.request().is_none());
    match state.stage {
        Stage::Unexpected => None,
        Stage::Keep(work) => Some(
            work.iter()
                .map(|item| match item {
                    FileWork::Copy(from, to) => format!("copy {} {}", text(from), text(to)),
                    FileWork::Annotate(command, to) => {
                        let args: Vec<String> = command
                            .args
                            .iter()
                            .map(|a| match a {
                                Arg::Text(t) => t.clone(),
                                Arg::Os(bytes) => String::from_utf8(bytes.clone()).unwrap(),
                            })
                            .collect();
                        assert!(command.cwd.is_none() && !command.clear_env);
                        format!("run {} {} {}", command.program, args.join(" "), text(to))
                    }
                    FileWork::Write(bytes, to) => {
                        format!("write {} {}", String::from_utf8(bytes.clone()).unwrap(), text(to))
                    }
                })
                .collect(),
        ),
        other => panic!("{:?}", other),
    }
}

#[test]
fn disabled_benchmark_is_not_profiled() {
    let config = BenchmarkConfig { disabled: true, ..BenchmarkConfig::default() };
    let benchmark = Benchmark::new("hello".to_string(), path("/b"), vec![], Some(config));
    let (out, rustc, cargo) = (path("/out"), path("/r"), path("/c"));
    match benchmark.profile(Profiler::Massif, &out, &rustc, &cargo, "id") {
        Err(error) => assert_eq!(error, Error::Disabled),
        Ok(_) => panic!("profiled"),
    }
}

#[test]
fn perf_stat_keeps_no_files() {
    assert_eq!(kept(Profiler::PerfStat), None);
}

#[test]
fn perf_record_keeps_its_data() {
    assert_eq!(kept(Profiler::PerfRecord).unwrap(), ["copy /tmp/t/perf /out/perf-id7-hello"]);
}

#[test]
fn cachegrind_is_annotated() {
    assert_eq!(
        kept(Profiler::Cachegrind).unwrap(),
        [
            "copy /tmp/t/cgout /out/cgout-id7-hello",
            "run cg_annotate --auto=yes /out/cgout-id7-hello /out/cgann-id7-hello"
        ]
    );
}

#[test]
fn callgrind_is_annotated() {
    assert_eq!(
        kept(Profiler::Callgrind).unwrap(),
        [
            "copy /tmp/t/clgout /out/clgout-id7-hello",
            "run callgrind_annotate --auto=yes /out/clgout-id7-hello /out/clgann-id7-hello"
        ]
    );
}

#[test]
fn dhat_writes_to_standard_error() {
    assert_eq!(kept(Profiler::DHAT).unwrap(), ["write second /out/dhat-id7-hello"]);
}

#[test]
fn massif_keeps_its_data() {
    assert_eq!(kept(Profiler::Massif).unwrap(), ["copy /tmp/t/msout /out/msout-id7-hello"]);
}
