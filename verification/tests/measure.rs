use collector::benchmark::{Benchmark, Error};
use collector::cargo::BuildKind;
use collector::config::BenchmarkConfig;
use collector::measure::{Action, Event, Mismatch};
use collector::path::FilePath;
use collector::profiler::Profiler;
use collector::schedule::{plan_iteration, Mode, Series, Task};
use collector::stats::{BenchmarkState, Count, Run, Stat};

fn path(s: &str) -> FilePath {
    FilePath { bytes: s.as_bytes().to_vec() }
}

fn text(p: &FilePath) -> String {
    String::from_utf8(p.bytes.clone()).unwrap()
}

fn benchmark(patches: &[&str], config: BenchmarkConfig) -> Benchmark {
    let entries = patches.iter().map(|p| path(p)).collect();
    Benchmark::new("hello".to_string(), path("/b"), entries, Some(config))
}

fn stats(values: &[(&str, f64)]) -> Vec<Stat> {
    values
        .iter()
        .map(|(name, x)| Stat { name: name.to_string(), cnt: Count { bits: x.to_bits() } })
        .collect()
}

/// Plays a whole measurement. Every measured value is `values(n)`, where `n` counts
/// the measurements. Returns what was done, and the reports.
fn play(
    benchmark: &Benchmark,
    iterations: usize,
    mode: Mode,
    values: &dyn Fn(usize) -> Vec<Stat>,
) -> (Vec<String>, Result<Vec<Run>, Mismatch>) {
    let (rustc, cargo) = (path("/r"), path("/c"));
    let mut state = benchmark.measure(&rustc, &cargo, iterations, mode).unwrap();
    let mut log = vec![];
    let mut dirs = 0;
    let mut measured = 0;
    loop {
        let event = match state.action() {
            Action::MakePrepDir(base) => {
                log.push(format!("prep {}", text(&base)));
                dirs += 1;
                Event::Made(path(&format!("/tmp/{}", dirs)))
            }
            Action::MakeTimingDir(base) => {
                log.push(format!("timing {}", text(&base)));
                dirs += 1;
                Event::Made(path(&format!("/tmp/{}", dirs)))
            }
            Action::Build(process, cwd) => {
                assert_eq!(process.profiler, None);
                assert!(!process.nll && !process.incremental);
                log.push(format!("build {:?} {}", process.build_kind, text(&cwd)));
                Event::Built
            }
            Action::Measure(process, cwd) => {
                assert_eq!(process.profiler, Some(Profiler::PerfStat));
                log.push(format!(
                    "measure {:?} nll={} incr={} {}",
                    process.build_kind,
                    process.nll,
                    process.incremental,
                    text(&cwd)
                ));
                measured += 1;
                Event::Measured(values(measured))
            }
            Action::ApplyPatch(patch, dir) => {
                log.push(format!("apply {} {}", text(&patch.path), text(&dir)));
                Event::Applied
            }
            Action::Finish => {
                let collected = state.finish();
                assert_eq!(collected.name, "hello");
                return (log, Ok(collected.runs));
            }
        };
        state = match state.advance(event) {
            Ok(next) => next,
            Err(mismatch) => return (log, Err(mismatch)),
        };
    }
}

fn states(runs: &[Run]) -> Vec<String> {
    runs.iter()
        .map(|run| match &run.state {
            BenchmarkState::IncrementalPatched(patch) => format!("Patched {}", text(&patch.path)),
            other => format!("{:?}", other),
        })
        .collect()
}

#[test]
fn disabled_benchmark_is_not_measured() {
    let b = benchmark(&[], BenchmarkConfig { disabled: true, ..BenchmarkConfig::default() });
    let (rustc, cargo) = (path("/r"), path("/c"));
    match b.measure(&rustc, &cargo, 3, Mode::Normal) {
        Err(error) => assert_eq!(error, Error::Disabled),
        Ok(_) => panic!("measured"),
    }
}

#[test]
fn modes_have_their_kinds_of_build() {
    assert_eq!(Mode::Normal.build_kinds(), [BuildKind::Check, BuildKind::Debug, BuildKind::Opt]);
    assert_eq!(Mode::Test.build_kinds(), [BuildKind::Check]);
}

#[test]
fn iteration_follows_its_plan() {
    assert_eq!(
        plan_iteration(true, 2),
        [
            Task::Copy,
            Task::Measure(Series::Clean),
            Task::Measure(Series::Nll),
            Task::Measure(Series::IncrementalStart),
            Task::Measure(Series::IncrementalClean),
            Task::ApplyPatch(0),
            Task::Measure(Series::Patched(0)),
            Task::ApplyPatch(1),
            Task::Measure(Series::Patched(1)),
        ]
    );
    assert_eq!(
        plan_iteration(false, 0),
        [
            Task::Copy,
            Task::Measure(Series::Clean),
            Task::Measure(Series::IncrementalStart),
            Task::Measure(Series::IncrementalClean),
        ]
    );
}

#[test]
fn everything_is_done_in_order() {
    let b = benchmark(&["1-y.patch", "0-x.patch"], BenchmarkConfig::default());
    let (log, runs) = play(&b, 2, Mode::Test, &|n| stats(&[("time", 100.0 - n as f64)]));
    let mut expected = vec!["prep /b".to_string(), "build Check /tmp/1".to_string()];
    for dir in ["/tmp/2", "/tmp/3"] {
        expected.push("timing /tmp/1".to_string());
        expected.push(format!("measure Check nll=false incr=false {}", dir));
        expected.push(format!("measure Check nll=true incr=false {}", dir));
        expected.push(format!("measure Check nll=false incr=true {}", dir));
        expected.push(format!("measure Check nll=false incr=true {}", dir));
        for patch in ["/b/0-x.patch", "/b/1-y.patch"] {
            expected.push(format!("apply {} {}", patch, dir));
            expected.push(format!("measure Check nll=false incr=true {}", dir));
        }
    }
    assert_eq!(log, expected);
    let runs = runs.unwrap();
    assert_eq!(
        states(&runs),
        [
            "Clean",
            "Nll",
            "IncrementalStart",
            "IncrementalClean",
            "Patched /b/0-x.patch",
            "Patched /b/1-y.patch"
        ]
    );
    // The second iteration measures the lesser values.
    let least: Vec<f64> = runs.iter().map(|r| f64::from_bits(r.stats[0].cnt.bits)).collect();
    assert_eq!(least, [93.0, 92.0, 91.0, 90.0, 89.0, 88.0]);
    assert!(runs.iter().all(|r| r.check && !r.release));
}

#[test]
fn each_kind_of_build_is_reported_in_turn() {
    let config = BenchmarkConfig { nll: false, ..BenchmarkConfig::default() };
    let b = benchmark(&["a.patch"], config);
    let (log, runs) = play(&b, 1, Mode::Normal, &|n| stats(&[("n", n as f64)]));
    let runs = runs.unwrap();
    assert_eq!(runs.len(), 3 * 4);
    let flags: Vec<(bool, bool)> = runs.iter().map(|r| (r.check, r.release)).collect();
    assert_eq!(flags[..4], [(true, false); 4]);
    assert_eq!(flags[4..8], [(false, false); 4]);
    assert_eq!(flags[8..], [(false, true); 4]);
    let values: Vec<f64> = runs.iter().map(|r| f64::from_bits(r.stats[0].cnt.bits)).collect();
    assert_eq!(values, (1..=12).map(|n| n as f64).collect::<Vec<_>>());
    assert!(log.iter().all(|line| !line.contains("nll=true")));
    assert_eq!(log.iter().filter(|line| line.starts_with("prep /b")).count(), 3);
}

#[test]
fn settings_limit_the_iterations() {
    let measured = |asked: usize, allowed: usize| {
        let config = BenchmarkConfig { runs: allowed, ..BenchmarkConfig::default() };
        let b = benchmark(&[], config);
        let (log, _) = play(&b, asked, Mode::Test, &|_| stats(&[("x", 1.0)]));
        log.iter().filter(|line| line.starts_with("timing")).count()
    };
    assert_eq!(measured(5, 3), 3);
    assert_eq!(measured(2, 3), 2);
    assert_eq!(measured(3, 3), 3);
}

#[test]
fn nothing_measured_cannot_be_reported() {
    let b = benchmark(&[], BenchmarkConfig::default());
    let (log, runs) = play(&b, 0, Mode::Normal, &|_| stats(&[("x", 1.0)]));
    assert_eq!(log, ["prep /b", "build Check /tmp/1"]);
    let mismatch = runs.unwrap_err();
    assert_eq!(mismatch.build_kind, BuildKind::Check);
    assert!(matches!(mismatch.state, BenchmarkState::Clean));
    assert!(mismatch.runs.is_empty());
}

#[test]
fn first_state_with_a_missing_stat_is_told() {
    let b = benchmark(&[], BenchmarkConfig::default());
    // The second iteration misses a stat in its incremental builds.
    let (log, runs) = play(&b, 2, Mode::Normal, &|n| {
        if n == 7 || n == 8 {
            stats(&[("x", 1.0)])
        } else {
            stats(&[("x", 1.0), ("y", 2.0)])
        }
    });
    let mismatch = runs.unwrap_err();
    assert!(matches!(mismatch.state, BenchmarkState::IncrementalStart));
    assert_eq!(mismatch.runs.len(), 2);
    assert_eq!(log.last().unwrap(), "measure Check nll=false incr=true /tmp/3");
}

#[test]
fn plain_build_is_asked_for_as_the_settings_say() {
    let config = BenchmarkConfig { cargo_opts: Some("--lib".to_string()), ..BenchmarkConfig::default() };
    let b = benchmark(&[], config);
    let (rustc, cargo) = (path("/r"), path("/c"));
    let state = b.measure(&rustc, &cargo, 1, Mode::Test).unwrap();
    let state = state.advance(Event::Made(path("/tmp/p"))).unwrap();
    match state.action() {
        Action::Build(process, cwd) => {
            assert_eq!(process.cargo_args, ["--lib"]);
            assert_eq!(process.rustc_path.bytes, b"/r");
            assert_eq!(process.cargo_path.bytes, b"/c");
            assert_eq!(text(&cwd), "/tmp/p");
        }
        other => panic!("{:?}", other),
    }
}
