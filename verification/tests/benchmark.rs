use collector::benchmark::{config_path, Benchmark, Error};
use collector::cargo::BuildKind;
use collector::command::Arg;
use collector::config::{default_runs, default_true, BenchmarkConfig};
use collector::path::FilePath;

fn path(s: &str) -> FilePath {
    FilePath { bytes: s.as_bytes().to_vec() }
}

#[test]
fn settings_have_defaults() {
    assert_eq!(default_runs(), 3);
    assert!(default_true());
    let config = BenchmarkConfig::default();
    assert!(config.cargo_opts.is_none());
    assert!(config.cargo_rustc_opts.is_none());
    assert!(config.cargo_toml.is_none());
    assert!(!config.disabled);
    assert_eq!(config.runs, 3);
    assert!(config.nll);
}

#[test]
fn benchmark_without_settings_has_the_defaults() {
    let entries = vec![path("1-b.patch"), path("src"), path("0-a.patch"), path("perf-config.json")];
    let benchmark = Benchmark::new("hello".to_string(), path("/b/hello"), entries, None);
    assert_eq!(benchmark.name, "hello");
    assert_eq!(benchmark.path.bytes, b"/b/hello");
    let patches: Vec<&[u8]> = benchmark.patches.iter().map(|p| &p.path.bytes[..]).collect();
    assert_eq!(patches, [&b"/b/hello/0-a.patch"[..], &b"/b/hello/1-b.patch"[..]]);
    assert_eq!(benchmark.config.runs, 3);
    assert!(benchmark.config.nll && !benchmark.config.disabled);
}

#[test]
fn benchmark_keeps_its_settings() {
    let config = BenchmarkConfig { disabled: true, runs: 1, nll: false, ..BenchmarkConfig::default() };
    let benchmark = Benchmark::new("x".to_string(), path("/x"), vec![], Some(config));
    assert!(benchmark.config.disabled && !benchmark.config.nll);
    assert_eq!(benchmark.config.runs, 1);
    assert!(benchmark.patches.is_empty());
}

#[test]
fn settings_lie_in_the_benchmarks_directory() {
    assert_eq!(config_path(&path("/b/hello/")).bytes, b"/b/hello/perf-config.json");
}

#[test]
fn process_is_plain_and_follows_the_settings() {
    let config = BenchmarkConfig {
        cargo_opts: Some(" --features\t\"a b\"  ".to_string()),
        cargo_rustc_opts: Some("-O\n-g".to_string()),
        cargo_toml: Some("sub/Cargo.toml".to_string()),
        ..BenchmarkConfig::default()
    };
    let benchmark = Benchmark::new("x".to_string(), path("/x"), vec![], Some(config));
    let (rustc, cargo) = (path("/r"), path("/c"));
    let process = benchmark.mk_cargo_process(&rustc, &cargo, BuildKind::Opt);
    assert_eq!(process.rustc_path.bytes, b"/r");
    assert_eq!(process.cargo_path.bytes, b"/c");
    assert_eq!(process.build_kind, BuildKind::Opt);
    assert_eq!(process.profiler, None);
    assert!(!process.incremental && !process.nll);
    assert_eq!(process.manifest_path, "sub/Cargo.toml");
    assert_eq!(process.cargo_args, ["--features", "\"a", "b\""]);
    assert_eq!(process.rustc_args, ["-O", "-g"]);
}

#[test]
fn process_without_settings_builds_the_usual_manifest() {
    let benchmark = Benchmark::new("x".to_string(), path("/x"), vec![], None);
    let (rustc, cargo) = (path("/r"), path("/c"));
    let process = benchmark.mk_cargo_process(&rustc, &cargo, BuildKind::Check);
    assert_eq!(process.manifest_path, "Cargo.toml");
    assert!(process.cargo_args.is_empty() && process.rustc_args.is_empty());
}

#[test]
fn temporary_directory_is_a_copy() {
    let benchmark = Benchmark::new("hello".to_string(), path("/x"), vec![], None);
    assert_eq!(benchmark.temp_dir_prefix(), "rustc-perf-hello");
    assert_eq!(benchmark.copying(), "copying hello to tmp dir");
    let command = benchmark.make_temp_dir(&path("/x"), &path("/tmp/y"));
    assert_eq!(command.program, "cp");
    assert!(command.cwd.is_none());
    let words: Vec<String> = command
        .args
        .iter()
        .map(|a| match a {
            Arg::Text(text) => text.clone(),
            Arg::Os(bytes) => String::from_utf8(bytes.clone()).unwrap(),
        })
        .collect();
    assert_eq!(words, ["-r", "-T", "--", "/x", "/tmp/y"]);
}

#[test]
fn reason_for_leaving_a_benchmark_out_is_told() {
    assert_eq!(Error::Disabled.message(), "disabled benchmark");
}
