use collector::cargo::{BuildKind, CargoProcess};
use collector::command::Output;
use collector::path::FilePath;
use collector::perf_stat::{
    process_perf_stat_output, read_line, read_printed, Attempt, DeserializeStatError, Line,
};
use collector::profiler::Profiler;
use collector::stats::Count;
use collector::text::chars_of;

const PRINTED: &str = "task-clock is next\n\
    1234.56;msec;task-clock;1234560000;100.00;0.98;CPUs utilized\n\
    <not supported>;;dTLB-loads;0;100.00;;\n\
      77 ; ; context-switches ; 12 ; 100.00 \n\
    \n";

fn output(stdout: &[u8]) -> Output {
    Output {
        success: true,
        status: "exit status: 0".to_string(),
        stdout: stdout.to_vec(),
        stderr: vec![1, 2, 3],
        shown: "Output { .. }".to_string(),
    }
}

fn parsed(stdout: &str) -> Vec<Option<Count>> {
    read_printed(stdout)
        .readings
        .iter()
        .map(|r| r.cnt.parse::<f64>().ok().map(|x| Count { bits: x.to_bits() }))
        .collect()
}

fn process<'a>(path: &'a FilePath) -> CargoProcess<'a> {
    CargoProcess {
        rustc_path: path,
        cargo_path: path,
        build_kind: BuildKind::Check,
        profiler: Some(Profiler::PerfStat),
        incremental: false,
        nll: false,
        manifest_path: "Cargo.toml".to_string(),
        cargo_args: vec![],
        rustc_args: vec![],
    }
}

#[test]
fn lines_say_one_of_four_things() {
    assert!(matches!(read_line(&chars_of("")), Line::Unhandled));
    assert!(matches!(read_line(&chars_of("1;2;3;100.")), Line::Unhandled));
    assert!(matches!(read_line(&chars_of("<not supported>;;x;0;0.00")), Line::NotSupported));
    match read_line(&chars_of("5;;cycles;7;99.98")) {
        Line::Partial(partial) => {
            assert_eq!(partial.name, "cycles");
            assert_eq!(partial.pct, "99.98");
        }
        other => panic!("{:?}", other),
    }
    match read_line(&chars_of(" 5 ;u; cycles:u ;7; 100.00 ;more")) {
        Line::Measured(reading) => {
            assert_eq!(reading.name, "cycles:u");
            assert_eq!(reading.cnt, "5");
        }
        other => panic!("{:?}", other),
    }
}

#[test]
fn percentage_has_to_begin_with_a_hundred_and_a_dot() {
    assert!(matches!(read_line(&chars_of("5;;c;7;100")), Line::Partial(_)));
    assert!(matches!(read_line(&chars_of("5;;c;7;100.")), Line::Measured(_)));
    assert!(matches!(read_line(&chars_of("5;;c;7;1000.")), Line::Partial(_)));
}

#[test]
fn values_come_out_under_their_names() {
    let counts = parsed(PRINTED);
    let stats = process_perf_stat_output(output(PRINTED.as_bytes()), &counts).unwrap();
    let found: Vec<(&str, f64)> =
        stats.iter().map(|s| (s.name.as_str(), f64::from_bits(s.cnt.bits))).collect();
    assert_eq!(found, [("task-clock", 1234.56), ("context-switches", 77.0)]);
}

#[test]
fn output_without_values_is_handed_back() {
    let stdout = "nothing here\n<not supported>;;x;0;100.00\n";
    match process_perf_stat_output(output(stdout.as_bytes()), &parsed(stdout)) {
        Err(DeserializeStatError::NoOutput(same)) => {
            assert_eq!(same.stdout, stdout.as_bytes());
            assert_eq!(same.stderr, vec![1, 2, 3]);
        }
        other => panic!("{:?}", other),
    }
}

#[test]
fn first_value_that_is_no_number_is_told() {
    let stdout = "1;;a;0;100.\nabc;;b;0;100.\ndef;;c;0;100.\n";
    match process_perf_stat_output(output(stdout.as_bytes()), &parsed(stdout)) {
        Err(error) => {
            assert_eq!(error.message(), "could not parse `abc` as a float");
            assert!(matches!(error, DeserializeStatError::ParseError(cnt) if cnt == "abc"));
        }
        other => panic!("{:?}", other),
    }
}

#[test]
fn lines_behind_a_partial_value_are_not_read() {
    let printed = read_printed("1;;a;0;100.\n2;;b;0;50.\n3;;c;0;100.\n4;;d;0;20.\n");
    assert_eq!(printed.readings.len(), 1);
    assert_eq!(printed.readings[0].name, "a");
    let partial = printed.partial.unwrap();
    assert_eq!((partial.name.as_str(), partial.pct.as_str()), ("b", "50."));
}

#[test]
fn lines_that_say_nothing_may_as_well_not_be_there() {
    let with = read_printed("1;;a;0;100.\n;;\n<not supported>;;z;0;3.\n2;;b;0;100.\n");
    let without = read_printed("1;;a;0;100.\n2;;b;0;100.");
    let names = |p: &collector::perf_stat::Printed| {
        p.readings.iter().map(|r| (r.name.clone(), r.cnt.clone())).collect::<Vec<_>>()
    };
    assert_eq!(names(&with), names(&without));
    assert!(with.partial.is_none() && without.partial.is_none());
}

#[test]
fn build_is_run_again_while_nothing_was_measured() {
    let path = FilePath { bytes: b"/rustc".to_vec() };
    let process = process(&path);
    match process.run_rustc_and_process_perf_stat_output(output(b""), &vec![]) {
        Attempt::Retry(same) => assert_eq!(same.stderr, vec![1, 2, 3]),
        other => panic!("{:?}", other),
    }
    let counts = parsed(PRINTED);
    match process.run_rustc_and_process_perf_stat_output(output(PRINTED.as_bytes()), &counts) {
        Attempt::Stats(stats) => assert_eq!(stats.len(), 2),
        other => panic!("{:?}", other),
    }
}

#[test]
fn some_output_leaves_no_way_on() {
    let path = FilePath { bytes: b"/rustc".to_vec() };
    let process = process(&path);
    assert!(matches!(
        process.run_rustc_and_process_perf_stat_output(output(b"\xff\n"), &vec![]),
        Attempt::NotText
    ));
    let bad = "x;;a;0;100.\n1;;b;0;5.\n";
    match process.run_rustc_and_process_perf_stat_output(output(bad.as_bytes()), &parsed(bad)) {
        Attempt::NotANumber(cnt) => assert_eq!(cnt, "x"),
        other => panic!("{:?}", other),
    }
    let partial = "1;;a;0;100.\n1;;b;0;5.\n";
    match process.run_rustc_and_process_perf_stat_output(output(partial.as_bytes()), &parsed(partial)) {
        Attempt::NotAllTheTime(partial) => assert_eq!(partial.name, "b"),
        other => panic!("{:?}", other),
    }
}

#[test]
fn number_that_does_not_parse_comes_before_a_partial_value() {
    let stdout = "7;;a;1;100.00\nx;;b;1;100.00\n5;;c;1;50.00\n";
    match process_perf_stat_output(output(stdout.as_bytes()), &parsed(stdout)) {
        Err(error) => assert_eq!(error.message(), "could not parse `x` as a float"),
        other => panic!("{:?}", other),
    }
}

#[test]
fn output_without_values_is_shown_in_the_message() {
    let error = DeserializeStatError::NoOutput(output(b""));
    assert_eq!(
        error.message(),
        "could not deserialize empty output to stats, output: Output { .. }"
    );
}
