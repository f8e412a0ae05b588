use collector::cargo::BuildKind;
use collector::stats::{group_stats, least_of, process_stats, stats_present, BenchmarkState, Count, Stat};

fn count(x: f64) -> Count {
    Count { bits: x.to_bits() }
}

fn stat(name: &str, x: f64) -> Stat {
    Stat { name: name.to_string(), cnt: count(x) }
}

fn number(c: Count) -> f64 {
    f64::from_bits(c.bits)
}

#[test]
fn lesser_value_is_that_of_floating_point() {
    let samples = [
        0.0, -0.0, 1.0, -1.0, 1.5, 1e300, -1e300, 5e-324, -5e-324, f64::INFINITY, f64::NEG_INFINITY,
        f64::MAX, f64::MIN, f64::NAN, -f64::NAN, 123456789.0,
    ];
    for a in samples {
        for b in samples {
            let found = number(count(a).min(count(b)));
            let expected = f64::min(a, b);
            assert!(found == expected || (found.is_nan() && expected.is_nan()), "{} {}", a, b);
        }
    }
}

#[test]
fn first_of_two_zeros_stays() {
    assert_eq!(count(0.0).min(count(-0.0)), count(0.0));
    assert_eq!(count(-0.0).min(count(0.0)), count(-0.0));
}

#[test]
fn least_of_no_numbers_is_infinity() {
    assert_eq!(least_of(&vec![]), count(f64::INFINITY));
    assert_eq!(least_of(&vec![count(f64::NAN)]), count(f64::INFINITY));
    assert_eq!(least_of(&vec![count(3.0), count(f64::NAN), count(2.5)]), count(2.5));
}

#[test]
fn report_holds_the_least_value_of_each_stat() {
    let runs = vec![
        vec![stat("cycles", 300.0), stat("time", 2.0)],
        vec![stat("time", 1.5), stat("cycles", 310.0)],
        vec![stat("cycles", 290.5), stat("time", 9.0)],
    ];
    assert!(stats_present(&runs));
    let run = process_stats(BuildKind::Check, BenchmarkState::Clean, runs);
    let found: Vec<(&str, f64)> = run.stats.iter().map(|s| (s.name.as_str(), number(s.cnt))).collect();
    assert_eq!(found, [("cycles", 290.5), ("time", 1.5)]);
    assert!(run.check && !run.release);
    assert!(matches!(run.state, BenchmarkState::Clean));
}

#[test]
fn report_tells_the_kind_of_build() {
    for (kind, check, release) in [
        (BuildKind::Check, true, false),
        (BuildKind::Debug, false, false),
        (BuildKind::Opt, false, true),
    ] {
        let run = process_stats(kind, BenchmarkState::Nll, vec![vec![stat("x", 1.0)]]);
        assert_eq!((run.check, run.release), (check, release));
        assert!(matches!(run.state, BenchmarkState::Nll));
    }
}

#[test]
fn stats_have_to_be_present_in_all_measurements() {
    assert!(!stats_present(&vec![]));
    assert!(!stats_present(&vec![vec![], vec![]]));
    assert!(!stats_present(&vec![vec![stat("a", 1.0), stat("b", 1.0)], vec![stat("a", 1.0)]]));
    assert!(stats_present(&vec![vec![stat("a", 1.0)], vec![stat("a", 2.0)]]));
    // Equally many values under every name are not enough.
    assert!(!stats_present(&vec![vec![stat("a", 1.0), stat("b", 1.0)], vec![]]));
    assert!(!stats_present(&vec![vec![stat("a", 1.0)], vec![stat("b", 2.0)]]));
    // Nor is it enough that every name occurs everywhere.
    assert!(!stats_present(&vec![vec![stat("a", 1.0), stat("b", 1.0), stat("a", 2.0)]]));
}

#[test]
fn report_names_each_stat_once() {
    let runs = vec![vec![stat("a", 4.0), stat("a", 3.0)]];
    assert!(stats_present(&runs));
    let run = process_stats(BuildKind::Opt, BenchmarkState::IncrementalStart, runs);
    assert_eq!(run.stats.len(), 1);
    assert_eq!(number(run.stats[0].cnt), 3.0);
}

#[test]
fn order_of_measurements_is_without_effect() {
    let a = vec![
        vec![stat("x", 3.0), stat("y", 7.0)],
        vec![stat("x", 2.0), stat("y", 8.0)],
        vec![stat("x", 5.0), stat("y", 6.5)],
    ];
    let b = vec![
        vec![stat("y", 6.5), stat("x", 5.0)],
        vec![stat("x", 3.0), stat("y", 7.0)],
        vec![stat("y", 8.0), stat("x", 2.0)],
    ];
    assert!(stats_present(&a) && stats_present(&b));
    let sorted = |runs| {
        let run = process_stats(BuildKind::Debug, BenchmarkState::Clean, runs);
        let mut found: Vec<(String, u64)> =
            run.stats.into_iter().map(|s| (s.name, s.cnt.bits)).collect();
        found.sort();
        found
    };
    assert_eq!(sorted(a), sorted(b));
}

#[test]
fn values_are_grouped_by_name() {
    let runs = vec![vec![stat("x", 3.0), stat("y", 7.0)], vec![stat("y", 8.0)]];
    let groups = group_stats(&runs);
    let found: Vec<(&str, Vec<f64>)> = groups
        .iter()
        .map(|g| (g.name.as_str(), g.counts.iter().map(|c| number(*c)).collect()))
        .collect();
    assert_eq!(found, [("x", vec![3.0]), ("y", vec![7.0, 8.0])]);
}
