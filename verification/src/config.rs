//! The settings of a benchmark.
use vstd::prelude::*;

verus! {

/// How often a benchmark is built where its settings do not say.
pub fn default_runs() -> (runs: usize)
    ensures
        runs == 3,
{
    3
}

/// Settings that are on where nothing turns them off.
pub fn default_true() -> (on: bool)
    ensures
        on,
{
    true
}

/// The settings of one benchmark, as its file `perf-config.json` gives them.
#[derive(Debug)]
pub struct BenchmarkConfig {
    /// Arguments for `cargo`, separated by white space.
    pub cargo_opts: Option<String>,
    /// Arguments for `rustc`, separated by white space.
    pub cargo_rustc_opts: Option<String>,
    /// The manifest to build, where it is not `Cargo.toml`.
    pub cargo_toml: Option<String>,
    /// Whether the benchmark is left out.
    pub disabled: bool,
    /// How often the benchmark is built at most.
    pub runs: usize,
    /// Whether it is built with the new borrow checker too.
    pub nll: bool,
}

/// The settings of a benchmark that has no file of settings.
pub open spec fn default_config() -> BenchmarkConfig {
    BenchmarkConfig {
        cargo_opts: None,
        cargo_rustc_opts: None,
        cargo_toml: None,
        disabled: false,
        runs: 3,
        nll: true,
    }
}

impl Default for BenchmarkConfig {
    /// The settings of a benchmark that has no file of settings.
    fn default() -> (config: BenchmarkConfig)
        ensures
            config == default_config(),
    {
        BenchmarkConfig {
            cargo_opts: None,
            cargo_rustc_opts: None,
            cargo_toml: None,
            disabled: false,
            runs: default_runs(),
            nll: default_true(),
        }
    }
}

} // verus!
