//! A benchmark: a crate to build, its settings, and its patches.
use crate::cargo;
use crate::cargo::{BuildKind, CargoProcess};
use crate::command;
use crate::command::Command;
use crate::config;
use crate::config::BenchmarkConfig;
use crate::patch;
use crate::patch::Patch;
use crate::path;
use crate::path::FilePath;
use crate::text;
use vstd::prelude::*;
use vstd::string::StringExecFns;

verus! {

/// A crate to build, with its settings and its patches.
#[derive(Debug)]
pub struct Benchmark {
    pub name: String,
    /// The directory that the crate lies in.
    pub path: FilePath,
    /// The patches, in the order in which they are applied.
    pub patches: Vec<Patch>,
    pub config: BenchmarkConfig,
}

/// Why a benchmark is not run.
#[derive(Clone, Copy, Debug, PartialEq, Eq, Structural)]
pub enum Error {
    /// Its settings leave it out.
    Disabled,
}

impl Error {
    /// The reason in words.
    pub fn message(&self) -> (message: &'static str)
        ensures
            message@ == "disabled benchmark"@,
    {
        "disabled benchmark"
    }
}

/// The words of a setting, none where it is not set.
pub open spec fn option_words(setting: Option<String>) -> Seq<Seq<char>> {
    match setting {
        Some(words) => text::words_of(words@),
        None => Seq::empty(),
    }
}

/// The words of a setting, none where it is not set.
fn setting_words(setting: &Option<String>) -> (words: Vec<String>)
    ensures
        text::strings(words@) == option_words(*setting),
{
    match setting {
        Some(words) => text::split_whitespace(words.as_str()),
        None => {
            let none: Vec<String> = Vec::new();
            assert(text::strings(none@) =~= Seq::empty());
            none
        },
    }
}

/// The file of settings of the benchmark in this directory.
pub fn config_path(dir: &FilePath) -> (file: FilePath)
    ensures
        file@ == path::joined(dir@, vstd::utf8::encode_utf8("perf-config.json"@)),
{
    dir.join_name("perf-config.json")
}

impl Benchmark {
    /// The plain build of this benchmark with the given compiler and `cargo`.
    pub open spec fn process(
        self,
        rustc_path: Seq<u8>,
        cargo_path: Seq<u8>,
        build_kind: BuildKind,
    ) -> cargo::ProcessView {
        cargo::ProcessView {
            rustc_path,
            cargo_path,
            build_kind,
            profiler: None,
            incremental: false,
            nll: false,
            manifest_path: match self.config.cargo_toml {
                Some(manifest) => manifest@,
                None => "Cargo.toml"@,
            },
            cargo_args: option_words(self.config.cargo_opts),
            rustc_args: option_words(self.config.cargo_rustc_opts),
        }
    }

    /// The command that copies the directory `base` into the directory `dir`.
    pub open spec fn copy_command(base: Seq<u8>, dir: Seq<u8>) -> command::CommandView {
        command::CommandView::plain("cp"@).with_args(
            seq![
                command::ArgView::Text("-r"@),
                command::ArgView::Text("-T"@),
                command::ArgView::Text("--"@),
                command::ArgView::Os(base),
                command::ArgView::Os(dir),
            ],
        )
    }

    /// The benchmark in the directory `path`, whose entries have the given names
    /// and whose file of settings, where there is one, holds these settings.
    pub fn new(
        name: String,
        path: FilePath,
        entries: Vec<FilePath>,
        config: Option<BenchmarkConfig>,
    ) -> (benchmark: Benchmark)
        ensures
            benchmark.name == name,
            benchmark.path == path,
            patch::patch_paths(benchmark.patches@) == patch::files_in(
                path@,
                patch::patch_names(patch::paths(entries@)),
            ),
            benchmark.config == (match config {
                Some(config) => config,
                None => config::default_config(),
            }),
    {
        let patches = patch::patches_in(&path, entries);
        let config = match config {
            Some(config) => config,
            None => BenchmarkConfig::default(),
        };
        Benchmark { name, path, patches, config }
    }

    /// What the name of a temporary directory for this benchmark begins with.
    pub fn temp_dir_prefix(&self) -> (prefix: String)
        ensures
            prefix@ == "rustc-perf-"@ + self.name@,
    {
        let mut prefix = "rustc-perf-".to_string();
        prefix.append(self.name.as_str());
        prefix
    }

    /// The command that makes the directory `dir` a copy of `base`.
    pub fn make_temp_dir(&self, base: &FilePath, dir: &FilePath) -> (command: Command)
        ensures
            command@ == Self::copy_command(base@, dir@),
    {
        let mut cmd = Command::new("cp");
        cmd.arg("-r");
        cmd.arg("-T");
        cmd.arg("--");
        cmd.arg_path(base);
        cmd.arg_path(dir);
        assert(cmd@ =~= Self::copy_command(base@, dir@));
        cmd
    }

    /// What is being done, for whoever is told that the copying failed.
    pub fn copying(&self) -> (doing: String)
        ensures
            doing@ == "copying "@ + self.name@ + " to tmp dir"@,
    {
        let mut doing = "copying ".to_string();
        doing.append(self.name.as_str());
        doing.append(" to tmp dir");
        doing
    }

    /// The plain build of this benchmark with the given compiler and `cargo`.
    pub fn mk_cargo_process<'a>(
        &self,
        rustc_path: &'a FilePath,
        cargo_path: &'a FilePath,
        build_kind: BuildKind,
    ) -> (process: CargoProcess<'a>)
        ensures
            process@ == self.process(rustc_path@, cargo_path@, build_kind),
    {
        let manifest_path = match &self.config.cargo_toml {
            Some(manifest) => manifest.clone(),
            None => "Cargo.toml".to_string(),
        };
        let process = CargoProcess {
            rustc_path,
            cargo_path,
            build_kind,
            profiler: None,
            incremental: false,
            nll: false,
            manifest_path,
            cargo_args: setting_words(&self.config.cargo_opts),
            rustc_args: setting_words(&self.config.cargo_rustc_opts),
        };
        assert(process@ =~= self.process(rustc_path@, cargo_path@, build_kind));
        process
    }
}

/// A plain build is of the kind asked for, with the compiler and the `cargo` asked
/// for, and nothing but that kind depends on the kind. It is neither incremental nor
/// with the new borrow checker nor under a tool.
pub proof fn law_plain_process(
    benchmark: Benchmark,
    rustc_path: Seq<u8>,
    cargo_path: Seq<u8>,
    kind: BuildKind,
    other: BuildKind,
)
    ensures
        ({
            let plain = benchmark.process(rustc_path, cargo_path, kind);
            &&& plain.build_kind == kind
            &&& plain.rustc_path == rustc_path
            &&& plain.cargo_path == cargo_path
            &&& !plain.nll
            &&& !plain.incremental
            &&& plain.profiler is None
            &&& plain == (cargo::ProcessView {
                build_kind: kind,
                ..benchmark.process(rustc_path, cargo_path, other)
            })
        }),
{
}

/// Of the settings, each has its own effect on a build and no other: the manifest,
/// where one is set, is the one that is built, and the words of the options are
/// handed on one by one.
pub proof fn law_settings(
    benchmark: Benchmark,
    rustc_path: Seq<u8>,
    cargo_path: Seq<u8>,
    kind: BuildKind,
)
    ensures
        ({
            let plain = benchmark.process(rustc_path, cargo_path, kind);
            let config = benchmark.config;
            &&& config.cargo_toml matches Some(manifest) ==> plain.manifest_path == manifest@
            &&& config.cargo_toml is None ==> plain.manifest_path == "Cargo.toml"@
            &&& config.cargo_opts matches Some(options) ==> plain.cargo_args == text::words_of(
                options@,
            )
            &&& config.cargo_opts is None ==> plain.cargo_args.len() == 0
            &&& config.cargo_rustc_opts matches Some(options) ==> plain.rustc_args
                == text::words_of(options@)
            &&& config.cargo_rustc_opts is None ==> plain.rustc_args.len() == 0
        }),
{
}

/// A directory is copied whole into the other one, the same way whatever they are
/// called: they stand last, behind what ends the options.
pub proof fn law_copy(base: Seq<u8>, dir: Seq<u8>, other_base: Seq<u8>, other_dir: Seq<u8>)
    ensures
        ({
            let copy = Benchmark::copy_command(base, dir);
            let other = Benchmark::copy_command(other_base, other_dir);
            let n = copy.args.len();
            &&& n == 5
            &&& copy.args[n - 1] == command::ArgView::Os(dir)
            &&& copy.args[n - 2] == command::ArgView::Os(base)
            &&& copy.args[n - 3] == command::ArgView::Text("--"@)
            &&& copy.args.contains(command::ArgView::Text("-r"@))
            &&& copy.args.contains(command::ArgView::Text("-T"@))
            &&& copy.program == "cp"@
            &&& !copy.clear_env
            &&& copy.env.len() == 0
            &&& copy.cwd is None
            &&& copy.args.take(n - 2) == other.args.take(n - 2)
        }),
{
    let copy = Benchmark::copy_command(base, dir);
    let other = Benchmark::copy_command(other_base, other_dir);
    assert(copy.args[0] == command::ArgView::Text("-r"@));
    assert(copy.args[1] == command::ArgView::Text("-T"@));
    assert(copy.args.take(3) =~= other.args.take(3));
}

} // verus!
