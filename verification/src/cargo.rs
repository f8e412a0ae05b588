//! The builds that `cargo` is asked for.
use crate::command;
use crate::command::{command_output, touch_all, Arg, Command, Output, Ran};
use crate::path::FilePath;
use crate::profiler::Profiler;
use crate::text;
use vstd::prelude::*;

verus! {

/// How thoroughly a crate is compiled.
#[derive(Clone, Copy, Debug, PartialEq, Eq, Structural)]
pub enum BuildKind {
    Check,
    Debug,
    Opt,
}

impl BuildKind {
    /// The arguments by which `cargo` is asked for this kind.
    pub open spec fn flags(self) -> Seq<command::ArgView> {
        match self {
            BuildKind::Check => seq![
                command::ArgView::Text("--profile"@),
                command::ArgView::Text("check"@),
            ],
            BuildKind::Debug => Seq::empty(),
            BuildKind::Opt => seq![command::ArgView::Text("--release"@)],
        }
    }
}

/// What builds take from the machine that they run on.
#[derive(Debug)]
pub struct Host {
    /// The variable `SHELL`, which some benchmarks' build scripts need.
    pub shell: Option<Vec<u8>>,
    /// The variable `PATH`, by which the compiler finds linkers and the like.
    pub path: Option<Vec<u8>>,
    /// The wrapper that runs in the compiler's place.
    pub fake_rustc: FilePath,
}

/// What builds take from the machine that they run on.
pub struct HostView {
    pub shell: Seq<u8>,
    pub path: Seq<u8>,
    pub fake_rustc: Seq<u8>,
}

/// The value of a variable, empty where it is not set.
pub open spec fn value_or_empty(value: Option<Vec<u8>>) -> Seq<u8> {
    match value {
        Some(bytes) => bytes@,
        None => Seq::empty(),
    }
}

impl View for Host {
    type V = HostView;

    open spec fn view(&self) -> HostView {
        HostView {
            shell: value_or_empty(self.shell),
            path: value_or_empty(self.path),
            fake_rustc: self.fake_rustc@,
        }
    }
}

/// The compiler wrapper that lies beside the programs in `dir`.
pub fn fake_rustc(dir: &FilePath) -> (path: FilePath)
    ensures
        path@ == crate::path::joined(dir@, vstd::utf8::encode_utf8("rustc-fake"@)),
{
    dir.join_name("rustc-fake")
}

/// The value of a variable, empty where it is not set.
fn variable(value: &Option<Vec<u8>>) -> (arg: Arg)
    ensures
        arg@ == command::ArgView::Os(value_or_empty(*value)),
{
    match value {
        Some(bytes) => Arg::Os(crate::path::copy_bytes(bytes)),
        None => {
            let empty: Vec<u8> = Vec::new();
            Arg::Os(empty)
        },
    }
}

/// One build of a benchmark's crate.
#[derive(Debug)]
pub struct CargoProcess<'a> {
    pub rustc_path: &'a FilePath,
    pub cargo_path: &'a FilePath,
    pub build_kind: BuildKind,
    pub profiler: Option<Profiler>,
    pub incremental: bool,
    pub nll: bool,
    pub manifest_path: String,
    pub cargo_args: Vec<String>,
    pub rustc_args: Vec<String>,
}

/// One build of a benchmark's crate.
#[verifier::ext_equal]
pub struct ProcessView {
    pub rustc_path: Seq<u8>,
    pub cargo_path: Seq<u8>,
    pub build_kind: BuildKind,
    pub profiler: Option<Profiler>,
    pub incremental: bool,
    pub nll: bool,
    pub manifest_path: Seq<char>,
    pub cargo_args: Seq<Seq<char>>,
    pub rustc_args: Seq<Seq<char>>,
}

impl<'a> View for CargoProcess<'a> {
    type V = ProcessView;

    open spec fn view(&self) -> ProcessView {
        ProcessView {
            rustc_path: self.rustc_path@,
            cargo_path: self.cargo_path@,
            build_kind: self.build_kind,
            profiler: self.profiler,
            incremental: self.incremental,
            nll: self.nll,
            manifest_path: self.manifest_path@,
            cargo_args: text::strings(self.cargo_args@),
            rustc_args: text::strings(self.rustc_args@),
        }
    }
}

impl ProcessView {
    /// The `cargo` command of this build, up to what the subcommand takes. Not
    /// every subcommand needs all of the variables, but they do no harm.
    pub open spec fn base(
        self,
        cwd: Seq<u8>,
        host: HostView,
        subcommand: Seq<char>,
    ) -> command::CommandView {
        command::CommandView {
            program: "cargo"@,
            clear_env: true,
            env: seq![
                ("SHELL"@, command::ArgView::Os(host.shell)),
                ("PATH"@, command::ArgView::Os(host.path)),
                ("RUSTC"@, command::ArgView::Os(host.fake_rustc)),
                ("RUSTC_REAL"@, command::ArgView::Os(self.rustc_path)),
                ("CARGO"@, command::ArgView::Os(self.cargo_path)),
                (
                    "CARGO_INCREMENTAL"@,
                    command::ArgView::Text(
                        if self.incremental {
                            "1"@
                        } else {
                            "0"@
                        },
                    ),
                ),
            ],
            cwd: Some(cwd),
            args: seq![
                command::ArgView::Text(subcommand),
                command::ArgView::Text("--manifest-path"@),
                command::ArgView::Text(self.manifest_path),
            ],
        }
    }

    /// What `cargo` itself is told: the package, the kind, and the arguments of
    /// the benchmark's settings.
    pub open spec fn cargo_part(self, pkgid: Seq<char>) -> Seq<command::ArgView> {
        seq![command::ArgView::Text("-p"@), command::ArgView::Text(pkgid)] + self.build_kind.flags()
            + command::text_args(self.cargo_args)
    }

    /// What goes on to the compiler of the final crate. The wrapper takes
    /// `--wrap-rustc-with` and the tool's name out again: they tell it to run the
    /// compiler under that tool.
    pub open spec fn rustc_part(self) -> Seq<command::ArgView> {
        (if self.nll {
            seq![command::ArgView::Text("-Zborrowck=mir"@)]
        } else {
            Seq::empty()
        }) + (match self.profiler {
            Some(profiler) => seq![
                command::ArgView::Text("--wrap-rustc-with"@),
                command::ArgView::Text(profiler.title()),
            ] + command::text_args(self.rustc_args),
            None => Seq::empty(),
        })
    }

    /// The command that compiles the crate.
    pub open spec fn rustc(self, cwd: Seq<u8>, host: HostView, pkgid: Seq<char>) ->
        command::CommandView {
        self.base(cwd, host, "rustc"@).with_args(
            self.cargo_part(pkgid) + seq![command::ArgView::Text("--"@)] + self.rustc_part(),
        )
    }

    /// What comes next once the command of this stage has been run: the stages
    /// follow each other while the commands succeed.
    pub open spec fn next(self, cwd: Seq<u8>, host: HostView, stage: StageView, ran: Ran) ->
        StepView {
        match stage {
            StageView::Pkgid => if !command::succeeded(ran) {
                StepView::NoPkgid(command::failure(ran))
            } else if !vstd::utf8::valid_utf8(ran->Ended_0.stdout@) {
                StepView::PkgidNotText
            } else {
                StepView::Run(
                    StageView::Touch(
                        text::trimmed(vstd::utf8::decode_utf8(ran->Ended_0.stdout@)),
                    ),
                    command::touch_command(cwd),
                )
            },
            StageView::Touch(pkgid) => if !command::succeeded(ran) {
                StepView::Failed(command::failure(ran))
            } else {
                StepView::Run(StageView::Rustc, self.rustc(cwd, host, pkgid))
            },
            StageView::Rustc => if !command::succeeded(ran) {
                StepView::Failed(command::failure(ran))
            } else {
                StepView::Finished(ran->Ended_0)
            },
        }
    }
}

/// How far a build has come: which of its commands is to be run.
#[derive(Debug)]
pub enum Stage {
    /// The one that asks for the package's identifier.
    Pkgid,
    /// The one that marks the sources as changed. The identifier is known.
    Touch(String),
    /// The one that compiles.
    Rustc,
}

/// How far a build has come.
pub enum StageView {
    Pkgid,
    Touch(Seq<char>),
    Rustc,
}

impl View for Stage {
    type V = StageView;

    open spec fn view(&self) -> StageView {
        match self {
            Stage::Pkgid => StageView::Pkgid,
            Stage::Touch(pkgid) => StageView::Touch(pkgid@),
            Stage::Rustc => StageView::Rustc,
        }
    }
}

/// What comes next in a build.
#[derive(Debug)]
pub enum Step {
    /// This command is to be run.
    Run(Stage, Command),
    /// The crate is compiled; this is what the compiling command left.
    Finished(Output),
    /// The build failed, for this reason.
    Failed(String),
    /// The package's identifier could not be had, for this reason. There is no
    /// going on from here.
    NoPkgid(String),
    /// The package's identifier is not text. There is no going on from here.
    PkgidNotText,
}

/// What comes next in a build.
pub enum StepView {
    Run(StageView, command::CommandView),
    Finished(Output),
    Failed(Seq<char>),
    NoPkgid(Seq<char>),
    PkgidNotText,
}

impl View for Step {
    type V = StepView;

    open spec fn view(&self) -> StepView {
        match self {
            Step::Run(stage, command) => StepView::Run(stage@, command@),
            Step::Finished(output) => StepView::Finished(*output),
            Step::Failed(reason) => StepView::Failed(reason@),
            Step::NoPkgid(reason) => StepView::NoPkgid(reason@),
            Step::PkgidNotText => StepView::PkgidNotText,
        }
    }
}

impl<'a> CargoProcess<'a> {
    /// The same build under a tool.
    pub fn profiler(self, profiler: Profiler) -> (process: Self)
        ensures
            process@ == (ProcessView { profiler: Some(profiler), ..self@ }),
    {
        CargoProcess { profiler: Some(profiler), ..self }
    }

    /// The same build, incremental or not.
    pub fn incremental(self, incremental: bool) -> (process: Self)
        ensures
            process@ == (ProcessView { incremental, ..self@ }),
    {
        CargoProcess { incremental, ..self }
    }

    /// The same build, with the new borrow checker or without it.
    pub fn nll(self, nll: bool) -> (process: Self)
        ensures
            process@ == (ProcessView { nll, ..self@ }),
    {
        CargoProcess { nll, ..self }
    }

    /// The `cargo` command of this build, up to what the subcommand takes.
    pub fn base_command(&self, cwd: &FilePath, host: &Host, subcommand: &str) -> (command: Command)
        ensures
            command@ == self@.base(cwd@, host@, subcommand@),
    {
        let mut cmd = Command::new("cargo");
        cmd.env_clear();
        cmd.env("SHELL", variable(&host.shell));
        cmd.env("PATH", variable(&host.path));
        cmd.env_path("RUSTC", &host.fake_rustc);
        cmd.env_path("RUSTC_REAL", self.rustc_path);
        cmd.env_path("CARGO", self.cargo_path);
        let incremental = if self.incremental { "1" } else { "0" };
        cmd.env("CARGO_INCREMENTAL", Arg::Text(incremental.to_string()));
        cmd.current_dir(cwd);
        cmd.arg(subcommand);
        cmd.arg("--manifest-path");
        cmd.arg(self.manifest_path.as_str());
        assert(cmd@ =~= self@.base(cwd@, host@, subcommand@));
        cmd
    }

    /// The package's identifier, from what `cargo pkgid` printed.
    pub fn get_pkgid(&self, stdout: &Vec<u8>) -> (pkgid: String)
        requires
            vstd::utf8::valid_utf8(stdout@),
        ensures
            pkgid@ == text::trimmed(vstd::utf8::decode_utf8(stdout@)),
    {
        let printed = text::utf8_text(stdout).unwrap();
        text::text_of(&text::trim(&text::chars_of(printed.as_str())))
    }

    /// The command that compiles the crate.
    pub fn rustc_command(&self, cwd: &FilePath, host: &Host, pkgid: &str) -> (command: Command)
        ensures
            command@ == self@.rustc(cwd@, host@, pkgid@),
    {
        let mut cmd = self.base_command(cwd, host, "rustc");
        cmd.arg("-p");
        cmd.arg(pkgid);
        match self.build_kind {
            BuildKind::Check => {
                cmd.arg("--profile");
                cmd.arg("check");
            },
            BuildKind::Debug => {},
            BuildKind::Opt => {
                cmd.arg("--release");
            },
        }
        cmd.args(&self.cargo_args);
        cmd.arg("--");
        if self.nll {
            cmd.arg("-Zborrowck=mir");
        }
        if let Some(profiler) = self.profiler {
            cmd.arg("--wrap-rustc-with");
            cmd.arg(profiler.name());
            cmd.args(&self.rustc_args);
        }
        assert(cmd@ =~= self@.rustc(cwd@, host@, pkgid@));
        cmd
    }

    /// Begins the build in the directory `cwd`.
    pub fn run_rustc(&self, cwd: &FilePath, host: &Host) -> (step: Step)
        ensures
            step@ == StepView::Run(StageView::Pkgid, self@.base(cwd@, host@, "pkgid"@)),
    {
        Step::Run(Stage::Pkgid, self.base_command(cwd, host, "pkgid"))
    }

    /// Goes on with the build once the command of this stage has been run.
    pub fn run_rustc_next(&self, cwd: &FilePath, host: &Host, stage: Stage, ran: Ran) -> (step:
        Step)
        ensures
            step@ == self@.next(cwd@, host@, stage@, ran),
    {
        match stage {
            Stage::Pkgid => match command_output(ran) {
                Err(reason) => Step::NoPkgid(reason),
                Ok(output) => {
                    if text::utf8_text(&output.stdout).is_none() {
                        return Step::PkgidNotText;
                    }
                    let pkgid = self.get_pkgid(&output.stdout);
                    Step::Run(Stage::Touch(pkgid), touch_all(cwd))
                },
            },
            Stage::Touch(pkgid) => match command_output(ran) {
                Err(reason) => Step::Failed(reason),
                Ok(_) => Step::Run(Stage::Rustc, self.rustc_command(cwd, host, pkgid.as_str())),
            },
            Stage::Rustc => match command_output(ran) {
                Err(reason) => Step::Failed(reason),
                Ok(output) => Step::Finished(output),
            },
        }
    }
}

/// What a tool or the new borrow checker adds to a build stands behind `--`, where
/// it reaches the compiler of the final crate only. All before that is the same
/// as for the plain build.
pub proof fn law_wrapping_stands_behind(
    process: ProcessView,
    cwd: Seq<u8>,
    host: HostView,
    pkgid: Seq<char>,
)
    ensures
        ({
            let plain = ProcessView { profiler: None, nll: false, ..process };
            let ours = process.rustc(cwd, host, pkgid);
            let theirs = plain.rustc(cwd, host, pkgid);
            let n = theirs.args.len() as int;
            &&& theirs.args.last() == command::ArgView::Text("--"@)
            &&& ours.args.take(n) == theirs.args
            &&& ours.args.skip(n) == process.rustc_part()
            &&& ours.program == theirs.program
            &&& ours.env == theirs.env
            &&& ours.cwd == theirs.cwd
        }),
{
    let plain = ProcessView { profiler: None, nll: false, ..process };
    let ours = process.rustc(cwd, host, pkgid);
    let theirs = plain.rustc(cwd, host, pkgid);
    assert(plain.rustc_part() =~= Seq::empty());
    assert(plain.cargo_part(pkgid) =~= process.cargo_part(pkgid));
    assert(ours.args =~= theirs.args + process.rustc_part());
}

/// A build finishes if and only if its three commands succeed one after the other
/// and the first one prints text: asking for the package's identifier, marking
/// the sources as changed, and compiling that package.
pub proof fn law_build_runs_three_commands(
    process: ProcessView,
    cwd: Seq<u8>,
    host: HostView,
    asked: Ran,
    touched: Ran,
    compiled: Ran,
)
    ensures
        ({
            let first = process.next(cwd, host, StageView::Pkgid, asked);
            let pkgid = text::trimmed(vstd::utf8::decode_utf8(asked->Ended_0.stdout@));
            let second = process.next(cwd, host, StageView::Touch(pkgid), touched);
            let third = process.next(cwd, host, StageView::Rustc, compiled);
            &&& first is Run <==> command::succeeded(asked) && vstd::utf8::valid_utf8(
                asked->Ended_0.stdout@,
            )
            &&& first is Run ==> first == StepView::Run(
                StageView::Touch(pkgid),
                command::touch_command(cwd),
            )
            &&& second is Run <==> command::succeeded(touched)
            &&& second is Run ==> second == StepView::Run(
                StageView::Rustc,
                process.rustc(cwd, host, pkgid),
            )
            &&& third is Finished <==> command::succeeded(compiled)
            &&& third is Finished ==> third == StepView::Finished(compiled->Ended_0)
            &&& !(first is Finished) && !(second is Finished)
        }),
{
}

/// A build and the machine that it runs on are shown part by part. A variable that is
/// not set counts as empty.
pub proof fn law_builds_shown(process: CargoProcess, host: Host, value: Vec<u8>)
    ensures
        process@.rustc_path == process.rustc_path.bytes@,
        process@.cargo_path == process.cargo_path.bytes@,
        process@.build_kind == process.build_kind,
        process@.profiler == process.profiler,
        process@.incremental == process.incremental,
        process@.nll == process.nll,
        process@.manifest_path == process.manifest_path@,
        process@.cargo_args == text::strings(process.cargo_args@),
        process@.rustc_args == text::strings(process.rustc_args@),
        host@.shell == value_or_empty(host.shell),
        host@.path == value_or_empty(host.path),
        host@.fake_rustc == host.fake_rustc.bytes@,
        value_or_empty(Some(value)) == value@,
        value_or_empty(None).len() == 0,
{
}

/// How far a build has come, and what comes next in it, is shown as it is.
pub proof fn law_steps_shown(stage: Stage, cmd: Command, output: Output, told: String)
    ensures
        Stage::Pkgid@ is Pkgid,
        Stage::Touch(told)@ == StageView::Touch(told@),
        Stage::Rustc@ is Rustc,
        Step::Run(stage, cmd)@ == StepView::Run(stage@, cmd@),
        Step::Finished(output)@ == StepView::Finished(output),
        Step::Failed(told)@ == StepView::Failed(told@),
        Step::NoPkgid(told)@ == StepView::NoPkgid(told@),
        Step::PkgidNotText@ is PkgidNotText,
{
}

/// A command of `cargo` starts from an empty environment and gets six variables, none
/// of them twice: two from the machine, the compiler wrapper, the compiler that it is
/// to run, `cargo` itself, and whether the build is incremental. It runs in the
/// directory that is named, and on the manifest of the build.
pub proof fn law_environment(
    process: ProcessView,
    cwd: Seq<u8>,
    host: HostView,
    subcommand: Seq<char>,
)
    ensures
        ({
            let made = process.base(cwd, host, subcommand);
            &&& made.clear_env
            &&& made.program == "cargo"@
            &&& made.cwd == Some(cwd)
            &&& made.env.len() == 6
            &&& made.env.contains(("SHELL"@, command::ArgView::Os(host.shell)))
            &&& made.env.contains(("PATH"@, command::ArgView::Os(host.path)))
            &&& made.env.contains(("RUSTC"@, command::ArgView::Os(host.fake_rustc)))
            &&& made.env.contains(("RUSTC_REAL"@, command::ArgView::Os(process.rustc_path)))
            &&& made.env.contains(("CARGO"@, command::ArgView::Os(process.cargo_path)))
            &&& process.incremental ==> made.env.contains(
                ("CARGO_INCREMENTAL"@, command::ArgView::Text("1"@)),
            )
            &&& !process.incremental ==> made.env.contains(
                ("CARGO_INCREMENTAL"@, command::ArgView::Text("0"@)),
            )
            &&& made.args.len() == 3
            &&& made.args[0] == command::ArgView::Text(subcommand)
            &&& made.args[1] == command::ArgView::Text("--manifest-path"@)
            &&& made.args[2] == command::ArgView::Text(process.manifest_path)
        }),
{
    let env = process.base(cwd, host, subcommand).env;
    assert(env.contains(env[0]) && env.contains(env[1]) && env.contains(env[2]));
    assert(env.contains(env[3]) && env.contains(env[4]) && env.contains(env[5]));
}

/// A debug build without options, without the new borrow checker and not under a tool
/// is asked for by its package alone, and nothing goes on to the compiler.
pub proof fn law_bare_build(process: ProcessView, cwd: Seq<u8>, host: HostView, pkgid: Seq<char>)
    requires
        process.build_kind == BuildKind::Debug,
        process.cargo_args.len() == 0,
        !process.nll,
        process.profiler is None,
    ensures
        ({
            let base = process.base(cwd, host, "rustc"@);
            let made = process.rustc(cwd, host, pkgid);
            let n = base.args.len() as int;
            &&& made == (command::CommandView { args: made.args, ..base })
            &&& base.args.is_prefix_of(made.args)
            &&& made.args.len() == n + 3
            &&& made.args[n] == command::ArgView::Text("-p"@)
            &&& made.args[n + 1] == command::ArgView::Text(pkgid)
            &&& made.args[n + 2] == command::ArgView::Text("--"@)
        }),
{
    let base = process.base(cwd, host, "rustc"@);
    let made = process.rustc(cwd, host, pkgid);
    assert(process.rustc_part() =~= Seq::empty());
    assert(base.args =~= made.args.subrange(0, base.args.len() as int));
}

/// A kind of build other than the debug kind adds its own arguments right behind the
/// package, and changes nothing else.
pub proof fn law_kind_is_asked_for(
    process: ProcessView,
    cwd: Seq<u8>,
    host: HostView,
    pkgid: Seq<char>,
)
    ensures
        ({
            let debug = ProcessView { build_kind: BuildKind::Debug, ..process };
            let ours = process.rustc(cwd, host, pkgid);
            let theirs = debug.rustc(cwd, host, pkgid);
            let n = (process.base(cwd, host, "rustc"@).args.len() + 2) as int;
            let before = theirs.args.take(n);
            let behind = theirs.args.skip(n);
            &&& n <= theirs.args.len()
            &&& ours == (command::CommandView { args: ours.args, ..theirs })
            &&& process.build_kind == BuildKind::Check ==> ours.args == before + seq![
                command::ArgView::Text("--profile"@),
                command::ArgView::Text("check"@),
            ] + behind
            &&& process.build_kind == BuildKind::Opt ==> ours.args == before.push(
                command::ArgView::Text("--release"@),
            ) + behind
        }),
{
    let debug = ProcessView { build_kind: BuildKind::Debug, ..process };
    let ours = process.rustc(cwd, host, pkgid);
    let theirs = debug.rustc(cwd, host, pkgid);
    let n = (process.base(cwd, host, "rustc"@).args.len() + 2) as int;
    let before = theirs.args.take(n);
    let behind = theirs.args.skip(n);
    assert(ours =~= command::CommandView { args: ours.args, ..theirs });
    match process.build_kind {
        BuildKind::Check => {
            assert(ours.args =~= before + seq![
                command::ArgView::Text("--profile"@),
                command::ArgView::Text("check"@),
            ] + behind);
        },
        BuildKind::Debug => {},
        BuildKind::Opt => {
            assert(ours.args =~= before.push(command::ArgView::Text("--release"@)) + behind);
        },
    }
}

/// The options for `cargo` stand right before `--`, all of them and in their order, and
/// change nothing else.
pub proof fn law_cargo_options_stand_before(
    process: ProcessView,
    cwd: Seq<u8>,
    host: HostView,
    pkgid: Seq<char>,
)
    ensures
        ({
            let without = ProcessView { cargo_args: Seq::empty(), ..process };
            let bare = ProcessView { profiler: None, nll: false, ..without };
            let ours = process.rustc(cwd, host, pkgid);
            let theirs = without.rustc(cwd, host, pkgid);
            let n = bare.rustc(cwd, host, pkgid).args.len() - 1;
            &&& 0 <= n < theirs.args.len()
            &&& theirs.args[n] == command::ArgView::Text("--"@)
            &&& ours == (command::CommandView { args: ours.args, ..theirs })
            &&& ours.args == theirs.args.take(n) + command::text_args(process.cargo_args)
                + theirs.args.skip(n)
        }),
{
    let without = ProcessView { cargo_args: Seq::empty(), ..process };
    let bare = ProcessView { profiler: None, nll: false, ..without };
    let ours = process.rustc(cwd, host, pkgid);
    let theirs = without.rustc(cwd, host, pkgid);
    law_wrapping_stands_behind(without, cwd, host, pkgid);
    let n = bare.rustc(cwd, host, pkgid).args.len() - 1;
    assert(bare.rustc(cwd, host, pkgid).args[n] == theirs.args.take(n + 1)[n]);
    assert(ours =~= command::CommandView { args: ours.args, ..theirs });
    assert(ours.args =~= theirs.args.take(n) + command::text_args(process.cargo_args)
        + theirs.args.skip(n));
}

/// The new borrow checker is asked for right behind `--` where the build is to have it,
/// whatever tool it runs under, and that changes nothing else. Where the build is not to
/// have it, nothing but the benchmark's own options can ask for it.
pub proof fn law_borrow_checker_is_asked_for(
    process: ProcessView,
    cwd: Seq<u8>,
    host: HostView,
    pkgid: Seq<char>,
)
    ensures
        ({
            let flag = command::ArgView::Text("-Zborrowck=mir"@);
            let without = ProcessView { nll: false, ..process };
            let bare = ProcessView { profiler: None, ..without };
            let ours = process.rustc(cwd, host, pkgid);
            let theirs = without.rustc(cwd, host, pkgid);
            let n = bare.rustc(cwd, host, pkgid).args.len() as int;
            &&& 0 < n <= theirs.args.len()
            &&& theirs.args[n - 1] == command::ArgView::Text("--"@)
            &&& ours == (command::CommandView { args: ours.args, ..theirs })
            &&& process.nll ==> ours.args == theirs.args.take(n).push(flag) + theirs.args.skip(n)
            &&& !process.rustc_args.contains("-Zborrowck=mir"@) ==> (ours.args.skip(n).contains(
                flag,
            ) <==> process.nll)
        }),
{
    let flag = command::ArgView::Text("-Zborrowck=mir"@);
    let without = ProcessView { nll: false, ..process };
    let bare = ProcessView { profiler: None, ..without };
    let ours = process.rustc(cwd, host, pkgid);
    let theirs = without.rustc(cwd, host, pkgid);
    let n = bare.rustc(cwd, host, pkgid).args.len() as int;
    law_wrapping_stands_behind(without, cwd, host, pkgid);
    law_wrapping_stands_behind(process, cwd, host, pkgid);
    assert(bare.rustc(cwd, host, pkgid).args[n - 1] == theirs.args.take(n)[n - 1]);
    assert(ours =~= command::CommandView { args: ours.args, ..theirs });
    if process.nll {
        assert(ours.args =~= theirs.args.take(n).push(flag) + theirs.args.skip(n));
        assert(ours.args.skip(n)[0] == flag);
    } else if !process.rustc_args.contains("-Zborrowck=mir"@) {
        let part = process.rustc_part();
        assert(ours.args.skip(n) == part);
        if part.contains(flag) {
            let i = part.index_of(flag);
            let tool = process.profiler->0;
            reveal_strlit("-Zborrowck=mir");
            reveal_strlit("--wrap-rustc-with");
            reveal_strlit("perf-stat");
            reveal_strlit("perf-record");
            reveal_strlit("cachegrind");
            reveal_strlit("callgrind");
            reveal_strlit("dhat");
            reveal_strlit("massif");
            assert("-Zborrowck=mir"@.len() == 14);
            assert("--wrap-rustc-with"@.len() == 17);
            assert(tool.title().len() < 14);
            assert(i >= 2);
            assert(command::text_args(process.rustc_args)[i - 2] == flag);
            assert(process.rustc_args[i - 2] == "-Zborrowck=mir"@);
        }
    }
}

/// To run under a tool adds to what the same build passes otherwise, behind all of it:
/// the tool, and then the options for the compiler, all of them and in their order.
/// Without a tool those are not passed.
pub proof fn law_tool_is_added(
    process: ProcessView,
    tool: Profiler,
    cwd: Seq<u8>,
    host: HostView,
    pkgid: Seq<char>,
    options: Seq<Seq<char>>,
)
    requires
        process.profiler is None,
    ensures
        ({
            let under = ProcessView { profiler: Some(tool), ..process };
            let ours = under.rustc(cwd, host, pkgid);
            let theirs = process.rustc(cwd, host, pkgid);
            &&& ours == (command::CommandView { args: ours.args, ..theirs })
            &&& ours.args == theirs.args + seq![
                command::ArgView::Text("--wrap-rustc-with"@),
                command::ArgView::Text(tool.title()),
            ] + command::text_args(process.rustc_args)
            &&& theirs == (ProcessView { rustc_args: options, ..process }).rustc(cwd, host, pkgid)
        }),
{
    let under = ProcessView { profiler: Some(tool), ..process };
    let ours = under.rustc(cwd, host, pkgid);
    let theirs = process.rustc(cwd, host, pkgid);
    assert(ours =~= command::CommandView { args: ours.args, ..theirs });
    assert(ours.args =~= theirs.args + seq![
        command::ArgView::Text("--wrap-rustc-with"@),
        command::ArgView::Text(tool.title()),
    ] + command::text_args(process.rustc_args));
    assert(theirs =~= (ProcessView { rustc_args: options, ..process }).rustc(cwd, host, pkgid));
}

/// A build ends with the first of its commands that does not succeed, and with the
/// complaint about that one. What does not print a text as the package's identifier
/// leaves no way on.
pub proof fn law_build_ends_at_failure(
    process: ProcessView,
    cwd: Seq<u8>,
    host: HostView,
    pkgid: Seq<char>,
    ran: Ran,
)
    ensures
        !command::succeeded(ran) ==> {
            &&& process.next(cwd, host, StageView::Pkgid, ran) == StepView::NoPkgid(
                command::failure(ran),
            )
            &&& process.next(cwd, host, StageView::Touch(pkgid), ran) == StepView::Failed(
                command::failure(ran),
            )
            &&& process.next(cwd, host, StageView::Rustc, ran) == StepView::Failed(
                command::failure(ran),
            )
        },
        command::succeeded(ran) && !vstd::utf8::valid_utf8(ran->Ended_0.stdout@) ==> process.next(
            cwd,
            host,
            StageView::Pkgid,
            ran,
        ) is PkgidNotText,
{
}

} // verus!
