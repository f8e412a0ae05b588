//! Running a benchmark under a profiler: what to do next, and which files to keep.
use crate::benchmark::{Benchmark, Error};
use crate::cargo;
use crate::cargo::{BuildKind, CargoProcess};
use crate::command;
use crate::command::{Command, Output};
use crate::path;
use crate::path::FilePath;
use crate::profiler::Profiler;
use vstd::prelude::*;
use vstd::string::StringExecFns;

verus! {

/// The name of an output file: prefix, identifier and benchmark.
pub open spec fn out_name(prefix: Seq<char>, id: Seq<char>, name: Seq<char>) -> Seq<char> {
    prefix + "-"@ + id + "-"@ + name
}

/// The file with this name in the directory.
pub open spec fn file_in(dir: Seq<u8>, name: Seq<char>) -> Seq<u8> {
    path::joined(dir, vstd::utf8::encode_utf8(name))
}

/// Something to do with files.
#[derive(Debug)]
pub enum FileWork {
    /// Copy the first file to the second.
    Copy(FilePath, FilePath),
    /// Run the command, however it ends, and write what it prints to the file.
    Annotate(Command, FilePath),
    /// Write these bytes to the file.
    Write(Vec<u8>, FilePath),
}

/// Something to do with files.
pub enum FileWorkView {
    Copy(Seq<u8>, Seq<u8>),
    Annotate(command::CommandView, Seq<u8>),
    Write(Seq<u8>, Seq<u8>),
}

impl View for FileWork {
    type V = FileWorkView;

    open spec fn view(&self) -> FileWorkView {
        match self {
            FileWork::Copy(from, to) => FileWorkView::Copy(from@, to@),
            FileWork::Annotate(command, to) => FileWorkView::Annotate(command@, to@),
            FileWork::Write(bytes, to) => FileWorkView::Write(bytes@, to@),
        }
    }
}

impl FileWorkView {
    /// The file that comes into being.
    pub open spec fn target(self) -> Seq<u8> {
        match self {
            FileWorkView::Copy(_, to) => to,
            FileWorkView::Annotate(_, to) => to,
            FileWorkView::Write(_, to) => to,
        }
    }
}

/// The contents of a list of things to do with files.
pub open spec fn work_views(work: Seq<FileWork>) -> Seq<FileWorkView> {
    work.map_values(|w: FileWork| w@)
}

/// The command that turns a tool's data file into something to read.
pub open spec fn annotate_command(program: Seq<char>, file: Seq<u8>) -> command::CommandView {
    command::CommandView::plain(program).with_args(
        seq![command::ArgView::Text("--auto=yes"@), command::ArgView::Os(file)],
    )
}

/// A run under a profiler.
pub struct Profiling<'a> {
    pub benchmark: &'a Benchmark,
    pub profiler: Profiler,
    /// Where the files are kept.
    pub output_dir: &'a FilePath,
    pub rustc_path: &'a FilePath,
    pub cargo_path: &'a FilePath,
    /// What tells the files of this run from those of others.
    pub id: &'a str,
    pub stage: Stage,
}

/// How far a run has come.
#[derive(Debug)]
pub enum Stage {
    /// The benchmark is to be copied.
    Prepare,
    /// It is to be built in this directory, the dependencies too.
    Build(FilePath),
    /// This directory is to be copied.
    Copy(FilePath),
    /// The benchmark is to be built in this directory, under the profiler.
    Run(FilePath),
    /// These files are to be kept, in this order. After that the run is over.
    Keep(Vec<FileWork>),
    /// The profiler keeps no files. There is no going on from here.
    Unexpected,
}

/// How far a run has come.
#[verifier::ext_equal]
pub enum StageView {
    Prepare,
    Build(Seq<u8>),
    Copy(Seq<u8>),
    Run(Seq<u8>),
    Keep(Seq<FileWorkView>),
    Unexpected,
}

impl View for Stage {
    type V = StageView;

    open spec fn view(&self) -> StageView {
        match self {
            Stage::Prepare => StageView::Prepare,
            Stage::Build(dir) => StageView::Build(dir@),
            Stage::Copy(dir) => StageView::Copy(dir@),
            Stage::Run(dir) => StageView::Run(dir@),
            Stage::Keep(work) => StageView::Keep(work_views(work@)),
            Stage::Unexpected => StageView::Unexpected,
        }
    }
}

/// What is to be done next.
#[derive(Debug)]
pub enum Request<'a> {
    /// Make a copy of this directory, for the build that is not profiled.
    MakePrepDir(FilePath),
    /// Make a copy of this directory, for the build that is profiled.
    MakeTimingDir(FilePath),
    /// Build in this directory.
    Build(CargoProcess<'a>, FilePath),
}

/// What is to be done next.
pub enum RequestView {
    MakePrepDir(Seq<u8>),
    MakeTimingDir(Seq<u8>),
    Build(cargo::ProcessView, Seq<u8>),
}

impl<'a> View for Request<'a> {
    type V = RequestView;

    open spec fn view(&self) -> RequestView {
        match self {
            Request::MakePrepDir(base) => RequestView::MakePrepDir(base@),
            Request::MakeTimingDir(base) => RequestView::MakeTimingDir(base@),
            Request::Build(process, cwd) => RequestView::Build(process@, cwd@),
        }
    }
}

/// What came of a request that succeeded.
#[derive(Debug)]
pub enum Reply {
    /// The directory that was made.
    Made(FilePath),
    /// What the build left.
    Built(Output),
}

/// Whether this can come of what is requested in the stage.
pub open spec fn replies(reply: Reply, stage: StageView) -> bool {
    match stage {
        StageView::Prepare => reply is Made,
        StageView::Build(_) => reply is Built,
        StageView::Copy(_) => reply is Made,
        StageView::Run(_) => reply is Built,
        _ => false,
    }
}

impl<'a> Profiling<'a> {
    /// The file with this prefix in the output directory.
    pub open spec fn kept(self, prefix: Seq<char>) -> Seq<u8> {
        file_in(self.output_dir@, out_name(prefix, self.id@, self.benchmark.name@))
    }

    /// What is done with the files of a run in the directory `dir` whose build
    /// left this output. Most tools, by way of the compiler wrapper, leave a data
    /// file in that directory; it is copied under a new name. Two of them have a
    /// program that makes something to read of it. DHAT writes to the standard
    /// error output instead.
    pub open spec fn file_work(self, dir: Seq<u8>, output: Output) -> StageView {
        match self.profiler {
            Profiler::PerfStat => StageView::Unexpected,
            Profiler::PerfRecord => StageView::Keep(
                seq![FileWorkView::Copy(file_in(dir, "perf"@), self.kept("perf"@))],
            ),
            Profiler::Cachegrind => StageView::Keep(
                seq![
                    FileWorkView::Copy(file_in(dir, "cgout"@), self.kept("cgout"@)),
                    FileWorkView::Annotate(
                        annotate_command("cg_annotate"@, self.kept("cgout"@)),
                        self.kept("cgann"@),
                    ),
                ],
            ),
            Profiler::Callgrind => StageView::Keep(
                seq![
                    FileWorkView::Copy(file_in(dir, "clgout"@), self.kept("clgout"@)),
                    FileWorkView::Annotate(
                        annotate_command("callgrind_annotate"@, self.kept("clgout"@)),
                        self.kept("clgann"@),
                    ),
                ],
            ),
            Profiler::DHAT => StageView::Keep(
                seq![FileWorkView::Write(output.stderr@, self.kept("dhat"@))],
            ),
            Profiler::Massif => StageView::Keep(
                seq![FileWorkView::Copy(file_in(dir, "msout"@), self.kept("msout"@))],
            ),
        }
    }

    /// What is requested in the present stage. The build is a full one, not
    /// incremental, of the debug kind.
    pub open spec fn requested(self) -> Option<RequestView> {
        let plain = self.benchmark.process(self.rustc_path@, self.cargo_path@, BuildKind::Debug);
        match self.stage@ {
            StageView::Prepare => Some(RequestView::MakePrepDir(self.benchmark.path@)),
            StageView::Build(dir) => Some(RequestView::Build(plain, dir)),
            StageView::Copy(dir) => Some(RequestView::MakeTimingDir(dir)),
            StageView::Run(dir) => Some(
                RequestView::Build(
                    cargo::ProcessView { profiler: Some(self.profiler), ..plain },
                    dir,
                ),
            ),
            _ => None,
        }
    }

    /// The stage after this reply.
    pub open spec fn next_stage(self, reply: Reply) -> StageView {
        match (self.stage@, reply) {
            (StageView::Prepare, Reply::Made(dir)) => StageView::Build(dir@),
            (StageView::Build(dir), _) => StageView::Copy(dir),
            (StageView::Copy(_), Reply::Made(dir)) => StageView::Run(dir@),
            (StageView::Run(dir), Reply::Built(output)) => self.file_work(dir, output),
            (stage, _) => stage,
        }
    }

    /// The file with this prefix in the output directory.
    fn out_file(&self, prefix: &str) -> (file: FilePath)
        ensures
            file@ == self.kept(prefix@),
    {
        let mut name = prefix.to_string();
        name.append("-");
        name.append(self.id);
        name.append("-");
        name.append(self.benchmark.name.as_str());
        self.output_dir.join_name(name.as_str())
    }

    /// The data file copied, and the program run on the copy.
    fn copy_and_annotate(&self, dir: &FilePath, data: &str, program: &str, report: &str) -> (work:
        Vec<FileWork>)
        ensures
            work_views(work@) == seq![
                FileWorkView::Copy(file_in(dir@, data@), self.kept(data@)),
                FileWorkView::Annotate(
                    annotate_command(program@, self.kept(data@)),
                    self.kept(report@),
                ),
            ],
    {
        let data_file = self.out_file(data);
        let mut cmd = Command::new(program);
        cmd.arg("--auto=yes");
        cmd.arg_path(&data_file);
        assert(cmd@ =~= annotate_command(program@, self.kept(data@)));
        let mut work: Vec<FileWork> = Vec::new();
        work.push(FileWork::Copy(dir.join_name(data), data_file));
        work.push(FileWork::Annotate(cmd, self.out_file(report)));
        assert(work_views(work@) =~= seq![
            FileWorkView::Copy(file_in(dir@, data@), self.kept(data@)),
            FileWorkView::Annotate(
                annotate_command(program@, self.kept(data@)),
                self.kept(report@),
            ),
        ]);
        work
    }

    /// One thing to do with files.
    fn single(work: FileWork) -> (list: Vec<FileWork>)
        ensures
            work_views(list@) == seq![work@],
    {
        let mut list: Vec<FileWork> = Vec::new();
        list.push(work);
        assert(work_views(list@) =~= seq![work@]);
        list
    }

    /// What is done with the files of a run in the directory `dir` whose build
    /// left this output.
    fn keep(&self, dir: &FilePath, output: Output) -> (stage: Stage)
        ensures
            stage@ == self.file_work(dir@, output),
    {
        match self.profiler {
            Profiler::PerfStat => Stage::Unexpected,
            Profiler::PerfRecord => Stage::Keep(
                Self::single(FileWork::Copy(dir.join_name("perf"), self.out_file("perf"))),
            ),
            Profiler::Cachegrind => Stage::Keep(
                self.copy_and_annotate(dir, "cgout", "cg_annotate", "cgann"),
            ),
            Profiler::Callgrind => Stage::Keep(
                self.copy_and_annotate(dir, "clgout", "callgrind_annotate", "clgann"),
            ),
            Profiler::DHAT => Stage::Keep(
                Self::single(FileWork::Write(output.stderr, self.out_file("dhat"))),
            ),
            Profiler::Massif => Stage::Keep(
                Self::single(FileWork::Copy(dir.join_name("msout"), self.out_file("msout"))),
            ),
        }
    }

    /// What is to be done next, nothing where only files are left to be kept or
    /// there is no going on.
    pub fn request(&self) -> (request: Option<Request<'a>>)
        ensures
            request is Some <==> self.requested() is Some,
            request is Some ==> request->0@ == self.requested()->0,
    {
        match &self.stage {
            Stage::Prepare => Some(Request::MakePrepDir(self.benchmark.path.copy())),
            Stage::Build(dir) => Some(
                Request::Build(
                    self.benchmark.mk_cargo_process(
                        self.rustc_path,
                        self.cargo_path,
                        BuildKind::Debug,
                    ),
                    dir.copy(),
                ),
            ),
            Stage::Copy(dir) => Some(Request::MakeTimingDir(dir.copy())),
            Stage::Run(dir) => Some(
                Request::Build(
                    self.benchmark.mk_cargo_process(
                        self.rustc_path,
                        self.cargo_path,
                        BuildKind::Debug,
                    ).profiler(self.profiler),
                    dir.copy(),
                ),
            ),
            _ => None,
        }
    }

    /// Goes on after what came of the request.
    pub fn advance(self, reply: Reply) -> (next: Profiling<'a>)
        requires
            replies(reply, self.stage@),
        ensures
            next.stage@ == self.next_stage(reply),
            next == (Profiling { stage: next.stage, ..self }),
    {
        let stage = match (&self.stage, reply) {
            (Stage::Prepare, Reply::Made(dir)) => Stage::Build(dir),
            (Stage::Build(dir), _) => Stage::Copy(dir.copy()),
            (Stage::Copy(_), Reply::Made(dir)) => Stage::Run(dir),
            (Stage::Run(dir), Reply::Built(output)) => self.keep(dir, output),
            _ => Stage::Unexpected,
        };
        Profiling { stage, ..self }
    }
}

impl Benchmark {
    /// Begins a run of the benchmark under a profiler, unless its settings leave
    /// it out.
    pub fn profile<'a>(
        &'a self,
        profiler: Profiler,
        output_dir: &'a FilePath,
        rustc_path: &'a FilePath,
        cargo_path: &'a FilePath,
        id: &'a str,
    ) -> (result: Result<Profiling<'a>, Error>)
        ensures
            result is Err <==> self.config.disabled,
            result is Ok ==> {
                let run = result->Ok_0;
                &&& run.benchmark == self
                &&& run.profiler == profiler
                &&& run.output_dir == output_dir
                &&& run.rustc_path == rustc_path
                &&& run.cargo_path == cargo_path
                &&& run.id == id
                &&& run.stage == Stage::Prepare
            },
    {
        if self.config.disabled {
            return Err(Error::Disabled);
        }
        Ok(
            Profiling {
                benchmark: self,
                profiler,
                output_dir,
                rustc_path,
                cargo_path,
                id,
                stage: Stage::Prepare,
            },
        )
    }
}

/// Whether a prefix begins with a lower case letter.
pub open spec fn begins_with_letter(prefix: Seq<char>) -> bool {
    prefix.len() > 0 && 'a' <= prefix[0] <= 'z'
}

/// Files that one run keeps under different prefixes are different files.
pub proof fn law_prefixes_keep_files_apart(run: Profiling, a: Seq<char>, b: Seq<char>)
    requires
        begins_with_letter(a),
        begins_with_letter(b),
        a != b,
    ensures
        run.kept(a) != run.kept(b),
{
    let tail = "-"@ + run.id@ + "-"@ + run.benchmark.name@;
    let x = out_name(a, run.id@, run.benchmark.name@);
    let y = out_name(b, run.id@, run.benchmark.name@);
    assert(x =~= a + tail);
    assert(y =~= b + tail);
    if x == y {
        assert(x.len() == a.len() + tail.len());
        assert(y.len() == b.len() + tail.len());
        assert(x.take(a.len() as int) =~= a);
        assert(y.take(b.len() as int) =~= b);
    }
    vstd::utf8::encode_utf8_decode_utf8(x);
    vstd::utf8::encode_utf8_decode_utf8(y);
    lemma_not_absolute(x);
    lemma_not_absolute(y);
    path::law_join_keeps_names_apart(
        run.output_dir@,
        vstd::utf8::encode_utf8(x),
        vstd::utf8::encode_utf8(y),
    );
}

/// A name that begins with a letter is not an absolute path.
proof fn lemma_not_absolute(name: Seq<char>)
    requires
        begins_with_letter(name),
    ensures
        vstd::utf8::encode_utf8(name).len() > 0,
        vstd::utf8::encode_utf8(name)[0] != path::SLASH,
{
    let u = name[0] as u32;
    assert(u <= 0x7f && u != 0x2f ==> (u & 0x7f) as u8 != 0x2f) by (bit_vector);
    assert(vstd::utf8::encode_scalar(u)[0] == vstd::utf8::leading_byte_width_1(u));
}

/// No two of the files that a run keeps are the same file.
pub proof fn law_kept_files_distinct(
    run: Profiling,
    dir: Seq<u8>,
    output: Output,
    work: Seq<FileWorkView>,
    i: int,
    j: int,
)
    requires
        run.file_work(dir, output) == StageView::Keep(work),
        0 <= i < j < work.len(),
    ensures
        work[i].target() != work[j].target(),
{
    reveal_strlit("cgout");
    reveal_strlit("cgann");
    reveal_strlit("clgout");
    reveal_strlit("clgann");
    assert("cgout"@[2] == 'o' && "cgann"@[2] == 'a');
    assert("clgout"@[3] == 'o' && "clgann"@[3] == 'a');
    assert("cgout"@[0] == 'c' && "cgann"@[0] == 'c');
    assert("clgout"@[0] == 'c' && "clgann"@[0] == 'c');
    law_prefixes_keep_files_apart(run, "cgout"@, "cgann"@);
    law_prefixes_keep_files_apart(run, "clgout"@, "clgann"@);
}

/// A run asks for a copy, a plain build in it, a copy of that, and a build under
/// the profiler there; what that build left decides which files are kept.
pub proof fn law_run(
    run: Profiling,
    copied: Profiling,
    built: Profiling,
    copied_again: Profiling,
    ended: Profiling,
    prep: FilePath,
    timing: FilePath,
    plain: Output,
    profiled: Output,
)
    requires
        run.stage == Stage::Prepare,
        copied == (Profiling { stage: copied.stage, ..run }),
        copied.stage@ == run.next_stage(Reply::Made(prep)),
        built == (Profiling { stage: built.stage, ..copied }),
        built.stage@ == copied.next_stage(Reply::Built(plain)),
        copied_again == (Profiling { stage: copied_again.stage, ..built }),
        copied_again.stage@ == built.next_stage(Reply::Made(timing)),
        ended == (Profiling { stage: ended.stage, ..copied_again }),
        ended.stage@ == copied_again.next_stage(Reply::Built(profiled)),
    ensures
        run.requested() == Some(RequestView::MakePrepDir(run.benchmark.path@)),
        copied.requested() == Some(
            RequestView::Build(
                run.benchmark.process(run.rustc_path@, run.cargo_path@, BuildKind::Debug),
                prep@,
            ),
        ),
        built.requested() == Some(RequestView::MakeTimingDir(prep@)),
        copied_again.requested() == Some(
            RequestView::Build(
                cargo::ProcessView {
                    profiler: Some(run.profiler),
                    ..run.benchmark.process(run.rustc_path@, run.cargo_path@, BuildKind::Debug)
                },
                timing@,
            ),
        ),
        ended.requested() is None,
        ended.stage@ == run.file_work(timing@, profiled),
        ended.stage@ is Unexpected <==> run.profiler == Profiler::PerfStat,
{
}

/// Things to do with files, and how far a run has come, are shown as they are.
pub proof fn law_runs_shown(
    from: FilePath,
    to: FilePath,
    bytes: Vec<u8>,
    cmd: Command,
    process: CargoProcess,
)
    ensures
        FileWork::Copy(from, to)@ == FileWorkView::Copy(from.bytes@, to.bytes@),
        FileWork::Write(bytes, to)@ == FileWorkView::Write(bytes@, to.bytes@),
        FileWork::Annotate(cmd, to)@ == FileWorkView::Annotate(cmd@, to.bytes@),
        Stage::Prepare@ is Prepare,
        Stage::Unexpected@ is Unexpected,
        Stage::Build(from)@ == StageView::Build(from.bytes@),
        Stage::Copy(from)@ == StageView::Copy(from.bytes@),
        Stage::Run(from)@ == StageView::Run(from.bytes@),
        Request::MakePrepDir(from)@ == RequestView::MakePrepDir(from.bytes@),
        Request::MakeTimingDir(from)@ == RequestView::MakeTimingDir(from.bytes@),
        Request::Build(process, from)@ == RequestView::Build(process@, from.bytes@),
{
}

/// Lists of things to do with files are shown one by one, none left out and none
/// changed.
pub proof fn law_work_shown(work: Vec<FileWork>, i: int)
    requires
        0 <= i < work@.len(),
    ensures
        Stage::Keep(work)@ matches StageView::Keep(views) && views.len() == work@.len() && views[i]
            == work@[i]@,
{
}

/// A file's name holds the whole prefix, the whole identifier and the whole name of
/// the benchmark, in this order, with a dash between them and nothing besides.
pub proof fn law_name_is_whole(prefix: Seq<char>, id: Seq<char>, name: Seq<char>)
    ensures
        ({
            let whole = out_name(prefix, id, name);
            let n = prefix.len() as int;
            let m = n + 1 + id.len();
            &&& whole.len() == m + 1 + name.len()
            &&& whole.take(n) == prefix
            &&& whole[n] == '-'
            &&& whole.subrange(n + 1, m) == id
            &&& whole[m] == '-'
            &&& whole.skip(m + 1) == name
        }),
{
    reveal_strlit("-");
    let whole = out_name(prefix, id, name);
    let n = prefix.len() as int;
    let m = n + 1 + id.len();
    assert(whole.take(n) =~= prefix);
    assert(whole.subrange(n + 1, m) =~= id);
    assert(whole.skip(m + 1) =~= name);
}

/// A file lies in its directory under its name: first comes the directory, last the
/// name, and at most a slash between them.
pub open spec fn lies_in(file: Seq<u8>, dir: Seq<u8>, name: Seq<char>) -> bool {
    let bytes = vstd::utf8::encode_utf8(name);
    let between = if dir.len() == 0 || dir.last() == path::SLASH {
        Seq::empty()
    } else {
        seq![path::SLASH]
    };
    file == dir + between + bytes
}

/// A file whose name begins with a letter lies in the directory that it is sought in.
pub proof fn law_file_lies_in(dir: Seq<u8>, name: Seq<char>)
    requires
        begins_with_letter(name),
    ensures
        lies_in(file_in(dir, name), dir, name),
{
    lemma_not_absolute(name);
    assert(file_in(dir, name) =~= dir + (if dir.len() == 0 || dir.last() == path::SLASH {
        Seq::empty()
    } else {
        seq![path::SLASH]
    }) + vstd::utf8::encode_utf8(name));
}

/// What a run keeps lies in its output directory, under a name made of the prefix, the
/// run's identifier and the benchmark's name.
pub proof fn law_kept_lies_in(run: Profiling, prefix: Seq<char>)
    requires
        begins_with_letter(prefix),
    ensures
        lies_in(
            run.kept(prefix),
            run.output_dir.bytes@,
            prefix + seq!['-'] + run.id@ + seq!['-'] + run.benchmark.name@,
        ),
{
    let whole = out_name(prefix, run.id@, run.benchmark.name@);
    reveal_strlit("-");
    assert("-"@ =~= seq!['-']);
    assert(whole =~= prefix + seq!['-'] + run.id@ + seq!['-'] + run.benchmark.name@);
    assert(whole[0] == prefix[0]);
    law_file_lies_in(run.output_dir@, whole);
}

/// Runs of one benchmark with different identifiers keep different files under the same
/// prefix, and so do runs with one identifier of benchmarks with different names.
pub proof fn law_runs_keep_files_apart(a: Profiling, b: Profiling, prefix: Seq<char>)
    requires
        begins_with_letter(prefix),
        a.output_dir@ == b.output_dir@,
        a.id@ != b.id@ && a.benchmark.name@ == b.benchmark.name@ || a.id@ == b.id@
            && a.benchmark.name@ != b.benchmark.name@,
    ensures
        a.kept(prefix) != b.kept(prefix),
{
    let x = out_name(prefix, a.id@, a.benchmark.name@);
    let y = out_name(prefix, b.id@, b.benchmark.name@);
    law_name_is_whole(prefix, a.id@, a.benchmark.name@);
    law_name_is_whole(prefix, b.id@, b.benchmark.name@);
    assert(x != y);
    assert(x[0] == prefix[0] && y[0] == prefix[0]);
    vstd::utf8::encode_utf8_decode_utf8(x);
    vstd::utf8::encode_utf8_decode_utf8(y);
    lemma_not_absolute(x);
    lemma_not_absolute(y);
    path::law_join_keeps_names_apart(
        a.output_dir@,
        vstd::utf8::encode_utf8(x),
        vstd::utf8::encode_utf8(y),
    );
}

/// Whether the work begins with copying the file with this name from the directory to
/// the output directory, under the name that tells the run.
pub open spec fn begins_with_copy(
    work: Seq<FileWorkView>,
    run: Profiling,
    dir: Seq<u8>,
    data: Seq<char>,
) -> bool {
    &&& work.len() > 0
    &&& work[0] matches FileWorkView::Copy(from, to) && lies_in(from, dir, data) && lies_in(
        to,
        run.output_dir.bytes@,
        data + seq!['-'] + run.id@ + seq!['-'] + run.benchmark.name@,
    )
}

/// Whether the work goes on with this program on the copy, and ends with that.
pub open spec fn ends_with_report(
    work: Seq<FileWorkView>,
    run: Profiling,
    program: Seq<char>,
    report: Seq<char>,
) -> bool {
    &&& work.len() == 2
    &&& work[1] matches FileWorkView::Annotate(cmd, to) && cmd.program == program && !cmd.clear_env
        && cmd.env.len() == 0 && cmd.cwd is None && cmd.args.len() == 2 && cmd.args[0]
        == command::ArgView::Text("--auto=yes"@) && cmd.args[1] == command::ArgView::Os(
        work[0].target(),
    ) && lies_in(
        to,
        run.output_dir.bytes@,
        report + seq!['-'] + run.id@ + seq!['-'] + run.benchmark.name@,
    )
}

/// What a run keeps is what its tool left: the data file, copied from the directory of
/// the build, and for two of the tools what their program makes of the copy. DHAT's
/// data is what the build wrote to the standard error output, all of it.
pub proof fn law_tool_decides_files(run: Profiling, dir: Seq<u8>, output: Output)
    ensures
        match run.file_work(dir, output) {
            StageView::Unexpected => run.profiler == Profiler::PerfStat,
            StageView::Keep(work) => match run.profiler {
                Profiler::PerfStat => false,
                Profiler::PerfRecord => work.len() == 1 && begins_with_copy(
                    work,
                    run,
                    dir,
                    "perf"@,
                ),
                Profiler::Massif => work.len() == 1 && begins_with_copy(work, run, dir, "msout"@),
                Profiler::Cachegrind => begins_with_copy(work, run, dir, "cgout"@)
                    && ends_with_report(work, run, "cg_annotate"@, "cgann"@),
                Profiler::Callgrind => begins_with_copy(work, run, dir, "clgout"@)
                    && ends_with_report(work, run, "callgrind_annotate"@, "clgann"@),
                Profiler::DHAT => work.len() == 1 && (work[0] matches FileWorkView::Write(bytes, to)
                    && bytes == output.stderr@ && lies_in(
                    to,
                    run.output_dir.bytes@,
                    "dhat"@ + seq!['-'] + run.id@ + seq!['-'] + run.benchmark.name@,
                )),
            },
            _ => false,
        },
{
    reveal_strlit("perf");
    reveal_strlit("msout");
    reveal_strlit("cgout");
    reveal_strlit("cgann");
    reveal_strlit("clgout");
    reveal_strlit("clgann");
    reveal_strlit("dhat");
    assert("perf"@[0] == 'p' && "msout"@[0] == 'm' && "dhat"@[0] == 'd');
    assert("cgout"@[0] == 'c' && "cgann"@[0] == 'c');
    assert("clgout"@[0] == 'c' && "clgann"@[0] == 'c');
    law_file_lies_in(dir, "perf"@);
    law_file_lies_in(dir, "msout"@);
    law_file_lies_in(dir, "cgout"@);
    law_file_lies_in(dir, "clgout"@);
    law_kept_lies_in(run, "perf"@);
    law_kept_lies_in(run, "msout"@);
    law_kept_lies_in(run, "cgout"@);
    law_kept_lies_in(run, "cgann"@);
    law_kept_lies_in(run, "clgout"@);
    law_kept_lies_in(run, "clgann"@);
    law_kept_lies_in(run, "dhat"@);
}

/// What is asked for at each stage of a run: a copy of the benchmark, a plain debug build
/// of it, a copy of what that left, and the same build under the run's tool and under
/// nothing else. The builds are with the compiler and the `cargo` of the run.
pub proof fn law_builds_of_run(run: Profiling)
    ensures
        match run.requested() {
            Some(RequestView::MakePrepDir(base)) => run.stage@ is Prepare && base
                == run.benchmark.path.bytes@,
            Some(RequestView::MakeTimingDir(base)) => run.stage@ == StageView::Copy(base),
            Some(RequestView::Build(process, cwd)) => {
                &&& process.build_kind == BuildKind::Debug
                &&& !process.nll
                &&& !process.incremental
                &&& process.rustc_path == run.rustc_path.bytes@
                &&& process.cargo_path == run.cargo_path.bytes@
                &&& process.profiler is None ==> run.stage@ == StageView::Build(cwd)
                &&& process.profiler is Some ==> run.stage@ == StageView::Run(cwd)
                    && process.profiler == Some(run.profiler)
            },
            None => run.stage@ is Keep || run.stage@ is Unexpected,
        },
{
}

} // verus!
