//! Measuring a benchmark: what to do next, and what comes of it.
use crate::benchmark::{Benchmark, Error};
use crate::cargo;
use crate::cargo::{BuildKind, CargoProcess};
use crate::group;
use crate::patch;
use crate::patch::Patch;
use crate::path::FilePath;
use crate::profiler::Profiler;
use crate::schedule;
use crate::schedule::{Mode, Series, Task};
use crate::stats;
use crate::stats::{process_stats, stats_present, BenchmarkState, Run, Stat};
use vstd::prelude::*;

verus! {

/// All that is reported of a benchmark.
#[derive(Debug)]
pub struct CollectedBenchmark {
    pub name: String,
    pub runs: Vec<Run>,
}

/// The measurements made after a patch.
#[derive(Debug)]
pub struct PatchedResults {
    pub patch: Patch,
    pub results: Vec<Vec<Stat>>,
}

/// The measurements made for one kind of build so far.
#[derive(Debug)]
pub struct Results {
    pub clean: Vec<Vec<Stat>>,
    pub nll: Vec<Vec<Stat>>,
    pub incremental_start: Vec<Vec<Stat>>,
    pub incremental_clean: Vec<Vec<Stat>>,
    pub patched: Vec<PatchedResults>,
}

/// The measurements made for one kind of build so far.
#[verifier::ext_equal]
pub struct ResultsView {
    pub clean: Seq<Seq<stats::StatView>>,
    pub nll: Seq<Seq<stats::StatView>>,
    pub incremental_start: Seq<Seq<stats::StatView>>,
    pub incremental_clean: Seq<Seq<stats::StatView>>,
    pub patched: Seq<(Seq<u8>, Seq<Seq<stats::StatView>>)>,
}

/// The contents of the measurements made after patches.
pub open spec fn patched_views(v: Seq<PatchedResults>) -> Seq<
    (Seq<u8>, Seq<Seq<stats::StatView>>),
> {
    v.map_values(|p: PatchedResults| (p.patch@, stats::run_stats(p.results@)))
}

impl View for Results {
    type V = ResultsView;

    open spec fn view(&self) -> ResultsView {
        ResultsView {
            clean: stats::run_stats(self.clean@),
            nll: stats::run_stats(self.nll@),
            incremental_start: stats::run_stats(self.incremental_start@),
            incremental_clean: stats::run_stats(self.incremental_clean@),
            patched: patched_views(self.patched@),
        }
    }
}

impl ResultsView {
    /// No measurements.
    pub open spec fn none() -> ResultsView {
        ResultsView {
            clean: Seq::empty(),
            nll: Seq::empty(),
            incremental_start: Seq::empty(),
            incremental_clean: Seq::empty(),
            patched: Seq::empty(),
        }
    }

    /// The measurements with one more. Those after a patch are kept by patch.
    pub open spec fn with(
        self,
        patches: Seq<Seq<u8>>,
        series: Series,
        found: Seq<stats::StatView>,
    ) -> ResultsView {
        match series {
            Series::Clean => ResultsView { clean: self.clean.push(found), ..self },
            Series::Nll => ResultsView { nll: self.nll.push(found), ..self },
            Series::IncrementalStart => ResultsView {
                incremental_start: self.incremental_start.push(found),
                ..self
            },
            Series::IncrementalClean => ResultsView {
                incremental_clean: self.incremental_clean.push(found),
                ..self
            },
            Series::Patched(i) => ResultsView {
                patched: group::inserted(self.patched, patches[i as int], found),
                ..self
            },
        }
    }

    /// The measurements with the state that each was made in, in the order in
    /// which they are reported.
    pub open spec fn states(self, nll: bool) -> Seq<
        (stats::StateView, Seq<Seq<stats::StatView>>),
    > {
        seq![(stats::StateView::Clean, self.clean)] + (if nll {
            seq![(stats::StateView::Nll, self.nll)]
        } else {
            Seq::empty()
        }) + seq![
            (stats::StateView::IncrementalStart, self.incremental_start),
            (stats::StateView::IncrementalClean, self.incremental_clean),
        ] + self.patched.map_values(
            |p: (Seq<u8>, Seq<Seq<stats::StatView>>)|
                (stats::StateView::IncrementalPatched(p.0), p.1),
        )
    }
}

impl Results {
    /// No measurements.
    fn new() -> (results: Results)
        ensures
            results@ == ResultsView::none(),
    {
        let results = Results {
            clean: Vec::new(),
            nll: Vec::new(),
            incremental_start: Vec::new(),
            incremental_clean: Vec::new(),
            patched: Vec::new(),
        };
        assert(results@ =~= ResultsView::none());
        results
    }

    /// Adds a measurement.
    fn record(&mut self, patches: &Vec<Patch>, series: Series, found: Vec<Stat>)
        requires
            series matches Series::Patched(i) ==> i < patches@.len(),
        ensures
            final(self)@ == old(self)@.with(
                patch::patch_paths(patches@),
                series,
                stats::stat_views(found@),
            ),
    {
        match series {
            Series::Clean => {
                self.clean.push(found);
            },
            Series::Nll => {
                self.nll.push(found);
            },
            Series::IncrementalStart => {
                self.incremental_start.push(found);
            },
            Series::IncrementalClean => {
                self.incremental_clean.push(found);
            },
            Series::Patched(i) => {
                record_patched(&mut self.patched, &patches[i], found);
                assert(patch::patch_paths(patches@)[i as int] == patches@[i as int]@);
            },
        }
        assert(self@ =~= old(self)@.with(
            patch::patch_paths(patches@),
            series,
            stats::stat_views(found@),
        ));
    }

    /// The measurements with the state that each was made in, in the order in
    /// which they are reported.
    fn into_states(self, nll: bool) -> (states: Vec<Reportable>)
        ensures
            reportable_views(states@) == self@.states(nll),
    {
        let mut states: Vec<Reportable> = Vec::new();
        states.push(Reportable { state: BenchmarkState::Clean, runs: self.clean });
        if nll {
            states.push(Reportable { state: BenchmarkState::Nll, runs: self.nll });
        }
        states.push(
            Reportable { state: BenchmarkState::IncrementalStart, runs: self.incremental_start },
        );
        states.push(
            Reportable { state: BenchmarkState::IncrementalClean, runs: self.incremental_clean },
        );
        let ghost fixed = reportable_views(states@);
        let ghost after = self@.states(nll).skip(fixed.len() as int);
        assert(self@.states(nll) =~= fixed + after);
        let mut patched = self.patched;
        let ghost all = patched@;
        let total: usize = patched.len();
        let mut i: usize = 0;
        while i < total
            invariant
                i <= total,
                i + patched.len() == all.len() == total,
                patched@ == all.skip(i as int),
                after.len() == all.len(),
                forall|j: int|
                    0 <= j < all.len() ==> #[trigger] after[j] == (
                        stats::StateView::IncrementalPatched(all[j].patch@),
                        stats::run_stats(all[j].results@),
                    ),
                reportable_views(states@) == fixed + after.take(i as int),
            decreases total - i,
        {
            let ghost before = reportable_views(states@);
            let first = patched.remove(0);
            assert(first == all[i as int]);
            states.push(
                Reportable {
                    state: BenchmarkState::IncrementalPatched(first.patch),
                    runs: first.results,
                },
            );
            proof {
                assert(reportable_views(states@) =~= before.push(after[i as int]));
                assert(after.take(i + 1) =~= after.take(i as int).push(after[i as int]));
                assert(patched@ =~= all.skip(i + 1));
                assert(before.push(after[i as int]) =~= fixed + after.take(i + 1));
            }
            i += 1;
        }
        assert(after.take(i as int) =~= after);
        states
    }
}

/// Adds a measurement to those made after the same patch.
fn record_patched(patched: &mut Vec<PatchedResults>, patch: &Patch, found: Vec<Stat>)
    ensures
        patched_views(final(patched)@) == group::inserted(
            patched_views(old(patched)@),
            patch@,
            stats::stat_views(found@),
        ),
{
    let ghost before = patched_views(patched@);
    let mut i: usize = 0;
    while i < patched.len() && !patched[i].patch.same(patch)
        invariant
            i <= patched.len(),
            before == patched_views(patched@),
            forall|j: int| 0 <= j < i ==> (#[trigger] before[j]).0 != patch@,
        decreases patched.len() - i,
    {
        i += 1;
    }
    if i < patched.len() {
        proof {
            assert(before[i as int].0 == patch@);
            assert(group::is_group_of(before, patch@, i as int));
            assert forall|j: int| group::is_group_of(before, patch@, j) implies j == i by {
                if j > i {
                    assert(before[i as int].0 != patch@);
                }
            }
        }
        let ghost kept = patched@[i as int].results@;
        patched[i].results.push(found);
        proof {
            assert(stats::run_stats(patched@[i as int].results@) =~= stats::run_stats(kept).push(
                stats::stat_views(found@),
            ));
            assert(patched_views(patched@) =~= before.update(
                i as int,
                (patch@, before[i as int].1.push(stats::stat_views(found@))),
            ));
        }
    } else {
        let mut results: Vec<Vec<Stat>> = Vec::new();
        results.push(found);
        assert(stats::run_stats(results@) =~= seq![stats::stat_views(found@)]);
        patched.push(PatchedResults { patch: patch.copy(), results });
        assert(patched_views(patched@) =~= before.push((patch@, seq![stats::stat_views(found@)])));
    }
}

/// The measurements made in one state.
#[derive(Debug)]
pub struct Reportable {
    pub state: BenchmarkState,
    pub runs: Vec<Vec<Stat>>,
}

/// The contents of measurements in several states.
pub open spec fn reportable_views(v: Seq<Reportable>) -> Seq<
    (stats::StateView, Seq<Seq<stats::StatView>>),
> {
    v.map_values(|r: Reportable| (r.state@, stats::run_stats(r.runs@)))
}

/// Whether all stats are present in all measurements of every state.
pub open spec fn all_reportable(states: Seq<(stats::StateView, Seq<Seq<stats::StatView>>)>) -> bool {
    forall|i: int| 0 <= i < states.len() ==> stats::all_present((#[trigger] states[i]).1)
}

/// What is reported of these measurements.
pub open spec fn reports(
    kind: BuildKind,
    states: Seq<(stats::StateView, Seq<Seq<stats::StatView>>)>,
) -> Seq<stats::RunView> {
    states.map_values(
        |s: (stats::StateView, Seq<Seq<stats::StatView>>)| stats::reported(kind, s.0, s.1),
    )
}

/// Measurements that cannot be reported: some stat is not present in all of them.
#[derive(Debug)]
pub struct Mismatch {
    pub build_kind: BuildKind,
    pub state: BenchmarkState,
    pub runs: Vec<Vec<Stat>>,
}

impl Mismatch {
    /// Whether this tells of the first of these states that cannot be reported.
    pub open spec fn tells_of(
        self,
        kind: BuildKind,
        states: Seq<(stats::StateView, Seq<Seq<stats::StatView>>)>,
    ) -> bool {
        &&& self.build_kind == kind
        &&& exists|i: int|
            {
                &&& 0 <= i < states.len()
                &&& #[trigger] states[i] == (self.state@, stats::run_stats(self.runs@))
                &&& !stats::all_present(states[i].1)
                &&& forall|j: int| 0 <= j < i ==> stats::all_present((#[trigger] states[j]).1)
            }
    }
}

/// Reports the measurements of every state.
fn report(kind: BuildKind, states: Vec<Reportable>) -> (result: Result<Vec<Run>, Mismatch>)
    ensures
        result is Ok <==> all_reportable(reportable_views(states@)),
        result is Ok ==> stats::run_views(result->Ok_0@) == reports(
            kind,
            reportable_views(states@),
        ),
        result is Err ==> result->Err_0.tells_of(kind, reportable_views(states@)),
{
    let ghost all = states@;
    let ghost views = reportable_views(all);
    let ghost expected = reports(kind, views);
    let mut left = states;
    let mut runs: Vec<Run> = Vec::new();
    let total: usize = left.len();
    let mut i: usize = 0;
    while i < total
        invariant
            i <= total,
            i + left.len() == all.len() == total,
            left@ == all.skip(i as int),
            all == states@,
            views == reportable_views(all),
            expected == reports(kind, views),
            forall|j: int| 0 <= j < i ==> stats::all_present((#[trigger] views[j]).1),
            stats::run_views(runs@) == expected.take(i as int),
        decreases total - i,
    {
        let ghost before = stats::run_views(runs@);
        let first = left.remove(0);
        assert(first == all[i as int]);
        assert(views[i as int] == (first.state@, stats::run_stats(first.runs@)));
        if !stats_present(&first.runs) {
            return Err(Mismatch { build_kind: kind, state: first.state, runs: first.runs });
        }
        let run = process_stats(kind, first.state, first.runs);
        assert(expected[i as int] == run@);
        runs.push(run);
        proof {
            assert(stats::run_views(runs@) =~= before.push(run@));
            assert(expected.take(i + 1) =~= expected.take(i as int).push(run@));
            assert(left@ =~= all.skip(i + 1));
        }
        i += 1;
    }
    assert(expected.take(i as int) =~= expected);
    Ok(runs)
}

/// What is to be done next.
#[derive(Debug)]
pub enum Action<'a> {
    /// Make a copy of this directory, for the builds that are not measured. The
    /// directories made before are no longer needed.
    MakePrepDir(FilePath),
    /// Make a copy of this directory, for the builds that are measured. The one
    /// made for that before is no longer needed.
    MakeTimingDir(FilePath),
    /// Build in this directory.
    Build(CargoProcess<'a>, FilePath),
    /// Build in this directory, and measure.
    Measure(CargoProcess<'a>, FilePath),
    /// Apply the patch in this directory.
    ApplyPatch(Patch, FilePath),
    /// Nothing is left to do.
    Finish,
}

/// What is to be done next.
pub enum ActionView {
    MakePrepDir(Seq<u8>),
    MakeTimingDir(Seq<u8>),
    Build(cargo::ProcessView, Seq<u8>),
    Measure(cargo::ProcessView, Seq<u8>),
    ApplyPatch(Seq<u8>, Seq<u8>),
    Finish,
}

impl<'a> View for Action<'a> {
    type V = ActionView;

    open spec fn view(&self) -> ActionView {
        match self {
            Action::MakePrepDir(base) => ActionView::MakePrepDir(base@),
            Action::MakeTimingDir(base) => ActionView::MakeTimingDir(base@),
            Action::Build(process, cwd) => ActionView::Build(process@, cwd@),
            Action::Measure(process, cwd) => ActionView::Measure(process@, cwd@),
            Action::ApplyPatch(patch, dir) => ActionView::ApplyPatch(patch@, dir@),
            Action::Finish => ActionView::Finish,
        }
    }
}

/// What came of an action that succeeded.
#[derive(Debug)]
pub enum Event {
    /// The directory that was made.
    Made(FilePath),
    /// The build is done.
    Built,
    /// The patch is applied.
    Applied,
    /// What was measured.
    Measured(Vec<Stat>),
}

/// What came of an action that succeeded.
pub enum EventView {
    Made(Seq<u8>),
    Built,
    Applied,
    Measured(Seq<stats::StatView>),
}

impl View for Event {
    type V = EventView;

    open spec fn view(&self) -> EventView {
        match self {
            Event::Made(dir) => EventView::Made(dir@),
            Event::Built => EventView::Built,
            Event::Applied => EventView::Applied,
            Event::Measured(found) => EventView::Measured(stats::stat_views(found@)),
        }
    }
}

/// Whether this can come of the task.
pub open spec fn answers(event: EventView, task: Task) -> bool {
    match task {
        Task::Prepare => event is Made,
        Task::Build => event is Built,
        Task::Copy => event is Made,
        Task::ApplyPatch(_) => event is Applied,
        Task::Measure(_) => event is Measured,
    }
}

/// How far the measuring has come.
#[verifier::ext_equal]
pub struct MeasurementView {
    pub benchmark: Benchmark,
    pub rustc_path: Seq<u8>,
    pub cargo_path: Seq<u8>,
    /// What is left to do, in order, and for which kind of build.
    pub todo: Seq<(BuildKind, Task)>,
    pub prep_dir: Seq<u8>,
    pub timing_dir: Seq<u8>,
    /// What was measured for the present kind of build.
    pub results: ResultsView,
    /// What is reported of the kinds of build that are done.
    pub runs: Seq<stats::RunView>,
}

/// The build that is measured in this state.
pub open spec fn measured_process(plain: cargo::ProcessView, series: Series) -> cargo::ProcessView {
    let measured = cargo::ProcessView { profiler: Some(Profiler::PerfStat), ..plain };
    match series {
        Series::Clean => measured,
        Series::Nll => cargo::ProcessView { nll: true, ..measured },
        _ => cargo::ProcessView { incremental: true, ..measured },
    }
}

impl MeasurementView {
    /// What is to be done next.
    pub open spec fn action(self) -> ActionView {
        if self.todo.len() == 0 {
            ActionView::Finish
        } else {
            let kind = self.todo[0].0;
            let plain = self.benchmark.process(self.rustc_path, self.cargo_path, kind);
            match self.todo[0].1 {
                Task::Prepare => ActionView::MakePrepDir(self.benchmark.path@),
                Task::Build => ActionView::Build(plain, self.prep_dir),
                Task::Copy => ActionView::MakeTimingDir(self.prep_dir),
                Task::ApplyPatch(i) => ActionView::ApplyPatch(
                    self.benchmark.patches@[i as int]@,
                    self.timing_dir,
                ),
                Task::Measure(series) => ActionView::Measure(
                    measured_process(plain, series),
                    self.timing_dir,
                ),
            }
        }
    }

    /// The state in which the first task is done and what came of it is noted.
    pub open spec fn noted(self, event: EventView) -> MeasurementView {
        let rest = MeasurementView { todo: self.todo.drop_first(), ..self };
        match (self.todo[0].1, event) {
            (Task::Prepare, EventView::Made(dir)) => MeasurementView { prep_dir: dir, ..rest },
            (Task::Copy, EventView::Made(dir)) => MeasurementView { timing_dir: dir, ..rest },
            (Task::Measure(series), EventView::Measured(found)) => MeasurementView {
                results: self.results.with(
                    patch::patch_paths(self.benchmark.patches@),
                    series,
                    found,
                ),
                ..rest
            },
            _ => rest,
        }
    }

    /// What was measured for the kind of build whose last task this event answers.
    pub open spec fn block_states(self, event: EventView) -> Seq<
        (stats::StateView, Seq<Seq<stats::StatView>>),
    > {
        self.noted(event).results.states(self.benchmark.config.nll)
    }

    /// The state after this event: where it answers the last task for a kind of
    /// build, what was measured for that kind is reported.
    pub open spec fn next(self, event: EventView) -> MeasurementView {
        let noted = self.noted(event);
        if schedule::ends_block(self.todo) {
            MeasurementView {
                results: ResultsView::none(),
                runs: self.runs + reports(self.todo[0].0, self.block_states(event)),
                ..noted
            }
        } else {
            noted
        }
    }
}

/// Where in the tasks for one kind of build the measuring is.
#[derive(Clone, Copy, Debug, PartialEq, Eq, Structural)]
enum Place {
    Prepare,
    Build,
    /// In the iteration after `done` others, at its task `at`.
    Iteration { done: usize, at: usize },
}

/// The measuring of a benchmark.
#[derive(Debug)]
pub struct Measurement<'a> {
    benchmark: &'a Benchmark,
    rustc_path: &'a FilePath,
    cargo_path: &'a FilePath,
    iterations: usize,
    kinds: Vec<BuildKind>,
    tasks: Vec<Task>,
    kind: usize,
    place: Place,
    prep_dir: FilePath,
    timing_dir: FilePath,
    results: Results,
    runs: Vec<Run>,
}

impl<'a> View for Measurement<'a> {
    type V = MeasurementView;

    closed spec fn view(&self) -> MeasurementView {
        MeasurementView {
            benchmark: *self.benchmark,
            rustc_path: self.rustc_path@,
            cargo_path: self.cargo_path@,
            todo: self.todo(),
            prep_dir: self.prep_dir@,
            timing_dir: self.timing_dir@,
            results: self.results@,
            runs: stats::run_views(self.runs@),
        }
    }
}

impl<'a> Measurement<'a> {
    /// What is left to do for the present kind of build.
    spec fn block_left(self) -> Seq<Task> {
        match self.place {
            Place::Prepare => seq![Task::Prepare, Task::Build] + schedule::repeated(
                self.tasks@,
                self.iterations as nat,
            ),
            Place::Build => seq![Task::Build] + schedule::repeated(
                self.tasks@,
                self.iterations as nat,
            ),
            Place::Iteration { done, at } => self.tasks@.skip(at as int) + schedule::repeated(
                self.tasks@,
                (self.iterations - done - 1) as nat,
            ),
        }
    }

    /// What is left to do.
    spec fn todo(self) -> Seq<(BuildKind, Task)> {
        if self.kind >= self.kinds@.len() {
            Seq::empty()
        } else {
            schedule::tagged(self.kinds@[self.kind as int], self.block_left())
                + schedule::schedule(
                self.kinds@.skip(self.kind + 1),
                seq![Task::Prepare, Task::Build] + schedule::repeated(
                    self.tasks@,
                    self.iterations as nat,
                ),
            )
        }
    }

    /// Whether the parts fit together.
    pub closed spec fn wf(self) -> bool {
        &&& self.tasks@.len() > 0
        &&& forall|i: int|
            0 <= i < self.tasks@.len() ==> schedule::inner(
                #[trigger] self.tasks@[i],
                self.benchmark.patches@.len(),
            )
        &&& self.kind <= self.kinds@.len()
        &&& self.kind == self.kinds@.len() ==> self.place == Place::Prepare
        &&& self.place matches Place::Iteration { done, at } ==> done < self.iterations && at
            < self.tasks@.len()
    }
}

impl Benchmark {
    /// Begins to measure the benchmark, unless its settings leave it out: every
    /// kind of build that the mode asks for, `iterations` times or as often as
    /// the settings allow.
    pub fn measure<'a>(
        &'a self,
        rustc_path: &'a FilePath,
        cargo_path: &'a FilePath,
        iterations: usize,
        mode: Mode,
    ) -> (result: Result<Measurement<'a>, Error>)
        ensures
            result is Err <==> self.config.disabled,
            result is Ok ==> result->Ok_0.wf() && result->Ok_0@ == started(
                *self,
                rustc_path@,
                cargo_path@,
                iterations as nat,
                mode,
            ),
    {
        if self.config.disabled {
            return Err(Error::Disabled);
        }
        let iterations: usize = if iterations < self.config.runs {
            iterations
        } else {
            self.config.runs
        };
        let tasks = schedule::plan_iteration(self.config.nll, self.patches.len());
        let empty: Vec<u8> = Vec::new();
        let also_empty: Vec<u8> = Vec::new();
        let measurement = Measurement {
            benchmark: self,
            rustc_path,
            cargo_path,
            iterations,
            kinds: mode.build_kinds(),
            tasks,
            kind: 0,
            place: Place::Prepare,
            prep_dir: FilePath { bytes: empty },
            timing_dir: FilePath { bytes: also_empty },
            results: Results::new(),
            runs: Vec::new(),
        };
        proof {
            assert(measurement.kinds@.drop_first() =~= measurement.kinds@.skip(1));
            assert(measurement.runs@.map_values(|r: Run| r@) =~= Seq::empty());
        }
        Ok(measurement)
    }
}

/// How often a benchmark is built: as often as asked for, or as its settings
/// allow.
pub open spec fn rounds(benchmark: Benchmark, iterations: nat) -> nat {
    if iterations < benchmark.config.runs {
        iterations
    } else {
        benchmark.config.runs as nat
    }
}

/// The beginning of measuring a benchmark.
pub open spec fn started(
    benchmark: Benchmark,
    rustc_path: Seq<u8>,
    cargo_path: Seq<u8>,
    iterations: nat,
    mode: Mode,
) -> MeasurementView {
    MeasurementView {
        benchmark,
        rustc_path,
        cargo_path,
        todo: schedule::schedule(
            mode.kinds(),
            schedule::block_tasks(
                rounds(benchmark, iterations),
                benchmark.config.nll,
                benchmark.patches@.len(),
            ),
        ),
        prep_dir: Seq::empty(),
        timing_dir: Seq::empty(),
        results: ResultsView::none(),
        runs: Seq::empty(),
    }
}

impl<'a> Measurement<'a> {
    /// The first of the tasks that are left to do.
    fn task(&self) -> (task: Task)
        requires
            self.wf(),
            self.kind < self.kinds@.len(),
        ensures
            self@.todo.len() > 0,
            self@.todo[0] == (self.kinds@[self.kind as int], task),
            schedule::inner(task, self.benchmark.patches@.len()) || task == Task::Prepare || task
                == Task::Build,
    {
        let task = match self.place {
            Place::Prepare => Task::Prepare,
            Place::Build => Task::Build,
            Place::Iteration { done: _, at } => self.tasks[at],
        };
        assert(self.block_left()[0] == task);
        task
    }

    /// What is to be done next.
    pub fn action(&self) -> (action: Action<'a>)
        requires
            self.wf(),
        ensures
            action@ == self@.action(),
            action matches Action::Build(process, _) ==> self@.todo.len() > 0 && process.build_kind
                == self@.todo[0].0,
            action matches Action::Measure(process, _) ==> self@.todo.len() > 0
                && process.build_kind == self@.todo[0].0,
    {
        if self.kind == self.kinds.len() {
            return Action::Finish;
        }
        let kind = self.kinds[self.kind];
        match self.task() {
            Task::Prepare => Action::MakePrepDir(self.benchmark.path.copy()),
            Task::Build => Action::Build(
                self.benchmark.mk_cargo_process(self.rustc_path, self.cargo_path, kind),
                self.prep_dir.copy(),
            ),
            Task::Copy => Action::MakeTimingDir(self.prep_dir.copy()),
            Task::ApplyPatch(i) => Action::ApplyPatch(
                self.benchmark.patches[i].copy(),
                self.timing_dir.copy(),
            ),
            Task::Measure(series) => {
                let process = self.benchmark.mk_cargo_process(
                    self.rustc_path,
                    self.cargo_path,
                    kind,
                ).profiler(Profiler::PerfStat);
                let process = match series {
                    Series::Clean => process,
                    Series::Nll => process.nll(true),
                    _ => process.incremental(true),
                };
                Action::Measure(process, self.timing_dir.copy())
            },
        }
    }

    /// The place after the present one, nothing where that is the last for the
    /// present kind of build.
    fn next_place(&self) -> (next: Option<Place>)
        requires
            self.wf(),
            self.kind < self.kinds@.len(),
        ensures
            next is None <==> self.block_left().len() == 1,
            next is Some ==> {
                let moved = Measurement { place: next->0, ..*self };
                &&& moved.wf()
                &&& moved.block_left() == self.block_left().drop_first()
                &&& moved.block_left().len() > 0
                &&& moved.block_left()[0] != Task::Prepare
            },
    {
        match self.place {
            Place::Prepare => {
                let next = Place::Build;
                assert((Measurement { place: next, ..*self }).block_left()
                    =~= self.block_left().drop_first());
                Some(next)
            },
            Place::Build => {
                if self.iterations == 0 {
                    return None;
                }
                let next = Place::Iteration { done: 0, at: 0 };
                assert(self.tasks@.skip(0) =~= self.tasks@);
                assert((Measurement { place: next, ..*self }).block_left()
                    =~= self.block_left().drop_first());
                Some(next)
            },
            Place::Iteration { done, at } => {
                let count: usize = self.tasks.len();
                if at + 1 < count {
                    let next = Place::Iteration { done, at: at + 1 };
                    assert((Measurement { place: next, ..*self }).block_left()
                        =~= self.block_left().drop_first());
                    return Some(next);
                }
                if done + 1 < self.iterations {
                    let next = Place::Iteration { done: done + 1, at: 0 };
                    assert(self.tasks@.skip(0) =~= self.tasks@);
                    assert((Measurement { place: next, ..*self }).block_left()
                        =~= self.block_left().drop_first());
                    return Some(next);
                }
                None
            },
        }
    }

    /// Goes on after what came of the present action. Where that was the last one
    /// for a kind of build, what was measured for that kind is reported, if all
    /// stats are present in all measurements of each state.
    pub fn advance(self, event: Event) -> (result: Result<Measurement<'a>, Mismatch>)
        requires
            self.wf(),
            self@.todo.len() > 0,
            answers(event@, self@.todo[0].1),
        ensures
            result is Err <==> schedule::ends_block(self@.todo) && !all_reportable(
                self@.block_states(event@),
            ),
            result is Ok ==> result->Ok_0.wf() && result->Ok_0@ == self@.next(event@),
            result is Err ==> result->Err_0.tells_of(
                self@.todo[0].0,
                self@.block_states(event@),
            ),
    {
        let ghost start = self@;
        let ghost was = self;
        let task = self.task();
        let kind = self.kinds[self.kind];
        let next = self.next_place();
        let mut m = self;
        match (task, event) {
            (Task::Prepare, Event::Made(dir)) => {
                m.prep_dir = dir;
            },
            (Task::Copy, Event::Made(dir)) => {
                m.timing_dir = dir;
            },
            (Task::Measure(series), Event::Measured(found)) => {
                m.results.record(&m.benchmark.patches, series, found);
            },
            _ => {},
        }
        let ghost left = was.block_left();
        let ghost rest = schedule::schedule(
            was.kinds@.skip(was.kind + 1),
            seq![Task::Prepare, Task::Build] + schedule::repeated(
                was.tasks@,
                was.iterations as nat,
            ),
        );
        assert(start.todo == schedule::tagged(kind, left) + rest);
        if let Some(place) = next {
            m.place = place;
            proof {
                assert(m.block_left() == left.drop_first());
                assert(m@.todo =~= start.todo.drop_first());
                assert(start.todo[1].1 == left[1]);
                assert(m@ =~= start.next(event@));
            }
            return Ok(m);
        }
        proof {
            assert(start.todo.drop_first() =~= rest);
            let after = was.kinds@.skip(was.kind + 1);
            if after.len() > 0 {
                assert(rest[0].1 == Task::Prepare);
                assert(start.todo[1] == rest[0]);
            }
            assert(m.results@ == start.noted(event@).results);
        }
        let states = m.results.into_states(m.benchmark.config.nll);
        let mut more = match report(kind, states) {
            Err(mismatch) => {
                return Err(mismatch);
            },
            Ok(more) => more,
        };
        let mut runs = m.runs;
        let ghost before = runs@;
        let ghost added = more@;
        runs.append(&mut more);
        let total: usize = m.kinds.len();
        assert(m.kind < total);
        let next_kind: usize = m.kind + 1;
        let done = Measurement {
            kind: next_kind,
            place: Place::Prepare,
            results: Results::new(),
            runs,
            ..m
        };
        proof {
            assert(stats::run_views(runs@) =~= stats::run_views(before) + stats::run_views(added));
            let after = was.kinds@.skip(was.kind + 1);
            if next_kind < was.kinds@.len() {
                assert(after.drop_first() =~= was.kinds@.skip(next_kind + 1));
                assert(done.todo() =~= rest);
            } else {
                assert(done.todo() =~= rest);
            }
            assert(done@ =~= start.next(event@));
        }
        Ok(done)
    }

    /// All that is reported, once nothing is left to do.
    pub fn finish(self) -> (collected: CollectedBenchmark)
        requires
            self.wf(),
            self@.todo.len() == 0,
        ensures
            collected.name == self@.benchmark.name,
            stats::run_views(collected.runs@) == self@.runs,
    {
        CollectedBenchmark { name: self.benchmark.name.clone(), runs: self.runs }
    }
}

/// What is measured is always built under `perf stat`, and never with both the new
/// borrow checker and incremental compilation. What is not measured is built
/// plainly.
pub proof fn law_builds(now: MeasurementView)
    ensures
        now.action() matches ActionView::Measure(process, cwd) ==> {
            &&& process.profiler == Some(Profiler::PerfStat)
            &&& !(process.nll && process.incremental)
            &&& cwd == now.timing_dir
        },
        now.action() matches ActionView::Build(process, cwd) ==> {
            &&& process.profiler is None
            &&& !process.nll
            &&& !process.incremental
            &&& cwd == now.prep_dir
        },
{
}

/// What is done next is what the first of the tasks says, and nothing where none is left.
/// What is built, measured or not, is built in the kind that the task is for, and the
/// state that is measured decides whether the new borrow checker and incremental
/// compilation take part.
pub proof fn law_action_follows_task(now: MeasurementView)
    ensures
        now.todo.len() == 0 <==> now.action() is Finish,
        now.todo.len() > 0 ==> match (now.todo[0].1, now.action()) {
            (Task::Prepare, ActionView::MakePrepDir(base)) => base == now.benchmark.path.bytes@,
            (Task::Copy, ActionView::MakeTimingDir(base)) => base == now.prep_dir,
            (Task::ApplyPatch(i), ActionView::ApplyPatch(patch, dir)) => patch
                == now.benchmark.patches@[i as int].path.bytes@ && dir == now.timing_dir,
            (Task::Build, ActionView::Build(process, cwd)) => {
                &&& cwd == now.prep_dir
                &&& process.build_kind == now.todo[0].0
                &&& process.profiler is None
                &&& !process.nll
                &&& !process.incremental
            },
            (Task::Measure(series), ActionView::Measure(process, cwd)) => {
                &&& cwd == now.timing_dir
                &&& process.build_kind == now.todo[0].0
                &&& process.profiler == Some(Profiler::PerfStat)
                &&& process.nll <==> series == Series::Nll
                &&& process.incremental <==> series != Series::Nll && series != Series::Clean
            },
            _ => false,
        },
{
}

/// Whatever is built, measured or not, has the compiler and the `cargo` of the
/// measurement and the settings of the benchmark.
pub proof fn law_builds_follow_settings(now: MeasurementView, process: cargo::ProcessView)
    requires
        match now.action() {
            ActionView::Build(built, _) => built == process,
            ActionView::Measure(built, _) => built == process,
            _ => false,
        },
    ensures
        process.rustc_path == now.rustc_path,
        process.cargo_path == now.cargo_path,
        ({
            let plain = now.benchmark.process(now.rustc_path, now.cargo_path, process.build_kind);
            &&& process.manifest_path == plain.manifest_path
            &&& process.cargo_args == plain.cargo_args
            &&& process.rustc_args == plain.rustc_args
        }),
{
}

/// Every event leaves one task less, and neither the benchmark nor what it is built with
/// changes. A directory that was made is used from there on, for what it was made for;
/// no other event changes a directory.
pub proof fn law_one_task_less(now: MeasurementView, event: EventView)
    requires
        now.todo.len() > 0,
        answers(event, now.todo[0].1),
    ensures
        ({
            let next = now.next(event);
            let made = event->Made_0;
            &&& next.todo == now.todo.drop_first()
            &&& next.benchmark == now.benchmark
            &&& next.rustc_path == now.rustc_path
            &&& next.cargo_path == now.cargo_path
            &&& now.todo[0].1 == Task::Prepare ==> next.prep_dir == made && next.timing_dir
                == now.timing_dir
            &&& now.todo[0].1 == Task::Copy ==> next.timing_dir == made && next.prep_dir
                == now.prep_dir
            &&& !(event is Made) ==> next.prep_dir == now.prep_dir && next.timing_dir
                == now.timing_dir
        }),
{
}

/// An action is answered by what it leads to: a directory, a build, a patch that is
/// applied, or what was measured.
pub proof fn law_actions_are_answered(now: MeasurementView, event: EventView)
    requires
        now.todo.len() > 0,
    ensures
        answers(event, now.todo[0].1) <==> match now.action() {
            ActionView::MakePrepDir(_) => event is Made,
            ActionView::MakeTimingDir(_) => event is Made,
            ActionView::Build(_, _) => event is Built,
            ActionView::ApplyPatch(_, _) => event is Applied,
            ActionView::Measure(_, _) => event is Measured,
            ActionView::Finish => false,
        },
{
}

/// The state that a series of measurements is reported under.
pub open spec fn state_of(series: Series, patches: Seq<Seq<u8>>) -> stats::StateView {
    match series {
        Series::Clean => stats::StateView::Clean,
        Series::Nll => stats::StateView::Nll,
        Series::IncrementalStart => stats::StateView::IncrementalStart,
        Series::IncrementalClean => stats::StateView::IncrementalClean,
        Series::Patched(i) => stats::StateView::IncrementalPatched(patches[i as int]),
    }
}

/// Whether the states differ in one measurement, which was added at `j` as the last one
/// of this state, with all else as it was. A state that there was not before comes last.
pub open spec fn added_at(
    before: Seq<(stats::StateView, Seq<Seq<stats::StatView>>)>,
    after: Seq<(stats::StateView, Seq<Seq<stats::StatView>>)>,
    state: stats::StateView,
    found: Seq<stats::StatView>,
    j: int,
) -> bool {
    &&& 0 <= j < after.len()
    &&& after[j].0 == state
    &&& after[j].1.len() > 0
    &&& after[j].1.last() == found
    &&& forall|k: int| 0 <= k < before.len() && k != j ==> #[trigger] after[k] == before[k]
    &&& j < before.len() ==> {
        &&& after.len() == before.len()
        &&& before[j].0 == state
        &&& before[j].1 == after[j].1.drop_last()
    }
    &&& j >= before.len() ==> {
        &&& j == before.len()
        &&& after.len() == before.len() + 1
        &&& after[j].1.len() == 1
        &&& forall|k: int| 0 <= k < before.len() ==> (#[trigger] before[k]).0 != state
    }
}

/// Whether the states differ in one measurement, which was added as the last one of this
/// state.
pub open spec fn added(
    before: Seq<(stats::StateView, Seq<Seq<stats::StatView>>)>,
    after: Seq<(stats::StateView, Seq<Seq<stats::StatView>>)>,
    state: stats::StateView,
    found: Seq<stats::StatView>,
) -> bool {
    exists|j: int| added_at(before, after, state, found, j)
}

/// What is measured is kept under the state that it was measured in, behind what was
/// measured in that state before, and under no other.
pub proof fn law_recorded(
    results: ResultsView,
    patches: Seq<Seq<u8>>,
    series: Series,
    found: Seq<stats::StatView>,
    nll: bool,
)
    requires
        series == Series::Nll ==> nll,
    ensures
        added(
            results.states(nll),
            results.with(patches, series, found).states(nll),
            state_of(series, patches),
            found,
        ),
{
    let before = results.states(nll);
    let now = results.with(patches, series, found);
    let after = now.states(nll);
    let state = state_of(series, patches);
    let plain: int = if nll {
        4
    } else {
        3
    };
    match series {
        Series::Clean => {
            assert(after[0].1.drop_last() =~= results.clean);
            assert(added_at(before, after, state, found, 0));
        },
        Series::Nll => {
            assert(after[1].1.drop_last() =~= results.nll);
            assert(added_at(before, after, state, found, 1));
        },
        Series::IncrementalStart => {
            assert(after[plain - 2].1.drop_last() =~= results.incremental_start);
            assert(added_at(before, after, state, found, plain - 2));
        },
        Series::IncrementalClean => {
            assert(after[plain - 1].1.drop_last() =~= results.incremental_clean);
            assert(added_at(before, after, state, found, plain - 1));
        },
        Series::Patched(i) => {
            let key = patches[i as int];
            let old_groups = results.patched;
            assert(before.len() == plain + old_groups.len());
            if exists|g: int| group::is_group_of(old_groups, key, g) {
                let g = choose|g: int| group::is_group_of(old_groups, key, g);
                assert(now.patched == old_groups.update(g, (key, old_groups[g].1.push(found))));
                assert(after[plain + g] == (state, old_groups[g].1.push(found)));
                assert(old_groups[g].1.push(found).drop_last() =~= old_groups[g].1);
                assert(before[plain + g] == (state, old_groups[g].1));
                assert(added_at(before, after, state, found, plain + g));
            } else {
                assert(now.patched == old_groups.push((key, seq![found])));
                assert(after[before.len() as int] == (state, seq![found]));
                assert forall|k: int| 0 <= k < before.len() implies (#[trigger] before[k]).0
                    != state by {
                    if k >= plain {
                        let g = k - plain;
                        assert(before[k].0 == stats::StateView::IncrementalPatched(
                            old_groups[g].0,
                        ));
                        if old_groups[g].0 == key {
                            lemma_first_group(old_groups, key, g);
                        }
                    }
                }
                assert(added_at(before, after, state, found, before.len() as int));
            }
        },
    }
}

/// Where a key has a group, it has a first one.
proof fn lemma_first_group<K, V>(groups: Seq<(K, Seq<V>)>, key: K, g: int)
    requires
        0 <= g < groups.len(),
        groups[g].0 == key,
    ensures
        exists|i: int| group::is_group_of(groups, key, i),
    decreases g,
{
    if forall|j: int| 0 <= j < g ==> groups[j].0 != key {
        assert(group::is_group_of(groups, key, g));
    } else {
        let j = choose|j: int| 0 <= j < g && groups[j].0 == key;
        lemma_first_group(groups, key, j);
    }
}

/// Before anything is measured, there is nothing under any state; the states that do not
/// depend on patches are there all the same, in the order in which they are reported.
pub proof fn law_nothing_recorded(nll: bool, i: int)
    ensures
        ({
            let states = ResultsView::none().states(nll);
            &&& states.len() == (if nll {
                4int
            } else {
                3int
            })
            &&& 0 <= i < states.len() ==> states[i].1.len() == 0
            &&& states[0].0 is Clean
            &&& nll ==> states[1].0 is Nll
            &&& states[states.len() - 2].0 is IncrementalStart
            &&& states[states.len() - 1].0 is IncrementalClean
        }),
{
}

/// What is measured is noted under its state. Where that was the last task for a kind of
/// build, everything noted is reported at once, state by state, as of that kind, behind
/// what was reported before, and what was noted is forgotten.
pub proof fn law_measured_is_noted(
    now: MeasurementView,
    series: Series,
    found: Seq<stats::StatView>,
)
    requires
        now.todo.len() > 0,
        now.todo[0].1 == Task::Measure(series),
        series == Series::Nll ==> now.benchmark.config.nll,
        series matches Series::Patched(i) ==> i < now.benchmark.patches@.len(),
    ensures
        ({
            let nll = now.benchmark.config.nll;
            let event = EventView::Measured(found);
            let next = now.next(event);
            let last = now.todo.len() == 1 || now.todo[1].1 == Task::Prepare;
            let noted = if last {
                now.block_states(event)
            } else {
                next.results.states(nll)
            };
            let n = now.runs.len() as int;
            &&& added(
                now.results.states(nll),
                noted,
                state_of(series, now.benchmark.patches@.map_values(|p: Patch| p.path.bytes@)),
                found,
            )
            &&& !last ==> next.runs == now.runs
            &&& last ==> {
                &&& next.results.states(nll) == ResultsView::none().states(nll)
                &&& next.runs.len() == n + noted.len()
                &&& now.runs.is_prefix_of(next.runs)
                &&& forall|i: int|
                    0 <= i < noted.len() ==> #[trigger] next.runs[n + i] == stats::reported(
                        now.todo[0].0,
                        noted[i].0,
                        noted[i].1,
                    )
            }
        }),
{
    let nll = now.benchmark.config.nll;
    let event = EventView::Measured(found);
    let next = now.next(event);
    let patches = now.benchmark.patches@.map_values(|p: Patch| p.path.bytes@);
    assert(patches =~= patch::patch_paths(now.benchmark.patches@));
    law_recorded(now.results, patches, series, found, nll);
    assert(now.runs =~= next.runs.subrange(0, now.runs.len() as int));
}

/// What is not a measurement leaves what was noted as it was. Where it was the last task
/// for a kind of build, that is reported.
pub proof fn law_nothing_else_is_noted(now: MeasurementView, event: EventView)
    requires
        now.todo.len() > 0,
        answers(event, now.todo[0].1),
        !(event is Measured),
    ensures
        ({
            let next = now.next(event);
            let last = now.todo.len() == 1 || now.todo[1].1 == Task::Prepare;
            &&& now.block_states(event) == now.results.states(now.benchmark.config.nll)
            &&& !last ==> next.results == now.results && next.runs == now.runs
            &&& last ==> next.runs == now.runs + reports(
                now.todo[0].0,
                now.results.states(now.benchmark.config.nll),
            )
        }),
{
}

/// There is a report for each state, of that state and of what was measured in it.
pub proof fn law_reports_one_by_one(
    kind: BuildKind,
    states: Seq<(stats::StateView, Seq<Seq<stats::StatView>>)>,
    i: int,
)
    ensures
        reports(kind, states).len() == states.len(),
        0 <= i < states.len() ==> reports(kind, states)[i] == stats::reported(
            kind,
            states[i].0,
            states[i].1,
        ),
{
}

/// States can be reported if and only if each of them can. Otherwise what is told of is
/// one of them, with the kind of build and all of its measurements; it cannot be
/// reported, and those before it could.
pub proof fn law_mismatch(
    mismatch: Mismatch,
    kind: BuildKind,
    states: Seq<(stats::StateView, Seq<Seq<stats::StatView>>)>,
)
    ensures
        all_reportable(states) <==> forall|s: (stats::StateView, Seq<Seq<stats::StatView>>)| #[trigger]
            states.contains(s) ==> stats::all_present(s.1),
        mismatch.tells_of(kind, states) ==> {
            &&& mismatch.build_kind == kind
            &&& !all_reportable(states)
            &&& !stats::all_present(stats::run_stats(mismatch.runs@))
            &&& exists|i: int|
                0 <= i < states.len() && (#[trigger] states[i]).0 == mismatch.state@ && states[i].1
                    == stats::run_stats(mismatch.runs@) && all_reportable(states.take(i))
        },
{
    if all_reportable(states) {
        assert forall|s: (stats::StateView, Seq<Seq<stats::StatView>>)| #[trigger]
            states.contains(s) implies stats::all_present(s.1) by {
            let i = states.index_of(s);
            assert(stats::all_present(states[i].1));
        }
    }
    if forall|s: (stats::StateView, Seq<Seq<stats::StatView>>)| #[trigger]
        states.contains(s) ==> stats::all_present(s.1) {
        assert forall|i: int| 0 <= i < states.len() implies stats::all_present(
            (#[trigger] states[i]).1,
        ) by {
            assert(states.contains(states[i]));
        }
    }
    if mismatch.tells_of(kind, states) {
        let i = choose|i: int|
            {
                &&& 0 <= i < states.len()
                &&& #[trigger] states[i] == (mismatch.state@, stats::run_stats(mismatch.runs@))
                &&& !stats::all_present(states[i].1)
                &&& forall|j: int| 0 <= j < i ==> stats::all_present((#[trigger] states[j]).1)
            };
        assert(states[i].0 == mismatch.state@);
        assert forall|j: int| 0 <= j < states.take(i).len() implies stats::all_present(
            (#[trigger] states.take(i)[j]).1,
        ) by {
            assert(states.take(i)[j] == states[j]);
        }
    }
}

/// Measuring begins with the benchmark as it is and nothing done, and there are as many
/// rounds as asked for but no more than the settings allow.
pub proof fn law_beginning(
    benchmark: Benchmark,
    rustc_path: Seq<u8>,
    cargo_path: Seq<u8>,
    iterations: nat,
    mode: Mode,
)
    ensures
        ({
            let start = started(benchmark, rustc_path, cargo_path, iterations, mode);
            let n = rounds(benchmark, iterations);
            &&& n <= iterations
            &&& n <= benchmark.config.runs
            &&& n == iterations || n == benchmark.config.runs
            &&& start.benchmark == benchmark
            &&& start.rustc_path == rustc_path
            &&& start.cargo_path == cargo_path
            &&& start.runs.len() == 0
            &&& start.results == ResultsView::none()
            &&& start.todo == schedule::schedule(
                mode.kinds(),
                schedule::block_tasks(n, benchmark.config.nll, benchmark.patches@.len()),
            )
        }),
{
}

/// What came of an action, and what is to be done, is shown as it is.
pub proof fn law_events_shown(
    dir: FilePath,
    other: FilePath,
    found: Vec<Stat>,
    process: CargoProcess,
)
    ensures
        Event::Made(dir)@ == EventView::Made(dir.bytes@),
        Event::Measured(found)@ == EventView::Measured(stats::stat_views(found@)),
        Event::Built@ is Built,
        Event::Applied@ is Applied,
        Action::MakePrepDir(dir)@ == ActionView::MakePrepDir(dir.bytes@),
        Action::MakeTimingDir(dir)@ == ActionView::MakeTimingDir(dir.bytes@),
        Action::ApplyPatch(Patch { path: other }, dir)@ == ActionView::ApplyPatch(
            other.bytes@,
            dir.bytes@,
        ),
        Action::Build(process, dir)@ == ActionView::Build(process@, dir.bytes@),
        Action::Measure(process, dir)@ == ActionView::Measure(process@, dir.bytes@),
        Action::Finish@ is Finish,
{
}

} // verus!
