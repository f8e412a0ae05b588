//! What measuring a benchmark consists of, in order.
use crate::cargo::BuildKind;
use vstd::prelude::*;

verus! {

/// How much is measured.
#[derive(Clone, Copy, Debug, PartialEq, Eq, Structural)]
pub enum Mode {
    /// Every kind of build.
    Normal,
    /// The cheapest kind of build only.
    Test,
}

impl Mode {
    /// The kinds of build that are measured, in order.
    pub open spec fn kinds(self) -> Seq<BuildKind> {
        match self {
            Mode::Normal => seq![BuildKind::Check, BuildKind::Debug, BuildKind::Opt],
            Mode::Test => seq![BuildKind::Check],
        }
    }

    /// The kinds of build that are measured, in order.
    pub fn build_kinds(self) -> (kinds: Vec<BuildKind>)
        ensures
            kinds@ == self.kinds(),
    {
        let kinds = match self {
            Mode::Normal => vec![BuildKind::Check, BuildKind::Debug, BuildKind::Opt],
            Mode::Test => vec![BuildKind::Check],
        };
        assert(kinds@ =~= self.kinds());
        kinds
    }
}

/// A state that a benchmark is measured in.
#[derive(Clone, Copy, Debug, PartialEq, Eq, Structural)]
pub enum Series {
    /// A full non-incremental build.
    Clean,
    /// The same with the new borrow checker.
    Nll,
    /// An incremental build from scratch, the slowest case.
    IncrementalStart,
    /// An incremental build with no changes, the fastest case.
    IncrementalClean,
    /// An incremental build with some changes, the realistic case: the patch at
    /// this place has just been applied.
    Patched(usize),
}

/// One thing to do.
#[derive(Clone, Copy, Debug, PartialEq, Eq, Structural)]
pub enum Task {
    /// Copy the benchmark into a temporary directory.
    Prepare,
    /// Build everything there, the dependencies too, so that they are not built
    /// again in every iteration.
    Build,
    /// Copy that directory into another one, for the builds that are measured.
    Copy,
    /// Apply the patch at this place there.
    ApplyPatch(usize),
    /// Build there, and measure.
    Measure(Series),
}

/// Each of the first `patches` patches is applied and measured.
pub open spec fn patch_tasks(patches: nat) -> Seq<Task>
    decreases patches,
{
    if patches == 0 {
        Seq::empty()
    } else {
        let last = (patches - 1) as usize;
        patch_tasks((patches - 1) as nat) + seq![
            Task::ApplyPatch(last),
            Task::Measure(Series::Patched(last)),
        ]
    }
}

/// One iteration.
pub open spec fn iteration_tasks(nll: bool, patches: nat) -> Seq<Task> {
    seq![Task::Copy, Task::Measure(Series::Clean)] + (if nll {
        seq![Task::Measure(Series::Nll)]
    } else {
        Seq::empty()
    }) + seq![
        Task::Measure(Series::IncrementalStart),
        Task::Measure(Series::IncrementalClean),
    ] + patch_tasks(patches)
}

/// The tasks, `times` times over.
pub open spec fn repeated(tasks: Seq<Task>, times: nat) -> Seq<Task>
    decreases times,
{
    if times == 0 {
        Seq::empty()
    } else {
        tasks + repeated(tasks, (times - 1) as nat)
    }
}

/// What is done for one kind of build.
pub open spec fn block_tasks(iterations: nat, nll: bool, patches: nat) -> Seq<Task> {
    seq![Task::Prepare, Task::Build] + repeated(iteration_tasks(nll, patches), iterations)
}

/// The tasks, all for one kind of build.
pub open spec fn tagged(kind: BuildKind, tasks: Seq<Task>) -> Seq<(BuildKind, Task)> {
    tasks.map_values(|t: Task| (kind, t))
}

/// The same tasks for each kind of build in turn.
pub open spec fn schedule(kinds: Seq<BuildKind>, block: Seq<Task>) -> Seq<(BuildKind, Task)>
    decreases kinds.len(),
{
    if kinds.len() == 0 {
        Seq::empty()
    } else {
        tagged(kinds[0], block) + schedule(kinds.drop_first(), block)
    }
}

/// Whether a task belongs into an iteration, with this many patches.
pub open spec fn inner(task: Task, patches: nat) -> bool {
    match task {
        Task::Prepare => false,
        Task::Build => false,
        Task::Copy => true,
        Task::ApplyPatch(i) => i < patches,
        Task::Measure(Series::Patched(i)) => i < patches,
        Task::Measure(_) => true,
    }
}

/// What an iteration consists of.
pub fn plan_iteration(nll: bool, patches: usize) -> (tasks: Vec<Task>)
    ensures
        tasks@ == iteration_tasks(nll, patches as nat),
        forall|i: int| 0 <= i < tasks@.len() ==> inner(#[trigger] tasks@[i], patches as nat),
{
    let mut tasks: Vec<Task> = Vec::new();
    tasks.push(Task::Copy);
    tasks.push(Task::Measure(Series::Clean));
    if nll {
        tasks.push(Task::Measure(Series::Nll));
    }
    tasks.push(Task::Measure(Series::IncrementalStart));
    tasks.push(Task::Measure(Series::IncrementalClean));
    let ghost fixed = tasks@;
    let mut i: usize = 0;
    assert(fixed + patch_tasks(0) =~= fixed);
    assert(fixed + patch_tasks(patches as nat) =~= iteration_tasks(nll, patches as nat));
    while i < patches
        invariant
            i <= patches,
            tasks@ == fixed + patch_tasks(i as nat),
            forall|j: int| 0 <= j < tasks@.len() ==> inner(#[trigger] tasks@[j], patches as nat),
        decreases patches - i,
    {
        tasks.push(Task::ApplyPatch(i));
        tasks.push(Task::Measure(Series::Patched(i)));
        i += 1;
        assert(tasks@ =~= fixed + patch_tasks(i as nat));
    }
    tasks
}

/// Whether the first of these tasks is the last one for its kind of build.
pub open spec fn ends_block(todo: Seq<(BuildKind, Task)>) -> bool {
    todo.len() == 1 || todo[1].1 == Task::Prepare
}

/// The new borrow checker is measured only where the settings ask for it.
pub proof fn law_nll_only_if_asked(iterations: nat, patches: nat, i: int)
    requires
        0 <= i < block_tasks(iterations, false, patches).len(),
    ensures
        block_tasks(iterations, false, patches)[i] != Task::Measure(Series::Nll),
{
    let tasks = iteration_tasks(false, patches);
    assert forall|j: int| 0 <= j < tasks.len() implies #[trigger] tasks[j] != Task::Measure(
        Series::Nll,
    ) by {
        if j >= 4 {
            lemma_patch_tasks_without_nll(patches, j - 4);
        }
    }
    if i >= 2 {
        lemma_repeated_without_nll(tasks, iterations, i - 2);
    }
}

proof fn lemma_patch_tasks_without_nll(patches: nat, j: int)
    requires
        0 <= j < patch_tasks(patches).len(),
    ensures
        patch_tasks(patches)[j] != Task::Measure(Series::Nll),
    decreases patches,
{
    if patches > 0 {
        let before = patch_tasks((patches - 1) as nat);
        if j < before.len() {
            lemma_patch_tasks_without_nll((patches - 1) as nat, j);
        }
    }
}

proof fn lemma_repeated_without_nll(tasks: Seq<Task>, times: nat, j: int)
    requires
        forall|i: int| 0 <= i < tasks.len() ==> #[trigger] tasks[i] != Task::Measure(Series::Nll),
        0 <= j < repeated(tasks, times).len(),
    ensures
        repeated(tasks, times)[j] != Task::Measure(Series::Nll),
    decreases times,
{
    if j >= tasks.len() {
        lemma_repeated_without_nll(tasks, (times - 1) as nat, j - tasks.len());
    }
}

/// A patch is measured right after it was applied.
pub proof fn law_patch_applied_before_measured(patches: nat, j: int)
    requires
        patches <= usize::MAX,
        0 <= j < patches,
    ensures
        patch_tasks(patches).len() == 2 * patches,
        patch_tasks(patches)[2 * j] == Task::ApplyPatch(j as usize),
        patch_tasks(patches)[2 * j + 1] == Task::Measure(Series::Patched(j as usize)),
    decreases patches,
{
    let before = (patches - 1) as nat;
    assert(patch_tasks(0).len() == 0);
    if j < before {
        law_patch_applied_before_measured(before, j);
    } else if before > 0 {
        law_patch_applied_before_measured(before, before - 1);
    }
}

/// Normally the kinds of build are measured from the cheapest to the dearest; a test
/// measures the first of them only.
pub proof fn law_kinds()
    ensures
        Mode::Normal.kinds().no_duplicates(),
        forall|kind: BuildKind| #[trigger] Mode::Normal.kinds().contains(kind),
        Mode::Test.kinds().len() == 1,
        Mode::Test.kinds()[0] == BuildKind::Check,
        Mode::Normal.kinds()[0] == BuildKind::Check,
        Mode::Normal.kinds().last() == BuildKind::Opt,
{
    assert forall|kind: BuildKind| #[trigger] Mode::Normal.kinds().contains(kind) by {
        let all = Mode::Normal.kinds();
        assert(all[0] == BuildKind::Check && all[1] == BuildKind::Debug && all[2] == BuildKind::Opt);
    }
}

/// An iteration measures a fresh copy: first a build from scratch, then an incremental
/// one, then one with nothing changed, then one after each patch. The new borrow checker
/// is measured right after the build from scratch, and changes nothing else.
pub proof fn law_iteration(patches: nat, j: int)
    requires
        patches <= usize::MAX,
    ensures
        ({
            let tasks = iteration_tasks(false, patches);
            &&& tasks.len() == 4 + 2 * patches
            &&& tasks[0] == Task::Copy
            &&& tasks[1] == Task::Measure(Series::Clean)
            &&& tasks[2] == Task::Measure(Series::IncrementalStart)
            &&& tasks[3] == Task::Measure(Series::IncrementalClean)
            &&& 0 <= j < patches ==> tasks[4 + 2 * j] == Task::ApplyPatch(j as usize)
            &&& 0 <= j < patches ==> tasks[5 + 2 * j] == Task::Measure(Series::Patched(j as usize))
            &&& iteration_tasks(true, patches) == tasks.insert(2, Task::Measure(Series::Nll))
        }),
{
    let tasks = iteration_tasks(false, patches);
    if patches > 0 {
        law_patch_applied_before_measured(patches, 0);
    }
    if 0 <= j < patches {
        law_patch_applied_before_measured(patches, j);
    }
    assert(patch_tasks(0).len() == 0);
    assert(iteration_tasks(true, patches) =~= tasks.insert(2, Task::Measure(Series::Nll)));
}

/// Some rounds, then others, are as many rounds as both together; one round is the
/// tasks themselves, and no round is nothing.
pub proof fn law_rounds(tasks: Seq<Task>, m: nat, n: nat)
    ensures
        repeated(tasks, m + n) == repeated(tasks, m) + repeated(tasks, n),
        repeated(tasks, 1) == tasks,
        repeated(tasks, 0).len() == 0,
    decreases m,
{
    assert(repeated(tasks, 0) =~= Seq::empty());
    assert(repeated(tasks, 1) =~= tasks);
    if m == 0 {
        assert(repeated(tasks, m) + repeated(tasks, n) =~= repeated(tasks, n));
    } else {
        law_rounds(tasks, (m - 1) as nat, n);
        assert(((m + n) - 1) as nat == (m - 1) as nat + n);
        assert(repeated(tasks, m + n) =~= repeated(tasks, m) + repeated(tasks, n));
    }
}

/// For a kind of build, everything is built once in a copy of the benchmark, and then
/// comes one iteration after the other.
pub proof fn law_block(iterations: nat, nll: bool, patches: nat)
    ensures
        block_tasks(0, nll, patches).len() == 2,
        block_tasks(iterations, nll, patches)[0] == Task::Prepare,
        block_tasks(iterations, nll, patches)[1] == Task::Build,
        block_tasks(iterations + 1, nll, patches) == block_tasks(iterations, nll, patches)
            + iteration_tasks(nll, patches),
{
    let tasks = iteration_tasks(nll, patches);
    law_rounds(tasks, iterations, 1);
    assert(block_tasks(iterations + 1, nll, patches) =~= block_tasks(iterations, nll, patches)
        + tasks);
}

/// Every kind of build has all of the tasks, in their order, before the next kind has
/// its first one.
pub proof fn law_schedule(kinds: Seq<BuildKind>, block: Seq<Task>, k: int, i: int)
    ensures
        schedule(kinds, block).len() == kinds.len() * block.len(),
        0 <= k < kinds.len() && 0 <= i < block.len() ==> {
            &&& 0 <= k * block.len() + i < kinds.len() * block.len()
            &&& schedule(kinds, block)[k * block.len() + i] == (kinds[k], block[i])
        },
    decreases kinds.len(),
{
    let n = block.len() as int;
    if kinds.len() == 0 {
        assert(0 * n == 0) by (nonlinear_arith);
    } else {
        let m = kinds.len() as int;
        law_schedule(kinds.drop_first(), block, k - 1, i);
        assert(n + (m - 1) * n == m * n) by (nonlinear_arith);
        assert(tagged(kinds[0], block).len() == n);
        if 0 <= k < m && 0 <= i < n {
            assert(0 <= k * n + i < m * n) by (nonlinear_arith)
                requires
                    0 <= k < m,
                    0 <= i < n,
            ;
            if k == 0 {
                assert(0 * n == 0) by (nonlinear_arith);
                assert(tagged(kinds[0], block)[i] == (kinds[0], block[i]));
            } else {
                assert(k * n + i == n + ((k - 1) * n + i)) by (nonlinear_arith);
                assert(0 <= (k - 1) * n + i) by (nonlinear_arith)
                    requires
                        1 <= k,
                        0 <= i,
                        0 <= n,
                ;
                assert(kinds.drop_first()[k - 1] == kinds[k]);
            }
        }
    }
}

} // verus!
