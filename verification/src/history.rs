//! Whole measurements: what a sequence of events leads to, from first to last.
use crate::benchmark::Benchmark;
use crate::cargo::BuildKind;
use crate::group;
use crate::measure;
use crate::measure::{EventView, MeasurementView, ResultsView};
use crate::patch;
use crate::schedule;
use crate::schedule::{Mode, Series, Task};
use crate::stats;
use vstd::prelude::*;

verus! {

/// The state after these events.
pub open spec fn play(start: MeasurementView, events: Seq<EventView>) -> MeasurementView
    decreases events.len(),
{
    if events.len() == 0 {
        start
    } else {
        play(start, events.drop_last()).next(events.last())
    }
}

/// Whether these events can come of the tasks, one each.
pub open spec fn all_answer(events: Seq<EventView>, tasks: Seq<Task>) -> bool {
    &&& events.len() == tasks.len()
    &&& forall|i: int| 0 <= i < tasks.len() ==> measure::answers(#[trigger] events[i], tasks[i])
}

/// What the events say was measured in the state, in order.
pub open spec fn measured_in(tasks: Seq<Task>, events: Seq<EventView>, series: Series) -> Seq<
    Seq<stats::StatView>,
>
    decreases tasks.len(),
{
    if tasks.len() == 0 {
        Seq::empty()
    } else {
        let before = measured_in(tasks.drop_last(), events.drop_last(), series);
        if tasks.last() == Task::Measure(series) {
            before.push(events.last()->Measured_0)
        } else {
            before
        }
    }
}

/// What the events say was measured after patches, in order, with the patch.
pub open spec fn measured_patched(
    tasks: Seq<Task>,
    events: Seq<EventView>,
    patches: Seq<Seq<u8>>,
) -> Seq<(Seq<u8>, Seq<stats::StatView>)>
    decreases tasks.len(),
{
    if tasks.len() == 0 {
        Seq::empty()
    } else {
        let before = measured_patched(tasks.drop_last(), events.drop_last(), patches);
        match tasks.last() {
            Task::Measure(Series::Patched(i)) => before.push(
                (patches[i as int], events.last()->Measured_0),
            ),
            _ => before,
        }
    }
}

/// All that the events say was measured.
pub open spec fn block_results(
    tasks: Seq<Task>,
    events: Seq<EventView>,
    patches: Seq<Seq<u8>>,
) -> ResultsView {
    ResultsView {
        clean: measured_in(tasks, events, Series::Clean),
        nll: measured_in(tasks, events, Series::Nll),
        incremental_start: measured_in(tasks, events, Series::IncrementalStart),
        incremental_clean: measured_in(tasks, events, Series::IncrementalClean),
        patched: group::groups(measured_patched(tasks, events, patches)),
    }
}

/// What is reported, kind by kind, of the events.
pub open spec fn all_reports(
    benchmark: Benchmark,
    kinds: Seq<BuildKind>,
    block: Seq<Task>,
    events: Seq<EventView>,
) -> Seq<stats::RunView>
    decreases kinds.len(),
{
    if kinds.len() == 0 {
        Seq::empty()
    } else {
        let n = block.len() as int;
        measure::reports(
            kinds[0],
            block_results(
                block,
                events.take(n),
                patch::patch_paths(benchmark.patches@),
            ).states(benchmark.config.nll),
        ) + all_reports(benchmark, kinds.drop_first(), block, events.skip(n))
    }
}

/// Whether nothing but its first task prepares a copy of the benchmark.
spec fn is_block(tasks: Seq<Task>) -> bool {
    &&& tasks.len() > 0
    &&& tasks[0] == Task::Prepare
    &&& forall|i: int| 1 <= i < tasks.len() ==> #[trigger] tasks[i] != Task::Prepare
}

proof fn lemma_patch_tasks(patches: nat)
    requires
        patches <= usize::MAX,
    ensures
        patch_tasks_inner(patches),
    decreases patches,
{
    if patches > 0 {
        lemma_patch_tasks((patches - 1) as nat);
        let before = schedule::patch_tasks((patches - 1) as nat);
        assert forall|i: int| 0 <= i < schedule::patch_tasks(patches).len() implies schedule::inner(
            #[trigger] schedule::patch_tasks(patches)[i],
            patches,
        ) by {
            if i < before.len() {
                assert(schedule::patch_tasks(patches)[i] == before[i]);
                assert(schedule::inner(before[i], (patches - 1) as nat));
            }
        }
    }
}

spec fn patch_tasks_inner(patches: nat) -> bool {
    forall|i: int|
        0 <= i < schedule::patch_tasks(patches).len() ==> schedule::inner(
            #[trigger] schedule::patch_tasks(patches)[i],
            patches,
        )
}

proof fn lemma_repeated_inner(tasks: Seq<Task>, times: nat, patches: nat)
    requires
        forall|i: int| 0 <= i < tasks.len() ==> schedule::inner(#[trigger] tasks[i], patches),
    ensures
        forall|i: int|
            0 <= i < schedule::repeated(tasks, times).len() ==> schedule::inner(
                #[trigger] schedule::repeated(tasks, times)[i],
                patches,
            ),
    decreases times,
{
    if times > 0 {
        lemma_repeated_inner(tasks, (times - 1) as nat, patches);
        let others = schedule::repeated(tasks, (times - 1) as nat);
        assert forall|i: int| 0 <= i < schedule::repeated(tasks, times).len() implies schedule::inner(
            #[trigger] schedule::repeated(tasks, times)[i],
            patches,
        ) by {
            if i >= tasks.len() {
                assert(schedule::repeated(tasks, times)[i] == others[i - tasks.len()]);
            }
        }
    }
}

proof fn lemma_block(iterations: nat, nll: bool, patches: nat)
    requires
        patches <= usize::MAX,
    ensures
        is_block(schedule::block_tasks(iterations, nll, patches)),
{
    let tasks = schedule::iteration_tasks(nll, patches);
    lemma_iteration_inner(nll, patches);
    lemma_repeated_inner(tasks, iterations, patches);
    let block = schedule::block_tasks(iterations, nll, patches);
    assert forall|i: int| 1 <= i < block.len() implies #[trigger] block[i] != Task::Prepare by {
        if i >= 2 {
            assert(block[i] == schedule::repeated(tasks, iterations)[i - 2]);
        }
    }
}

/// Within a block the results are those that the events so far report.
proof fn lemma_within_block(
    start: MeasurementView,
    kind: BuildKind,
    block: Seq<Task>,
    rest: Seq<(BuildKind, Task)>,
    events: Seq<EventView>,
)
    requires
        is_block(block),
        start.todo == schedule::tagged(kind, block) + rest,
        start.results == ResultsView::none(),
        events.len() < block.len(),
        all_answer(events, block.take(events.len() as int)),
    ensures
        ({
            let n = events.len() as int;
            let now = play(start, events);
            &&& now.todo == schedule::tagged(kind, block.skip(n)) + rest
            &&& now.results == block_results(
                block.take(n),
                events,
                patch::patch_paths(start.benchmark.patches@),
            )
            &&& now.runs == start.runs
            &&& now.benchmark == start.benchmark
        }),
    decreases events.len(),
{
    let n = events.len() as int;
    let patches = patch::patch_paths(start.benchmark.patches@);
    if n == 0 {
        assert(block.skip(0) =~= block);
        assert(block.take(0) =~= Seq::empty());
        assert(group::groups(measured_patched(block.take(0), events, patches)) =~= Seq::empty());
        assert(block_results(block.take(0), events, patches) =~= ResultsView::none());
    } else {
        let before = events.drop_last();
        assert(block.take(n).drop_last() =~= block.take(n - 1));
        assert forall|i: int| 0 <= i < n - 1 implies measure::answers(
            #[trigger] before[i],
            block.take(n - 1)[i],
        ) by {
            assert(before[i] == events[i]);
            assert(block.take(n)[i] == block.take(n - 1)[i]);
        }
        lemma_within_block(start, kind, block, rest, before);
        let mid = play(start, before);
        let tasks = block.take(n);
        assert(tasks.last() == block[n - 1]);
        assert(measure::answers(events[n - 1], tasks[n - 1]));
        assert(mid.todo[0] == (kind, block[n - 1])) by {
            assert(block.skip(n - 1)[0] == block[n - 1]);
        }
        assert(mid.todo[1] == (kind, block[n])) by {
            assert(block.skip(n - 1)[1] == block[n]);
        }
        assert(!schedule::ends_block(mid.todo));
        assert(mid.todo.drop_first() =~= schedule::tagged(kind, block.skip(n)) + rest) by {
            assert(block.skip(n - 1).drop_first() =~= block.skip(n));
        }
        lemma_noted(block.take(n), events, patches);
    }
}

/// One more event, one more result.
proof fn lemma_noted(tasks: Seq<Task>, events: Seq<EventView>, patches: Seq<Seq<u8>>)
    requires
        tasks.len() > 0,
        all_answer(events, tasks),
    ensures
        ({
            let before = block_results(tasks.drop_last(), events.drop_last(), patches);
            let now = block_results(tasks, events, patches);
            match tasks.last() {
                Task::Measure(series) => now == before.with(
                    patches,
                    series,
                    events.last()->Measured_0,
                ),
                _ => now == before,
            }
        }),
{
    let before = block_results(tasks.drop_last(), events.drop_last(), patches);
    let now = block_results(tasks, events, patches);
    match tasks.last() {
        Task::Measure(Series::Patched(i)) => {
            group::law_insert_groups(
                measured_patched(tasks.drop_last(), events.drop_last(), patches),
                patches[i as int],
                events.last()->Measured_0,
            );
            assert(now =~= before.with(patches, Series::Patched(i), events.last()->Measured_0));
        },
        Task::Measure(series) => {
            assert(now =~= before.with(patches, series, events.last()->Measured_0));
        },
        _ => {
            assert(now =~= before);
        },
    }
}

/// What is left once the events of one kind of build are over, and what is
/// reported of them.
proof fn lemma_whole_block(
    start: MeasurementView,
    kind: BuildKind,
    block: Seq<Task>,
    rest: Seq<(BuildKind, Task)>,
    events: Seq<EventView>,
)
    requires
        is_block(block),
        start.todo == schedule::tagged(kind, block) + rest,
        rest.len() > 0 ==> rest[0].1 == Task::Prepare,
        start.results == ResultsView::none(),
        all_answer(events, block),
    ensures
        ({
            let now = play(start, events);
            &&& now.todo == rest
            &&& now.results == ResultsView::none()
            &&& now.runs == start.runs + measure::reports(
                kind,
                block_results(
                    block,
                    events,
                    patch::patch_paths(start.benchmark.patches@),
                ).states(start.benchmark.config.nll),
            )
            &&& now.benchmark == start.benchmark
        }),
{
    let n = block.len() as int;
    let before = events.drop_last();
    let patches = patch::patch_paths(start.benchmark.patches@);
    assert forall|i: int| 0 <= i < n - 1 implies measure::answers(
        #[trigger] before[i],
        block.take(n - 1)[i],
    ) by {
        assert(before[i] == events[i]);
    }
    lemma_within_block(start, kind, block, rest, before);
    let last = play(start, before);
    assert(block.drop_last() =~= block.take(n - 1));
    assert(block.skip(n - 1) =~= seq![block[n - 1]]);
    assert(last.todo[0] == (kind, block[n - 1]));
    assert(last.todo.drop_first() =~= rest);
    if rest.len() > 0 {
        assert(last.todo[1] == rest[0]);
    }
    assert(schedule::ends_block(last.todo));
    assert(measure::answers(events[n - 1], block[n - 1]));
    lemma_noted(block, events, patches);
    assert(last.noted(events.last()).results == block_results(block, events, patches));
}

/// Playing some events, then others, is playing all of them.
pub proof fn law_play_in_parts(start: MeasurementView, a: Seq<EventView>, b: Seq<EventView>)
    ensures
        play(start, a + b) == play(play(start, a), b),
    decreases b.len(),
{
    if b.len() == 0 {
        assert(a + b =~= a);
    } else {
        law_play_in_parts(start, a, b.drop_last());
        assert((a + b).drop_last() =~= a + b.drop_last());
    }
}

proof fn lemma_all_blocks(
    start: MeasurementView,
    kinds: Seq<BuildKind>,
    block: Seq<Task>,
    events: Seq<EventView>,
)
    requires
        is_block(block),
        start.todo == schedule::schedule(kinds, block),
        start.results == ResultsView::none(),
        events.len() == start.todo.len(),
        forall|i: int|
            0 <= i < events.len() ==> measure::answers(#[trigger] events[i], start.todo[i].1),
    ensures
        play(start, events).todo.len() == 0,
        play(start, events).runs == start.runs + all_reports(
            start.benchmark,
            kinds,
            block,
            events,
        ),
        play(start, events).benchmark == start.benchmark,
    decreases kinds.len(),
{
    if kinds.len() == 0 {
        assert(start.runs + all_reports(start.benchmark, kinds, block, events) =~= start.runs);
    } else {
        let n = block.len() as int;
        let first = events.take(n);
        let others = events.skip(n);
        let rest = schedule::schedule(kinds.drop_first(), block);
        if kinds.len() > 1 {
            assert(rest[0] == (kinds.drop_first()[0], block[0]));
        }
        assert forall|i: int| 0 <= i < n implies measure::answers(#[trigger] first[i], block[i]) by {
            assert(first[i] == events[i]);
            assert(start.todo[i] == (kinds[0], block[i]));
        }
        lemma_whole_block(start, kinds[0], block, rest, first);
        let now = play(start, first);
        assert forall|i: int| 0 <= i < others.len() implies measure::answers(
            #[trigger] others[i],
            now.todo[i].1,
        ) by {
            assert(others[i] == events[n + i]);
            assert(start.todo[n + i] == rest[i]);
        }
        lemma_all_blocks(now, kinds.drop_first(), block, others);
        law_play_in_parts(start, first, others);
        assert(first + others =~= events);
        assert(start.runs + all_reports(start.benchmark, kinds, block, events) =~= now.runs
            + all_reports(start.benchmark, kinds.drop_first(), block, others));
    }
}

/// Once every task is done, what is reported is, for each kind of build in turn,
/// what the events say was measured in each state.
pub proof fn law_measured_is_reported(
    benchmark: Benchmark,
    rustc_path: Seq<u8>,
    cargo_path: Seq<u8>,
    iterations: nat,
    mode: Mode,
    events: Seq<EventView>,
)
    requires
        ({
            let todo = measure::started(benchmark, rustc_path, cargo_path, iterations, mode).todo;
            &&& events.len() == todo.len()
            &&& forall|i: int|
                0 <= i < events.len() ==> measure::answers(#[trigger] events[i], todo[i].1)
        }),
    ensures
        ({
            let start = measure::started(benchmark, rustc_path, cargo_path, iterations, mode);
            let end = play(start, events);
            &&& end.todo.len() == 0
            &&& end.runs == all_reports(
                benchmark,
                mode.kinds(),
                schedule::block_tasks(
                    measure::rounds(benchmark, iterations),
                    benchmark.config.nll,
                    benchmark.patches@.len(),
                ),
                events,
            )
        }),
{
    let start = measure::started(benchmark, rustc_path, cargo_path, iterations, mode);
    let block = schedule::block_tasks(
        measure::rounds(benchmark, iterations),
        benchmark.config.nll,
        benchmark.patches@.len(),
    );
    assert(benchmark.patches@.len() == benchmark.patches.len());
    lemma_block(
        measure::rounds(benchmark, iterations),
        benchmark.config.nll,
        benchmark.patches@.len(),
    );
    lemma_all_blocks(start, mode.kinds(), block, events);
    assert(start.runs + all_reports(benchmark, mode.kinds(), block, events) =~= all_reports(
        benchmark,
        mode.kinds(),
        block,
        events,
    ));
}

/// How often a task occurs.
spec fn occurrences(tasks: Seq<Task>, task: Task) -> nat
    decreases tasks.len(),
{
    if tasks.len() == 0 {
        0
    } else {
        occurrences(tasks.drop_last(), task) + (if tasks.last() == task {
            1nat
        } else {
            0nat
        })
    }
}

proof fn lemma_occurrences_add(a: Seq<Task>, b: Seq<Task>, task: Task)
    ensures
        occurrences(a + b, task) == occurrences(a, task) + occurrences(b, task),
    decreases b.len(),
{
    if b.len() == 0 {
        assert(a + b =~= a);
    } else {
        lemma_occurrences_add(a, b.drop_last(), task);
        assert((a + b).drop_last() =~= a + b.drop_last());
    }
}

proof fn lemma_occurrences_patch_tasks(patches: nat, series: Series)
    requires
        patches <= usize::MAX,
    ensures
        occurrences(schedule::patch_tasks(patches), Task::Measure(series)) == (match series {
            Series::Patched(i) => if i < patches {
                1nat
            } else {
                0nat
            },
            _ => 0nat,
        }),
    decreases patches,
{
    if patches > 0 {
        let n = (patches - 1) as nat;
        let last = n as usize;
        lemma_occurrences_patch_tasks(n, series);
        let pair = seq![Task::ApplyPatch(last), Task::Measure(Series::Patched(last))];
        lemma_occurrences_add(schedule::patch_tasks(n), pair, Task::Measure(series));
        assert(pair.drop_last() =~= seq![Task::ApplyPatch(last)]);
        assert(pair.drop_last().drop_last() =~= Seq::<Task>::empty());
        reveal_with_fuel(occurrences, 3);
    }
}

proof fn lemma_occurrences_repeated(tasks: Seq<Task>, times: nat, task: Task)
    requires
        occurrences(tasks, task) <= 1,
    ensures
        occurrences(schedule::repeated(tasks, times), task) == (if occurrences(tasks, task) == 1 {
            times
        } else {
            0nat
        }),
    decreases times,
{
    if times > 0 {
        lemma_occurrences_repeated(tasks, (times - 1) as nat, task);
        lemma_occurrences_add(tasks, schedule::repeated(tasks, (times - 1) as nat), task);
    }
}

/// The tasks of an iteration that come before its patches.
spec fn fixed_tasks(nll: bool) -> Seq<Task> {
    seq![Task::Copy, Task::Measure(Series::Clean)] + (if nll {
        seq![Task::Measure(Series::Nll)]
    } else {
        Seq::empty()
    }) + seq![Task::Measure(Series::IncrementalStart), Task::Measure(Series::IncrementalClean)]
}

proof fn lemma_occurrences_fixed(nll: bool, series: Series)
    ensures
        occurrences(fixed_tasks(nll), Task::Measure(series)) == (match series {
            Series::Patched(_) => 0nat,
            Series::Nll => if nll {
                1nat
            } else {
                0nat
            },
            _ => 1nat,
        }),
{
    let task = Task::Measure(series);
    let copy = seq![Task::Copy];
    let clean = seq![Task::Measure(Series::Clean)];
    let new = if nll {
        seq![Task::Measure(Series::Nll)]
    } else {
        Seq::empty()
    };
    let start = seq![Task::Measure(Series::IncrementalStart)];
    let unchanged = seq![Task::Measure(Series::IncrementalClean)];
    assert(fixed_tasks(nll) =~= copy + clean + new + start + unchanged);
    lemma_occurrences_add(copy + clean + new + start, unchanged, task);
    lemma_occurrences_add(copy + clean + new, start, task);
    lemma_occurrences_add(copy + clean, new, task);
    lemma_occurrences_add(copy, clean, task);
    assert forall|t: Task| #[trigger] occurrences(seq![t], task) == (if t == task {
        1nat
    } else {
        0nat
    }) by {
        assert(seq![t].drop_last() =~= Seq::<Task>::empty());
        reveal_with_fuel(occurrences, 2);
    }
    assert(occurrences(Seq::<Task>::empty(), task) == 0);
}

/// How often a state is measured for one kind of build.
proof fn lemma_occurrences_block(iterations: nat, nll: bool, patches: nat, series: Series)
    requires
        patches <= usize::MAX,
    ensures
        occurrences(
            schedule::block_tasks(iterations, nll, patches),
            Task::Measure(series),
        ) == (match series {
            Series::Patched(i) => if i < patches {
                iterations
            } else {
                0nat
            },
            Series::Nll => if nll {
                iterations
            } else {
                0nat
            },
            _ => iterations,
        }),
{
    let task = Task::Measure(series);
    let tasks = schedule::iteration_tasks(nll, patches);
    let head = seq![Task::Prepare, Task::Build];
    assert(tasks =~= fixed_tasks(nll) + schedule::patch_tasks(patches));
    lemma_occurrences_fixed(nll, series);
    lemma_occurrences_patch_tasks(patches, series);
    lemma_occurrences_add(fixed_tasks(nll), schedule::patch_tasks(patches), task);
    lemma_occurrences_repeated(tasks, iterations, task);
    lemma_occurrences_add(head, schedule::repeated(tasks, iterations), task);
    assert(head.drop_last() =~= seq![Task::Prepare]);
    assert(head.drop_last().drop_last() =~= Seq::<Task>::empty());
    reveal_with_fuel(occurrences, 3);
    assert(occurrences(head, task) == 0);
}

proof fn lemma_measured_in_len(tasks: Seq<Task>, events: Seq<EventView>, series: Series)
    ensures
        measured_in(tasks, events, series).len() == occurrences(tasks, Task::Measure(series)),
    decreases tasks.len(),
{
    if tasks.len() > 0 {
        lemma_measured_in_len(tasks.drop_last(), events.drop_last(), series);
    }
}

proof fn lemma_patched_add(
    a: Seq<Task>,
    b: Seq<Task>,
    ea: Seq<EventView>,
    eb: Seq<EventView>,
    patches: Seq<Seq<u8>>,
)
    requires
        a.len() == ea.len(),
        b.len() == eb.len(),
    ensures
        measured_patched(a + b, ea + eb, patches) == measured_patched(a, ea, patches)
            + measured_patched(b, eb, patches),
    decreases b.len(),
{
    if b.len() == 0 {
        assert(a + b =~= a);
        assert(ea + eb =~= ea);
        assert(measured_patched(a, ea, patches) + measured_patched(b, eb, patches)
            =~= measured_patched(a, ea, patches));
    } else {
        lemma_patched_add(a, b.drop_last(), ea, eb.drop_last(), patches);
        assert((a + b).drop_last() =~= a + b.drop_last());
        assert((ea + eb).drop_last() =~= ea + eb.drop_last());
        assert(measured_patched(a + b, ea + eb, patches) =~= measured_patched(a, ea, patches)
            + measured_patched(b, eb, patches));
    }
}

/// Every patch that something is measured after is one of the patches.
proof fn lemma_patched_keys(tasks: Seq<Task>, events: Seq<EventView>, patches: Seq<Seq<u8>>)
    requires
        forall|i: int| 0 <= i < tasks.len() ==> schedule::inner(#[trigger] tasks[i], patches.len()),
    ensures
        forall|i: int|
            0 <= i < measured_patched(tasks, events, patches).len() ==> patches.contains(
                (#[trigger] measured_patched(tasks, events, patches)[i]).0,
            ),
    decreases tasks.len(),
{
    if tasks.len() > 0 {
        lemma_patched_keys(tasks.drop_last(), events.drop_last(), patches);
        let n = tasks.len() - 1;
        assert(schedule::inner(tasks[n], patches.len()));
        let before = measured_patched(tasks.drop_last(), events.drop_last(), patches);
        let all = measured_patched(tasks, events, patches);
        assert forall|i: int| 0 <= i < all.len() implies patches.contains(
            (#[trigger] all[i]).0,
        ) by {
            if i < before.len() {
                assert(all[i] == before[i]);
            }
        }
    }
}

proof fn lemma_keys_known<K, V>(a: Seq<(K, V)>, b: Seq<(K, V)>)
    requires
        forall|i: int| 0 <= i < b.len() ==> group::keys(a).contains((#[trigger] b[i]).0),
    ensures
        group::keys(a + b) == group::keys(a),
    decreases b.len(),
{
    if b.len() == 0 {
        assert(a + b =~= a);
    } else {
        let before = b.drop_last();
        assert forall|i: int| 0 <= i < before.len() implies group::keys(a).contains(
            (#[trigger] before[i]).0,
        ) by {
            assert(before[i] == b[i]);
        }
        lemma_keys_known(a, before);
        assert((a + b).drop_last() =~= a + before);
        assert(group::keys(a).contains(b[b.len() - 1].0));
    }
}

proof fn lemma_keys_of_patch_tasks(n: nat, events: Seq<EventView>, patches: Seq<Seq<u8>>)
    requires
        n <= patches.len() <= usize::MAX,
        patches.no_duplicates(),
        events.len() == schedule::patch_tasks(n).len(),
    ensures
        group::keys(measured_patched(schedule::patch_tasks(n), events, patches)) == patches.take(
            n as int,
        ),
    decreases n,
{
    let tasks = schedule::patch_tasks(n);
    if n == 0 {
        assert(patches.take(0) =~= Seq::empty());
    } else {
        let m = (n - 1) as nat;
        let last = m as usize;
        let before = schedule::patch_tasks(m);
        let k = before.len() as int;
        lemma_keys_of_patch_tasks(m, events.take(k), patches);
        let items = measured_patched(before, events.take(k), patches);
        assert(tasks.drop_last().drop_last() =~= before);
        assert(events.drop_last().drop_last() =~= events.take(k));
        assert(tasks.drop_last().last() == Task::ApplyPatch(last));
        assert(tasks.last() == Task::Measure(Series::Patched(last)));
        assert(measured_patched(tasks.drop_last(), events.drop_last(), patches) == items);
        let all = measured_patched(tasks, events, patches);
        assert(all == items.push((patches[m as int], events.last()->Measured_0)));
        assert(all.drop_last() =~= items);
        assert(!patches.take(m as int).contains(patches[m as int]));
        assert(patches.take(n as int) =~= patches.take(m as int).push(patches[m as int]));
    }
}

/// With no patch twice, what was measured after a patch is what was measured in
/// the state that the patch at its place stands for.
proof fn lemma_values_of_patch(
    tasks: Seq<Task>,
    events: Seq<EventView>,
    patches: Seq<Seq<u8>>,
    i: usize,
)
    requires
        patches.no_duplicates(),
        i < patches.len(),
        forall|j: int| 0 <= j < tasks.len() ==> known(#[trigger] tasks[j], patches.len()),
    ensures
        group::values(measured_patched(tasks, events, patches), patches[i as int]) == measured_in(
            tasks,
            events,
            Series::Patched(i),
        ),
    decreases tasks.len(),
{
    if tasks.len() > 0 {
        let before = tasks.drop_last();
        assert forall|j: int| 0 <= j < before.len() implies known(
            #[trigger] before[j],
            patches.len(),
        ) by {
            assert(before[j] == tasks[j]);
        }
        lemma_values_of_patch(before, events.drop_last(), patches, i);
        let items = measured_patched(before, events.drop_last(), patches);
        if let Task::Measure(Series::Patched(k)) = tasks.last() {
            assert(known(tasks[tasks.len() - 1], patches.len()));
            let all = measured_patched(tasks, events, patches);
            assert(all.drop_last() =~= items);
            assert(patches[k as int] == patches[i as int] ==> k == i);
        }
    }
}

/// Whether the task speaks of a patch that there is, if it speaks of one.
spec fn known(task: Task, patches: nat) -> bool {
    task matches Task::Measure(Series::Patched(i)) ==> i < patches
}

/// How many states are measured besides those after patches.
pub open spec fn plain_states(nll: bool) -> int {
    if nll {
        4
    } else {
        3
    }
}

/// For each kind of build, every state is measured as often as there are
/// iterations: the two plain ones, the two incremental ones, and one for each
/// patch, in the order of the patches. Without the new borrow checker that is one
/// state less. Under each state stands what was measured in it.
pub proof fn law_every_state_measured(
    iterations: nat,
    nll: bool,
    patches: Seq<Seq<u8>>,
    events: Seq<EventView>,
)
    requires
        iterations > 0,
        patches.no_duplicates(),
        patches.len() <= usize::MAX,
        events.len() == schedule::block_tasks(iterations, nll, patches.len()).len(),
    ensures
        ({
            let block = schedule::block_tasks(iterations, nll, patches.len());
            let states = block_results(block, events, patches).states(nll);
            let plain = plain_states(nll);
            &&& states.len() == plain + patches.len()
            &&& states[0].0 is Clean
            &&& nll ==> states[1].0 is Nll
            &&& states[plain - 2].0 is IncrementalStart
            &&& states[plain - 1].0 is IncrementalClean
            &&& forall|j: int|
                plain <= j < states.len() ==> (#[trigger] states[j]).0
                    == stats::StateView::IncrementalPatched(patches[j - plain])
            &&& forall|j: int| 0 <= j < states.len() ==> (#[trigger] states[j]).1.len() == iterations
            &&& states[0].1 == measured_in(block, events, Series::Clean)
            &&& nll ==> states[1].1 == measured_in(block, events, Series::Nll)
            &&& states[plain - 2].1 == measured_in(block, events, Series::IncrementalStart)
            &&& states[plain - 1].1 == measured_in(block, events, Series::IncrementalClean)
            &&& forall|j: int|
                plain <= j < states.len() ==> (#[trigger] states[j]).1 == measured_in(
                    block,
                    events,
                    Series::Patched((j - plain) as usize),
                )
        }),
{
    let n = patches.len();
    let block = schedule::block_tasks(iterations, nll, n);
    let results = block_results(block, events, patches);
    let states = results.states(nll);
    let plain = plain_states(nll);
    assert forall|series: Series| #[trigger]
        measured_in(block, events, series).len() == occurrences(
            block,
            Task::Measure(series),
        ) by {
        lemma_measured_in_len(block, events, series);
    }
    lemma_occurrences_block(iterations, nll, n, Series::Clean);
    lemma_occurrences_block(iterations, nll, n, Series::Nll);
    lemma_occurrences_block(iterations, nll, n, Series::IncrementalStart);
    lemma_occurrences_block(iterations, nll, n, Series::IncrementalClean);

    // The patches, in their order, are the keys of what was measured after them.
    let items = measured_patched(block, events, patches);
    let tasks = schedule::iteration_tasks(nll, n);
    let lead = seq![Task::Prepare, Task::Build] + fixed_tasks(nll);
    let each = schedule::patch_tasks(n);
    let others = schedule::repeated(tasks, (iterations - 1) as nat);
    assert(block =~= lead + each + others);
    let k = lead.len() as int;
    let l = k + each.len();
    let e1 = events.take(k);
    let e2 = events.subrange(k, l);
    let e3 = events.skip(l);
    assert(events =~= e1 + e2 + e3);
    lemma_patched_add(lead + each, others, e1 + e2, e3, patches);
    lemma_patched_add(lead, each, e1, e2, patches);
    lemma_lead_has_no_patches(nll, e1, patches);
    let first = measured_patched(each, e2, patches);
    let later = measured_patched(others, e3, patches);
    assert(items =~= first + later);
    lemma_keys_of_patch_tasks(n, e2, patches);
    assert(patches.take(n as int) =~= patches);
    lemma_iteration_inner(nll, n);
    lemma_repeated_inner(tasks, (iterations - 1) as nat, n);
    lemma_patched_keys(others, e3, patches);
    lemma_keys_known(first, later);
    assert(group::keys(items) == patches);

    // What was measured after each.
    lemma_patch_tasks(n);
    assert forall|j: int| 0 <= j < block.len() implies known(#[trigger] block[j], n) by {
        if j >= l {
            assert(block[j] == others[j - l]);
            assert(schedule::inner(others[j - l], n));
        } else if j >= k {
            assert(block[j] == each[j - k]);
            assert(schedule::inner(each[j - k], n));
        }
    }
    assert forall|j: int| 0 <= j < n implies (#[trigger] results.patched[j]).0 == patches[j]
        && results.patched[j].1.len() == iterations && results.patched[j].1 == measured_in(
        block,
        events,
        Series::Patched(j as usize),
    ) by {
        lemma_values_of_patch(block, events, patches, j as usize);
        lemma_occurrences_block(iterations, nll, n, Series::Patched(j as usize));
    }
    assert forall|j: int| plain <= j < states.len() implies (#[trigger] states[j]) == (
        stats::StateView::IncrementalPatched(patches[j - plain]),
        results.patched[j - plain].1,
    ) by {
        assert(results.patched[j - plain].0 == patches[j - plain]);
    }
    assert forall|j: int| 0 <= j < states.len() implies (#[trigger] states[j]).1.len()
        == iterations by {
        if j >= plain {
            assert(results.patched[j - plain].1.len() == iterations);
        }
    }
}

proof fn lemma_iteration_inner(nll: bool, patches: nat)
    requires
        patches <= usize::MAX,
    ensures
        forall|i: int|
            0 <= i < schedule::iteration_tasks(nll, patches).len() ==> schedule::inner(
                #[trigger] schedule::iteration_tasks(nll, patches)[i],
                patches,
            ),
{
    lemma_patch_tasks(patches);
    let tasks = schedule::iteration_tasks(nll, patches);
    let fixed = tasks.len() - schedule::patch_tasks(patches).len();
    assert forall|i: int| 0 <= i < tasks.len() implies schedule::inner(
        #[trigger] tasks[i],
        patches,
    ) by {
        if i >= fixed {
            assert(tasks[i] == schedule::patch_tasks(patches)[i - fixed]);
        }
    }
}

proof fn lemma_lead_has_no_patches(nll: bool, events: Seq<EventView>, patches: Seq<Seq<u8>>)
    ensures
        measured_patched(
            seq![Task::Prepare, Task::Build] + fixed_tasks(nll),
            events,
            patches,
        ).len() == 0,
{
    lemma_no_patches(seq![Task::Prepare, Task::Build] + fixed_tasks(nll), events, patches);
}

proof fn lemma_no_patches(tasks: Seq<Task>, events: Seq<EventView>, patches: Seq<Seq<u8>>)
    requires
        forall|i: int| 0 <= i < tasks.len() ==> known(#[trigger] tasks[i], 0),
    ensures
        measured_patched(tasks, events, patches).len() == 0,
    decreases tasks.len(),
{
    if tasks.len() > 0 {
        lemma_no_patches(tasks.drop_last(), events.drop_last(), patches);
        assert(known(tasks[tasks.len() - 1], 0));
    }
}

proof fn lemma_report_count(
    benchmark: Benchmark,
    kinds: Seq<BuildKind>,
    iterations: nat,
    events: Seq<EventView>,
)
    requires
        iterations > 0,
        patch::patch_paths(benchmark.patches@).no_duplicates(),
        events.len() == schedule::schedule(
            kinds,
            schedule::block_tasks(iterations, benchmark.config.nll, benchmark.patches@.len()),
        ).len(),
    ensures
        all_reports(
            benchmark,
            kinds,
            schedule::block_tasks(iterations, benchmark.config.nll, benchmark.patches@.len()),
            events,
        ).len() == kinds.len() * (plain_states(benchmark.config.nll) + benchmark.patches@.len()),
    decreases kinds.len(),
{
    let nll = benchmark.config.nll;
    let patches = patch::patch_paths(benchmark.patches@);
    let block = schedule::block_tasks(iterations, nll, patches.len());
    let each = plain_states(nll) + patches.len();
    assert(benchmark.patches@.len() == benchmark.patches.len());
    if kinds.len() > 0 {
        let n = block.len() as int;
        law_every_state_measured(iterations, nll, patches, events.take(n));
        lemma_report_count(benchmark, kinds.drop_first(), iterations, events.skip(n));
        assert(each + (kinds.len() - 1) * each == kinds.len() * each) by (nonlinear_arith);
    } else {
        assert(0 * each == 0) by (nonlinear_arith);
    }
}

/// Once every task is done, every kind of build has a report for each of its
/// states.
pub proof fn law_report_count(
    benchmark: Benchmark,
    rustc_path: Seq<u8>,
    cargo_path: Seq<u8>,
    iterations: nat,
    mode: Mode,
    events: Seq<EventView>,
)
    requires
        measure::rounds(benchmark, iterations) > 0,
        patch::patch_paths(benchmark.patches@).no_duplicates(),
        ({
            let todo = measure::started(benchmark, rustc_path, cargo_path, iterations, mode).todo;
            &&& events.len() == todo.len()
            &&& forall|i: int|
                0 <= i < events.len() ==> measure::answers(#[trigger] events[i], todo[i].1)
        }),
    ensures
        play(
            measure::started(benchmark, rustc_path, cargo_path, iterations, mode),
            events,
        ).runs.len() == mode.kinds().len() * (plain_states(benchmark.config.nll)
            + benchmark.patches@.len()),
{
    law_measured_is_reported(benchmark, rustc_path, cargo_path, iterations, mode, events);
    lemma_report_count(
        benchmark,
        mode.kinds(),
        measure::rounds(benchmark, iterations),
        events,
    );
}

/// What was measured in a state over some tasks, then others, is what was measured in it
/// over the first and then over the second.
pub proof fn law_measured_in_parts(
    a: Seq<Task>,
    ea: Seq<EventView>,
    b: Seq<Task>,
    eb: Seq<EventView>,
    series: Series,
)
    requires
        a.len() == ea.len(),
        b.len() == eb.len(),
    ensures
        measured_in(a + b, ea + eb, series) == measured_in(a, ea, series) + measured_in(
            b,
            eb,
            series,
        ),
    decreases b.len(),
{
    if b.len() == 0 {
        assert(a + b =~= a);
        assert(ea + eb =~= ea);
        assert(measured_in(a, ea, series) + measured_in(b, eb, series) =~= measured_in(
            a,
            ea,
            series,
        ));
    } else {
        law_measured_in_parts(a, ea, b.drop_last(), eb.drop_last(), series);
        assert((a + b).drop_last() =~= a + b.drop_last());
        assert((ea + eb).drop_last() =~= ea + eb.drop_last());
        assert(measured_in(a + b, ea + eb, series) =~= measured_in(a, ea, series) + measured_in(
            b,
            eb,
            series,
        ));
    }
}

/// A single task measures the state that it names and no other.
pub proof fn law_measured_by_one(task: Task, found: Seq<stats::StatView>, series: Series)
    ensures
        measured_in(seq![task], seq![EventView::Measured(found)], series) == (if task
            == Task::Measure(series) {
            seq![found]
        } else {
            Seq::empty()
        }),
{
    let tasks = seq![task];
    let events = seq![EventView::Measured(found)];
    assert(tasks.drop_last() =~= Seq::<Task>::empty());
    assert(measured_in(tasks.drop_last(), events.drop_last(), series) =~= Seq::empty());
    assert(events.last() == EventView::Measured(found));
    if task == Task::Measure(series) {
        assert(measured_in(tasks, events, series) =~= seq![found]);
    }
}

} // verus!
