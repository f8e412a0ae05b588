//! Measured values, and what is reported of repeated measurements.
use crate::cargo::BuildKind;
use crate::group;
use crate::patch::Patch;
use vstd::multiset::Multiset;
use vstd::prelude::*;

verus! {

/// A measured value: a double-precision number, held as its IEEE 754 bits.
#[derive(Clone, Copy, Debug, PartialEq, Eq, Structural)]
pub struct Count {
    pub bits: u64,
}

/// The bit that holds the sign.
pub const SIGN: u64 = 0x8000_0000_0000_0000;

/// Positive infinity. What is larger without its sign is not a number.
pub const INFINITY: u64 = 0x7ff0_0000_0000_0000;

impl Count {
    /// The bits below the sign.
    pub open spec fn magnitude(self) -> int {
        if self.bits < SIGN {
            self.bits as int
        } else {
            self.bits - SIGN
        }
    }

    /// Whether this is no number at all.
    pub open spec fn is_nan(self) -> bool {
        self.magnitude() > INFINITY
    }

    /// An integer by which numbers are ordered; the two zeros share theirs.
    pub open spec fn rank(self) -> int {
        if self.bits < SIGN {
            self.magnitude()
        } else {
            -self.magnitude()
        }
    }

    /// The lesser of two values: what is not a number gives way to the other,
    /// and among equals the first one stays.
    pub open spec fn lesser(self, other: Count) -> Count {
        if self.is_nan() {
            other
        } else if !other.is_nan() && other.rank() < self.rank() {
            other
        } else {
            self
        }
    }

    /// The lesser of two values.
    pub fn min(self, other: Count) -> (least: Count)
        ensures
            least == self.lesser(other),
    {
        let a: u64 = if self.bits < SIGN { self.bits } else { self.bits - SIGN };
        let b: u64 = if other.bits < SIGN { other.bits } else { other.bits - SIGN };
        if a > INFINITY {
            return other;
        }
        if b > INFINITY {
            return self;
        }
        let below = if self.bits < SIGN {
            if other.bits < SIGN {
                b < a
            } else {
                b > 0 || a > 0
            }
        } else {
            other.bits >= SIGN && b > a
        };
        if below {
            other
        } else {
            self
        }
    }
}

/// The least of the values; infinity when none of them is a number.
pub open spec fn least(counts: Seq<Count>) -> Count
    decreases counts.len(),
{
    if counts.len() == 0 {
        Count { bits: INFINITY }
    } else {
        least(counts.drop_last()).lesser(counts.last())
    }
}

/// The least of the values.
pub fn least_of(counts: &Vec<Count>) -> (count: Count)
    ensures
        count == least(counts@),
{
    let mut count = Count { bits: INFINITY };
    let mut i: usize = 0;
    while i < counts.len()
        invariant
            i <= counts.len(),
            count == least(counts@.take(i as int)),
        decreases counts.len() - i,
    {
        assert(counts@.take(i + 1).drop_last() == counts@.take(i as int));
        count = count.min(counts[i]);
        i += 1;
    }
    assert(counts@.take(counts.len() as int) == counts@);
    count
}

/// The least value is a number not above any number among the values, and is
/// one of them or, where they hold no number below it, infinity.
pub proof fn law_least(counts: Seq<Count>)
    ensures
        !least(counts).is_nan(),
        forall|i: int|
            0 <= i < counts.len() && !(#[trigger] counts[i]).is_nan() ==> least(counts).rank()
                <= counts[i].rank(),
        counts.contains(least(counts)) || least(counts) == (Count { bits: INFINITY }),
    decreases counts.len(),
{
    if counts.len() > 0 {
        let before = counts.drop_last();
        law_least(before);
        assert(counts[counts.len() - 1] == counts.last());
        assert forall|i: int|
            0 <= i < counts.len() && !(#[trigger] counts[i]).is_nan() implies least(counts).rank()
            <= counts[i].rank() by {
            if i < before.len() {
                assert(before[i] == counts[i]);
            }
        }
        if before.contains(least(before)) {
            let j = before.index_of(least(before));
            assert(counts[j] == least(before));
        }
    }
}

/// A named value.
#[derive(Debug)]
pub struct Stat {
    pub name: String,
    pub cnt: Count,
}

/// A named value.
pub struct StatView {
    pub name: Seq<char>,
    pub cnt: Count,
}

impl View for Stat {
    type V = StatView;

    open spec fn view(&self) -> StatView {
        StatView { name: self.name@, cnt: self.cnt }
    }
}

/// What state a benchmark was built in.
#[derive(Debug)]
pub enum BenchmarkState {
    /// From scratch.
    Clean,
    /// From scratch, with the new borrow checker.
    Nll,
    /// Incrementally, with nothing to start from.
    IncrementalStart,
    /// Incrementally, with nothing changed.
    IncrementalClean,
    /// Incrementally, after a patch.
    IncrementalPatched(Patch),
}

/// What state a benchmark was built in.
pub enum StateView {
    Clean,
    Nll,
    IncrementalStart,
    IncrementalClean,
    IncrementalPatched(Seq<u8>),
}

impl View for BenchmarkState {
    type V = StateView;

    open spec fn view(&self) -> StateView {
        match self {
            BenchmarkState::Clean => StateView::Clean,
            BenchmarkState::Nll => StateView::Nll,
            BenchmarkState::IncrementalStart => StateView::IncrementalStart,
            BenchmarkState::IncrementalClean => StateView::IncrementalClean,
            BenchmarkState::IncrementalPatched(patch) => StateView::IncrementalPatched(patch@),
        }
    }
}

/// The values reported for one build kind and state.
#[derive(Debug)]
pub struct Run {
    pub stats: Vec<Stat>,
    pub check: bool,
    pub release: bool,
    pub state: BenchmarkState,
}

/// The values reported for one build kind and state.
#[verifier::ext_equal]
pub struct RunView {
    pub stats: Seq<StatView>,
    pub check: bool,
    pub release: bool,
    pub state: StateView,
}

impl View for Run {
    type V = RunView;

    open spec fn view(&self) -> RunView {
        RunView {
            stats: stat_views(self.stats@),
            check: self.check,
            release: self.release,
            state: self.state@,
        }
    }
}

/// The contents of a list of values.
pub open spec fn stat_views(stats: Seq<Stat>) -> Seq<StatView> {
    stats.map_values(|s: Stat| s@)
}

/// The contents of the values of several measurements.
pub open spec fn run_stats(runs: Seq<Vec<Stat>>) -> Seq<Seq<StatView>> {
    runs.map_values(|r: Vec<Stat>| stat_views(r@))
}

/// The contents of a list of reports.
pub open spec fn run_views(runs: Seq<Run>) -> Seq<RunView> {
    runs.map_values(|r: Run| r@)
}

/// The values of one measurement under their names.
pub open spec fn named(stats: Seq<StatView>) -> Seq<(Seq<char>, Count)> {
    stats.map_values(|s: StatView| (s.name, s.cnt))
}

/// The values of all measurements under their names, in order.
pub open spec fn readings(runs: Seq<Seq<StatView>>) -> Seq<(Seq<char>, Count)>
    decreases runs.len(),
{
    if runs.len() == 0 {
        Seq::empty()
    } else {
        readings(runs.drop_last()) + named(runs.last())
    }
}

/// The names of the values of one measurement.
pub open spec fn stat_names(stats: Seq<StatView>) -> Seq<Seq<char>> {
    stats.map_values(|s: StatView| s.name)
}

/// Whether there are stats, and all of them are present in all measurements,
/// equally often over all.
pub open spec fn all_present(runs: Seq<Seq<StatView>>) -> bool {
    let found = group::groups(readings(runs));
    &&& found.len() > 0
    &&& forall|i: int, j: int|
        0 <= i < found.len() && 0 <= j < found.len() ==> (#[trigger] found[i]).1.len() == (
        #[trigger] found[j]).1.len()
    &&& forall|i: int, j: int|
        0 <= i < found.len() && 0 <= j < runs.len() ==> stat_names(#[trigger] runs[j]).contains(
            (#[trigger] found[i]).0,
        )
}

/// The least value under each name, the names in the order in which they first
/// appear.
pub open spec fn least_stats(runs: Seq<Seq<StatView>>) -> Seq<StatView> {
    group::groups(readings(runs)).map_values(
        |g: (Seq<char>, Seq<Count>)| StatView { name: g.0, cnt: least(g.1) },
    )
}

/// What is reported of the measurements made in one build kind and state.
pub open spec fn reported(
    build_kind: BuildKind,
    state: StateView,
    runs: Seq<Seq<StatView>>,
) -> RunView {
    RunView {
        stats: least_stats(runs),
        check: build_kind == BuildKind::Check,
        release: build_kind == BuildKind::Opt,
        state,
    }
}

/// The values that share a name.
#[derive(Debug)]
pub struct Group {
    pub name: String,
    pub counts: Vec<Count>,
}

/// The contents of a list of groups.
pub open spec fn group_views(v: Seq<Group>) -> Seq<(Seq<char>, Seq<Count>)> {
    v.map_values(|g: Group| (g.name@, g.counts@))
}

/// Puts a value into the group of its name, or into a new group.
fn insert_stat(groups: &mut Vec<Group>, stat: &Stat)
    ensures
        group_views(final(groups)@) == group::inserted(
            group_views(old(groups)@),
            stat.name@,
            stat.cnt,
        ),
{
    let ghost before = group_views(groups@);
    let mut i: usize = 0;
    while i < groups.len() && groups[i].name != stat.name
        invariant
            i <= groups.len(),
            before == group_views(groups@),
            forall|j: int| 0 <= j < i ==> (#[trigger] before[j]).0 != stat.name@,
        decreases groups.len() - i,
    {
        i += 1;
    }
    if i < groups.len() {
        proof {
            assert(before[i as int].0 == stat.name@);
            assert(group::is_group_of(before, stat.name@, i as int));
            assert forall|j: int| group::is_group_of(before, stat.name@, j) implies j == i by {
                if j > i {
                    assert(before[i as int].0 != stat.name@);
                }
            }
        }
        groups[i].counts.push(stat.cnt);
        assert(group_views(groups@) =~= before.update(
            i as int,
            (stat.name@, before[i as int].1.push(stat.cnt)),
        ));
    } else {
        let mut counts: Vec<Count> = Vec::new();
        counts.push(stat.cnt);
        assert(counts@ =~= seq![stat.cnt]);
        groups.push(Group { name: stat.name.clone(), counts });
        assert(group_views(groups@) =~= before.push((stat.name@, seq![stat.cnt])));
    }
}

/// The values of the measurements, grouped by name.
pub fn group_stats(runs: &Vec<Vec<Stat>>) -> (groups: Vec<Group>)
    ensures
        group_views(groups@) == group::groups(readings(run_stats(runs@))),
{
    let ghost all = run_stats(runs@);
    let mut groups: Vec<Group> = Vec::new();
    let mut i: usize = 0;
    assert(group_views(groups@) =~= group::groups(readings(all.take(0))));
    while i < runs.len()
        invariant
            i <= runs.len(),
            all == run_stats(runs@),
            group_views(groups@) == group::groups(readings(all.take(i as int))),
        decreases runs.len() - i,
    {
        let run = &runs[i];
        let ghost items = named(stat_views(run@));
        let ghost before = readings(all.take(i as int));
        let mut j: usize = 0;
        assert(before + items.take(0) =~= before);
        while j < run.len()
            invariant
                j <= run.len(),
                items == named(stat_views(run@)),
                group_views(groups@) == group::groups(before + items.take(j as int)),
            decreases run.len() - j,
        {
            proof {
                assert(items[j as int] == (run@[j as int].name@, run@[j as int].cnt));
                assert(before + items.take(j + 1) =~= (before + items.take(j as int)).push(
                    items[j as int],
                ));
                group::law_insert_groups(
                    before + items.take(j as int),
                    run@[j as int].name@,
                    run@[j as int].cnt,
                );
            }
            insert_stat(&mut groups, &run[j]);
            j += 1;
        }
        proof {
            assert(items.take(run.len() as int) =~= items);
            assert(all.take(i + 1).drop_last() == all.take(i as int));
            assert(all.take(i + 1).last() == stat_views(run@));
        }
        i += 1;
    }
    assert(all.take(runs.len() as int) == all);
    groups
}

/// Whether a measurement has a stat of this name.
fn has_stat(stats: &Vec<Stat>, name: &String) -> (yes: bool)
    ensures
        yes == stat_names(stat_views(stats@)).contains(name@),
{
    let ghost names = stat_names(stat_views(stats@));
    let mut i: usize = 0;
    while i < stats.len()
        invariant
            i <= stats.len(),
            names == stat_names(stat_views(stats@)),
            forall|j: int| 0 <= j < i ==> #[trigger] names[j] != name@,
        decreases stats.len() - i,
    {
        assert(names[i as int] == stats@[i as int].name@);
        if stats[i].name == *name {
            return true;
        }
        i += 1;
    }
    false
}

/// Whether every measurement has a stat of this name.
fn in_every_run(runs: &Vec<Vec<Stat>>, name: &String) -> (yes: bool)
    ensures
        yes == forall|j: int|
            0 <= j < runs@.len() ==> stat_names(#[trigger] run_stats(runs@)[j]).contains(name@),
{
    let ghost all = run_stats(runs@);
    let mut i: usize = 0;
    while i < runs.len()
        invariant
            i <= runs.len(),
            all == run_stats(runs@),
            forall|j: int| 0 <= j < i ==> stat_names(#[trigger] all[j]).contains(name@),
        decreases runs.len() - i,
    {
        assert(all[i as int] == stat_views(runs@[i as int]@));
        if !has_stat(&runs[i], name) {
            return false;
        }
        i += 1;
    }
    true
}

/// Whether there are stats, and all of them are present in all measurements,
/// equally often over all.
pub fn stats_present(runs: &Vec<Vec<Stat>>) -> (present: bool)
    ensures
        present == all_present(run_stats(runs@)),
{
    let groups = group_stats(runs);
    let ghost all = run_stats(runs@);
    let ghost found = group_views(groups@);
    if groups.len() == 0 {
        return false;
    }
    let first: usize = groups[0].counts.len();
    assert(found[0].1.len() == first);
    let mut i: usize = 0;
    while i < groups.len()
        invariant
            i <= groups.len(),
            0 < groups.len(),
            all == run_stats(runs@),
            found == group_views(groups@),
            found == group::groups(readings(all)),
            first == found[0].1.len(),
            forall|j: int| 0 <= j < i ==> (#[trigger] found[j]).1.len() == first,
            forall|j: int, k: int|
                0 <= j < i && 0 <= k < all.len() ==> stat_names(#[trigger] all[k]).contains(
                    (#[trigger] found[j]).0,
                ),
        decreases groups.len() - i,
    {
        assert(found[i as int] == (groups@[i as int].name@, groups@[i as int].counts@));
        if groups[i].counts.len() != first {
            assert(found[0].1.len() != found[i as int].1.len());
            return false;
        }
        if !in_every_run(runs, &groups[i].name) {
            let ghost k = choose|k: int|
                0 <= k < all.len() && !stat_names(#[trigger] all[k]).contains(
                    found[i as int].0,
                );
            assert(!stat_names(all[k]).contains(found[i as int].0));
            return false;
        }
        i += 1;
    }
    true
}

/// Reports the least value of each stat over the measurements. All stats have to
/// be present in all of them.
pub fn process_stats(build_kind: BuildKind, state: BenchmarkState, runs: Vec<Vec<Stat>>) -> (run:
    Run)
    requires
        all_present(run_stats(runs@)),
    ensures
        run@ == reported(build_kind, state@, run_stats(runs@)),
        run.check == (build_kind == BuildKind::Check),
        run.release == (build_kind == BuildKind::Opt),
        run.state == state,
{
    let groups = group_stats(&runs);
    let ghost expected = least_stats(run_stats(runs@));
    let mut stats: Vec<Stat> = Vec::new();
    let mut i: usize = 0;
    while i < groups.len()
        invariant
            i <= groups.len(),
            group_views(groups@) == group::groups(readings(run_stats(runs@))),
            expected == least_stats(run_stats(runs@)),
            stat_views(stats@) == expected.take(i as int),
        decreases groups.len() - i,
    {
        let ghost before = stat_views(stats@);
        let stat = Stat { name: groups[i].name.clone(), cnt: least_of(&groups[i].counts) };
        assert(group_views(groups@)[i as int] == (stat.name@, groups@[i as int].counts@));
        assert(expected[i as int] == stat@);
        stats.push(stat);
        assert(stat_views(stats@) =~= before.push(stat@));
        i += 1;
    }
    assert(expected.take(groups.len() as int) =~= expected);
    let check = match build_kind {
        BuildKind::Check => true,
        _ => false,
    };
    let release = match build_kind {
        BuildKind::Opt => true,
        _ => false,
    };
    Run { stats, check, release, state }
}

/// A report names each stat once, and it names just the stats that were measured.
pub proof fn law_report_names(runs: Seq<Seq<StatView>>, name: Seq<char>)
    ensures
        forall|i: int, j: int|
            0 <= i < j < least_stats(runs).len() ==> (#[trigger] least_stats(runs)[i]).name != (
            #[trigger] least_stats(runs)[j]).name,
        (exists|i: int| 0 <= i < least_stats(runs).len() && #[trigger] least_stats(runs)[i].name == name)
            <==> (exists|i: int|
            0 <= i < readings(runs).len() && (#[trigger] readings(runs)[i]).0 == name),
{
    let items = readings(runs);
    let found = least_stats(runs);
    group::law_keys_distinct(items);
    group::law_key_has_item(items, name);
    assert forall|i: int| 0 <= i < found.len() implies (#[trigger] found[i]).name == group::keys(
        items,
    )[i] by {}
    if group::keys(items).contains(name) {
        let k = group::keys(items).index_of(name);
        assert(found[k].name == name);
    }
}

/// What is reported of a stat is not above any number that was measured of it.
pub proof fn law_report_is_least(runs: Seq<Seq<StatView>>, i: int, j: int)
    requires
        0 <= i < least_stats(runs).len(),
        0 <= j < readings(runs).len(),
        readings(runs)[j].0 == least_stats(runs)[i].name,
        !readings(runs)[j].1.is_nan(),
    ensures
        !least_stats(runs)[i].cnt.is_nan(),
        least_stats(runs)[i].cnt.rank() <= readings(runs)[j].1.rank(),
{
    let items = readings(runs);
    let key = least_stats(runs)[i].name;
    assert(group::keys(items)[i] == key);
    law_least(group::values(items, key));
    let k = lemma_value_kept(items, j);
    assert(group::values(items, key)[k] == items[j].1);
}

/// Every value is among those under its key.
proof fn lemma_value_kept(items: Seq<(Seq<char>, Count)>, j: int) -> (k: int)
    requires
        0 <= j < items.len(),
    ensures
        0 <= k < group::values(items, items[j].0).len(),
        group::values(items, items[j].0)[k] == items[j].1,
    decreases items.len(),
{
    let before = items.drop_last();
    if j == before.len() {
        group::values(before, items[j].0).len() as int
    } else {
        assert(before[j] == items[j]);
        lemma_value_kept(before, j)
    }
}

/// A report is of a check build or of an optimized one, never of both, and it is of
/// the state that was measured.
pub proof fn law_report_kinds(kind: BuildKind, state: StateView, runs: Seq<Seq<StatView>>)
    ensures
        reported(kind, state, runs).check <==> kind == BuildKind::Check,
        reported(kind, state, runs).release <==> kind == BuildKind::Opt,
        reported(kind, state, runs).state == state,
        !(reported(kind, state, runs).check && reported(kind, state, runs).release),
        kind == BuildKind::Debug <==> !reported(kind, state, runs).check && !reported(
            kind,
            state,
            runs,
        ).release,
{
}

/// Where every measurement has the same stats, each once, all of them are present.
pub proof fn law_same_stats_are_present(runs: Seq<Seq<StatView>>, names: Set<Seq<char>>)
    requires
        runs.len() > 0,
        exists|name: Seq<char>| names.contains(name),
        forall|i: int|
            0 <= i < runs.len() ==> stat_names(#[trigger] runs[i]).no_duplicates() && stat_names(
                runs[i],
            ).to_set() == names,
    ensures
        all_present(runs),
        forall|i: int|
            0 <= i < group::groups(readings(runs)).len() ==> (#[trigger] group::groups(
                readings(runs),
            )[i]).1.len() == runs.len(),
{
    let items = readings(runs);
    let found = group::groups(items);
    let name = choose|name: Seq<char>| names.contains(name);
    lemma_once_per_run(runs, names, name);
    group::law_key_has_item(items, name);
    assert(found.len() > 0);
    assert forall|i: int| 0 <= i < found.len() implies (#[trigger] found[i]).1.len() == runs.len()
        && names.contains(found[i].0) by {
        let key = group::keys(items)[i];
        assert(group::keys(items).contains(key));
        group::law_key_has_item(items, key);
        let j = choose|j: int| 0 <= j < items.len() && items[j].0 == key;
        lemma_reading_named(runs, names, j);
        lemma_once_per_run(runs, names, key);
    }
    assert forall|i: int, j: int| 0 <= i < found.len() && 0 <= j < runs.len() implies stat_names(
        #[trigger] runs[j],
    ).contains((#[trigger] found[i]).0) by {
        assert(stat_names(runs[j]).to_set().contains(found[i].0));
    }
}

/// Where every measurement has these stats, each once, there is one value of each
/// per measurement.
proof fn lemma_once_per_run(runs: Seq<Seq<StatView>>, names: Set<Seq<char>>, name: Seq<char>)
    requires
        names.contains(name),
        forall|i: int|
            0 <= i < runs.len() ==> stat_names(#[trigger] runs[i]).no_duplicates() && stat_names(
                runs[i],
            ).to_set() == names,
    ensures
        group::values(readings(runs), name).len() == runs.len(),
    decreases runs.len(),
{
    if runs.len() > 0 {
        let before = runs.drop_last();
        assert forall|i: int| 0 <= i < before.len() implies stat_names(
            #[trigger] before[i],
        ).no_duplicates() && stat_names(before[i]).to_set() == names by {
            assert(before[i] == runs[i]);
        }
        lemma_once_per_run(before, names, name);
        let last = runs[runs.len() - 1];
        assert(stat_names(last).to_set().contains(name));
        lemma_once(last, name);
        group::law_values_add(readings(before), named(last), name);
    }
}

/// A stat that a measurement has once has one value there; one that it does not
/// have has none.
proof fn lemma_once(stats: Seq<StatView>, name: Seq<char>)
    requires
        stat_names(stats).no_duplicates(),
    ensures
        group::values(named(stats), name).len() == (if stat_names(stats).contains(name) {
            1nat
        } else {
            0nat
        }),
    decreases stats.len(),
{
    if stats.len() > 0 {
        let before = stats.drop_last();
        let names = stat_names(stats);
        assert(stat_names(before) =~= names.drop_last());
        assert(named(before) =~= named(stats).drop_last());
        lemma_once(before, name);
        assert(names.last() == stats.last().name);
        assert(names[names.len() - 1] == stats.last().name);
        if names.drop_last().contains(name) {
            let i = names.drop_last().index_of(name);
            assert(names[i] == name);
        }
        if names.contains(name) && stats.last().name != name {
            let i = names.index_of(name);
            assert(names.drop_last()[i] == name);
        }
    }
}

/// Every value is of a stat that the measurements have.
proof fn lemma_reading_named(runs: Seq<Seq<StatView>>, names: Set<Seq<char>>, j: int)
    requires
        0 <= j < readings(runs).len(),
        forall|i: int|
            0 <= i < runs.len() ==> stat_names(#[trigger] runs[i]).to_set() == names,
    ensures
        names.contains(readings(runs)[j].0),
    decreases runs.len(),
{
    let before = runs.drop_last();
    let n = readings(before).len();
    if j < n {
        assert forall|i: int| 0 <= i < before.len() implies stat_names(
            #[trigger] before[i],
        ).to_set() == names by {
            assert(before[i] == runs[i]);
        }
        lemma_reading_named(before, names, j);
    } else {
        let last = runs[runs.len() - 1];
        assert(stat_names(last)[j - n] == readings(runs)[j].0);
        assert(stat_names(last).to_set().contains(stat_names(last)[j - n]));
    }
}

/// The values of each measurement, whatever their order in it.
pub open spec fn unordered(runs: Seq<Seq<StatView>>) -> Seq<Multiset<(Seq<char>, Count)>> {
    runs.map_values(|r: Seq<StatView>| named(r).to_multiset())
}

/// Whether two lists hold the same measurements, in whatever order they and the
/// values in each of them are.
pub open spec fn reordered(a: Seq<Seq<StatView>>, b: Seq<Seq<StatView>>) -> bool {
    unordered(a).to_multiset() == unordered(b).to_multiset()
}

/// The order of the measurements, and of the values in each of them, is without
/// effect: the same can be reported, and the same stats are, each with the same
/// value. Only where that is zero, its sign may differ.
pub proof fn law_order_is_without_effect(a: Seq<Seq<StatView>>, b: Seq<Seq<StatView>>)
    requires
        reordered(a, b),
    ensures
        all_present(a) == all_present(b),
        least_stats(a).len() == least_stats(b).len(),
        forall|i: int|
            0 <= i < least_stats(a).len() ==> is_reported(
                #[trigger] least_stats(a)[i],
                least_stats(b),
            ),
{
    lemma_reordered_readings(a, b);
    let x = readings(a);
    let y = readings(b);
    group::law_order_of_items(x, y);
    if all_present(a) {
        lemma_present_reordered(a, b);
    }
    if all_present(b) {
        lemma_present_reordered(b, a);
    }
    assert forall|i: int| 0 <= i < least_stats(a).len() implies is_reported(
        #[trigger] least_stats(a)[i],
        least_stats(b),
    ) by {
        let key = group::keys(x)[i];
        assert(group::keys(x).contains(key));
        assert(group::keys(y).contains(key));
        let j = group::keys(y).index_of(key);
        lemma_least_reordered(group::values(x, key), group::values(y, key));
        assert(same_value(least_stats(a)[i], least_stats(b)[j]));
    }
}

/// Whether two stats have the same name and the same value, the sign of a zero
/// aside.
pub open spec fn same_value(a: StatView, b: StatView) -> bool {
    a.name == b.name && (a.cnt == b.cnt || (a.cnt.rank() == 0 && b.cnt.rank() == 0))
}

/// Whether a report holds this stat.
pub open spec fn is_reported(stat: StatView, report: Seq<StatView>) -> bool {
    exists|j: int| 0 <= j < report.len() && same_value(stat, #[trigger] report[j])
}

proof fn lemma_least_reordered(a: Seq<Count>, b: Seq<Count>)
    requires
        a.to_multiset() == b.to_multiset(),
    ensures
        least(a).rank() == least(b).rank(),
        least(a) == least(b) || least(a).rank() == 0,
{
    lemma_least_not_above(a, b);
    lemma_least_not_above(b, a);
    law_least(a);
    law_least(b);
}

proof fn lemma_least_not_above(a: Seq<Count>, b: Seq<Count>)
    requires
        a.to_multiset() == b.to_multiset(),
    ensures
        least(a).rank() <= least(b).rank(),
{
    broadcast use vstd::seq_lib::group_to_multiset_ensures;
    law_least(a);
    law_least(b);
    if b.contains(least(b)) {
        assert(b.to_multiset().count(least(b)) > 0);
        assert(a.contains(least(b)));
        let i = a.index_of(least(b));
        assert(a[i] == least(b));
    }
}

/// What can be reported can be reported in any order.
proof fn lemma_present_reordered(a: Seq<Seq<StatView>>, b: Seq<Seq<StatView>>)
    requires
        reordered(a, b),
        readings(a).to_multiset() == readings(b).to_multiset(),
        all_present(a),
    ensures
        all_present(b),
{
    broadcast use vstd::seq_lib::group_to_multiset_ensures;
    let x = readings(a);
    let y = readings(b);
    let fa = group::groups(x);
    let fb = group::groups(y);
    group::law_order_of_items(x, y);
    assert forall|i: int| 0 <= i < fb.len() implies exists|j: int|
        0 <= j < fa.len() && (#[trigger] fa[j]).0 == (#[trigger] fb[i]).0 && fa[j].1.len()
            == fb[i].1.len() by {
        let key = group::keys(y)[i];
        assert(group::keys(y).contains(key));
        assert(group::keys(x).contains(key));
        let j = group::keys(x).index_of(key);
        assert(fa[j].0 == key);
        assert(group::values(x, key).to_multiset().len() == group::values(y, key).to_multiset().len());
    }
    assert forall|i: int, j: int| 0 <= i < fb.len() && 0 <= j < b.len() implies stat_names(
        #[trigger] b[j],
    ).contains((#[trigger] fb[i]).0) by {
        let m = named(b[j]).to_multiset();
        assert(unordered(b)[j] == m);
        assert(unordered(b).contains(m));
        assert(unordered(b).to_multiset().count(m) > 0);
        assert(unordered(a).contains(m));
        let k = unordered(a).index_of(m);
        assert(named(a[k]).to_multiset() == m);
        let p = choose|p: int|
            0 <= p < fa.len() && (#[trigger] fa[p]).0 == fb[i].0 && fa[p].1.len() == fb[i].1.len();
        assert(stat_names(a[k]).contains(fa[p].0));
        let q = stat_names(a[k]).index_of(fa[p].0);
        let item = named(a[k])[q];
        assert(item.0 == fb[i].0);
        assert(named(a[k]).contains(item));
        assert(named(a[k]).to_multiset().count(item) > 0);
        assert(named(b[j]).contains(item));
        let r = named(b[j]).index_of(item);
        assert(stat_names(b[j])[r] == item.0);
    }
}

/// The values of some measurements, then of others, are those of the first and then those
/// of the second.
pub proof fn law_readings_add(a: Seq<Seq<StatView>>, b: Seq<Seq<StatView>>)
    ensures
        readings(a + b) == readings(a) + readings(b),
    decreases b.len(),
{
    if b.len() == 0 {
        assert(a + b =~= a);
        assert(readings(a) + readings(b) =~= readings(a));
    } else {
        law_readings_add(a, b.drop_last());
        assert((a + b).drop_last() =~= a + b.drop_last());
        assert(readings(a + b) =~= readings(a) + readings(b));
    }
}

/// Taking a measurement out takes its values out.
proof fn lemma_readings_remove(runs: Seq<Seq<StatView>>, j: int)
    requires
        0 <= j < runs.len(),
    ensures
        readings(runs).to_multiset() == readings(runs.remove(j)).to_multiset().add(
            named(runs[j]).to_multiset(),
        ),
{
    let before = runs.take(j);
    let one = seq![runs[j]];
    let after = runs.skip(j + 1);
    assert(runs =~= before + one + after);
    assert(runs.remove(j) =~= before + after);
    law_readings_add(before + one, after);
    law_readings_add(before, one);
    law_readings_add(before, after);
    assert(one.drop_last() =~= Seq::<Seq<StatView>>::empty());
    assert(readings(one.drop_last()) =~= Seq::<(Seq<char>, Count)>::empty());
    assert(readings(one) =~= named(runs[j]));
    vstd::seq_lib::lemma_multiset_commutative(readings(before) + readings(one), readings(after));
    vstd::seq_lib::lemma_multiset_commutative(readings(before), readings(one));
    vstd::seq_lib::lemma_multiset_commutative(readings(before), readings(after));
    assert(readings(runs).to_multiset() =~= readings(runs.remove(j)).to_multiset().add(
        named(runs[j]).to_multiset(),
    ));
}

/// The same measurements have the same values.
proof fn lemma_reordered_readings(a: Seq<Seq<StatView>>, b: Seq<Seq<StatView>>)
    requires
        reordered(a, b),
    ensures
        readings(a).to_multiset() == readings(b).to_multiset(),
    decreases a.len(),
{
    broadcast use vstd::seq_lib::group_to_multiset_ensures;
    let ua = unordered(a);
    let ub = unordered(b);
    assert(ua.to_multiset().len() == ub.to_multiset().len());
    if a.len() == 0 {
        assert(a =~= b);
    } else {
        let n = a.len() - 1;
        let m = ua[n];
        assert(ua.contains(m));
        assert(ua.to_multiset().count(m) > 0);
        assert(ub.contains(m));
        let j = ub.index_of(m);
        assert(unordered(a.remove(n)) =~= ua.remove(n));
        assert(unordered(b.remove(j)) =~= ub.remove(j));
        lemma_reordered_readings(a.remove(n), b.remove(j));
        lemma_readings_remove(a, n);
        lemma_readings_remove(b, j);
    }
}

/// A named value shows its name and its value, and a report shows its parts.
pub proof fn law_stats_shown(stat: Stat, run: Run, patch: Patch)
    ensures
        stat@.name == stat.name@,
        stat@.cnt == stat.cnt,
        run@.stats == stat_views(run.stats@),
        run@.check == run.check,
        run@.release == run.release,
        run@.state == run.state@,
        BenchmarkState::IncrementalPatched(patch)@ == StateView::IncrementalPatched(patch@),
        BenchmarkState::Clean@ is Clean,
        BenchmarkState::Nll@ is Nll,
        BenchmarkState::IncrementalStart@ is IncrementalStart,
        BenchmarkState::IncrementalClean@ is IncrementalClean,
{
}

/// Lists of values, of measurements, of reports and of groups are shown one by one,
/// none left out and none changed.
pub proof fn law_lists_shown(
    stats: Seq<Stat>,
    runs: Seq<Vec<Stat>>,
    reports: Seq<Run>,
    groups: Seq<Group>,
    i: int,
)
    ensures
        stat_views(stats).len() == stats.len(),
        run_stats(runs).len() == runs.len(),
        run_views(reports).len() == reports.len(),
        group_views(groups).len() == groups.len(),
        0 <= i < stats.len() ==> stat_views(stats)[i] == stats[i]@,
        0 <= i < runs.len() ==> run_stats(runs)[i] == stat_views(runs[i]@),
        0 <= i < reports.len() ==> run_views(reports)[i] == reports[i]@,
        0 <= i < groups.len() ==> group_views(groups)[i].0 == groups[i].name@,
        0 <= i < groups.len() ==> group_views(groups)[i].1 == groups[i].counts@,
{
}

/// What has all bits of the exponent set and some bit of the fraction is not a
/// number; all else is one.
pub proof fn law_not_a_number(c: Count)
    ensures
        c.is_nan() <==> c.bits & 0x7ff0_0000_0000_0000 == 0x7ff0_0000_0000_0000 && c.bits
            & 0x000f_ffff_ffff_ffff != 0,
{
    let b: u64 = c.bits;
    assert(b < 0x8000_0000_0000_0000 ==> (b > 0x7ff0_0000_0000_0000 <==> b & 0x7ff0_0000_0000_0000
        == 0x7ff0_0000_0000_0000 && b & 0x000f_ffff_ffff_ffff != 0)) by (bit_vector);
    assert(b >= 0x8000_0000_0000_0000 ==> (b > 0xfff0_0000_0000_0000 <==> b & 0x7ff0_0000_0000_0000
        == 0x7ff0_0000_0000_0000 && b & 0x000f_ffff_ffff_ffff != 0)) by (bit_vector);
}

/// Without the sign bit, values are ordered as their bits are. The sign bit turns a
/// value into its opposite, so that the order of the opposites is reversed and both
/// zeros stand at the same place.
pub proof fn law_rank(a: Count, b: Count)
    requires
        a.bits < 0x8000_0000_0000_0000,
        b.bits < 0x8000_0000_0000_0000,
    ensures
        a.rank() < b.rank() <==> a.bits < b.bits,
        a.rank() == 0 <==> a.bits == 0,
        a.rank() >= 0,
        (Count { bits: (a.bits + 0x8000_0000_0000_0000) as u64 }).rank() == -a.rank(),
{
}

/// The lesser of two values is one of them, the first unless the second is less or
/// the first is not a number, and is not above either of them that is a number.
pub proof fn law_lesser(a: Count, b: Count)
    ensures
        a.lesser(b) == a || a.lesser(b) == b,
        a.lesser(b).is_nan() <==> a.is_nan() && b.is_nan(),
        !a.is_nan() ==> a.lesser(b).rank() <= a.rank(),
        !b.is_nan() ==> a.lesser(b).rank() <= b.rank(),
        !a.is_nan() && a.lesser(b) != a ==> b.rank() < a.rank(),
{
}

/// Whether this value was measured under this name.
pub open spec fn measured_as(runs: Seq<Seq<StatView>>, name: Seq<char>, cnt: Count) -> bool {
    exists|r: int, k: int|
        {
            &&& 0 <= r < runs.len()
            &&& 0 <= k < runs[r].len()
            &&& (#[trigger] runs[r][k]).name == name
            &&& runs[r][k].cnt == cnt
        }
}

/// The readings are what was measured.
proof fn lemma_readings_measured(runs: Seq<Seq<StatView>>, name: Seq<char>, cnt: Count)
    ensures
        readings(runs).contains((name, cnt)) <==> measured_as(runs, name, cnt),
    decreases runs.len(),
{
    if runs.len() > 0 {
        let before = runs.drop_last();
        let n = runs.len() - 1;
        let old_items = readings(before);
        let new_items = named(runs.last());
        let items = readings(runs);
        lemma_readings_measured(before, name, cnt);
        if items.contains((name, cnt)) {
            let i = items.index_of((name, cnt));
            if i < old_items.len() {
                assert(old_items[i] == (name, cnt));
                let (r, k) = choose|r: int, k: int|
                    {
                        &&& 0 <= r < before.len()
                        &&& 0 <= k < before[r].len()
                        &&& (#[trigger] before[r][k]).name == name
                        &&& before[r][k].cnt == cnt
                    };
                assert(runs[r][k] == before[r][k]);
            } else {
                let k = i - old_items.len();
                assert(new_items[k] == (name, cnt));
                assert(runs[n][k].name == name && runs[n][k].cnt == cnt);
            }
        }
        if measured_as(runs, name, cnt) {
            let (r, k) = choose|r: int, k: int|
                {
                    &&& 0 <= r < runs.len()
                    &&& 0 <= k < runs[r].len()
                    &&& (#[trigger] runs[r][k]).name == name
                    &&& runs[r][k].cnt == cnt
                };
            if r < n {
                assert(before[r][k] == runs[r][k]);
                assert(measured_as(before, name, cnt));
                let i = old_items.index_of((name, cnt));
                assert(items[i] == (name, cnt));
            } else {
                assert(new_items[k] == (name, cnt));
                assert(items[old_items.len() + k] == (name, cnt));
            }
        }
    }
}

/// What is reported of a stat was measured of it, and nothing less was. Where
/// nothing but what is not a number was measured of it, that is infinity.
pub proof fn law_report_is_measured(
    kind: BuildKind,
    state: StateView,
    runs: Seq<Seq<StatView>>,
    i: int,
)
    requires
        0 <= i < reported(kind, state, runs).stats.len(),
    ensures
        ({
            let stat = reported(kind, state, runs).stats[i];
            &&& measured_as(runs, stat.name, stat.cnt) || (stat.cnt.bits == 0x7ff0_0000_0000_0000
                && forall|cnt: Count| #[trigger]
                measured_as(runs, stat.name, cnt) ==> cnt.is_nan())
            &&& forall|cnt: Count| #[trigger]
                measured_as(runs, stat.name, cnt) && !cnt.is_nan() ==> stat.cnt.rank()
                    <= cnt.rank()
            &&& !stat.cnt.is_nan()
            &&& exists|cnt: Count| #[trigger] measured_as(runs, stat.name, cnt)
        }),
{
    let items = readings(runs);
    let stat = reported(kind, state, runs).stats[i];
    let key = group::keys(items)[i];
    let found = group::values(items, key);
    assert(stat.name == key && stat.cnt == least(found));
    law_least(found);
    assert(group::keys(items).contains(key));
    group::law_key_has_item(items, key);
    assert forall|cnt: Count| found.contains(cnt) <==> #[trigger] measured_as(runs, key, cnt) by {
        group::law_value_is_item(items, key, cnt);
        lemma_readings_measured(runs, key, cnt);
    }
    assert(found.contains(found[0]));
    assert(measured_as(runs, key, found[0]));
    assert forall|cnt: Count| #[trigger]
        measured_as(runs, stat.name, cnt) && !cnt.is_nan() implies stat.cnt.rank()
        <= cnt.rank() by {
        let j = found.index_of(cnt);
        assert(found[j] == cnt);
    }
    if !measured_as(runs, stat.name, stat.cnt) {
        assert(!found.contains(least(found)));
        assert forall|cnt: Count| #[trigger] measured_as(runs, stat.name, cnt) implies cnt.is_nan() by {
            if !cnt.is_nan() {
                assert(cnt.rank() >= INFINITY);
                assert(cnt == Count { bits: INFINITY });
            }
        }
    }
}

/// Every stat that was measured is reported, once, however often it was measured.
pub proof fn law_measured_is_reported(
    kind: BuildKind,
    state: StateView,
    runs: Seq<Seq<StatView>>,
    r: int,
    k: int,
)
    requires
        0 <= r < runs.len(),
        0 <= k < runs[r].len(),
    ensures
        exists|i: int|
            0 <= i < reported(kind, state, runs).stats.len() && (#[trigger] reported(
                kind,
                state,
                runs,
            ).stats[i]).name == runs[r][k].name,
        forall|i: int, j: int|
            0 <= i < j < reported(kind, state, runs).stats.len() ==> (#[trigger] reported(
                kind,
                state,
                runs,
            ).stats[i]).name != (#[trigger] reported(kind, state, runs).stats[j]).name,
{
    let name = runs[r][k].name;
    let items = readings(runs);
    assert(measured_as(runs, name, runs[r][k].cnt));
    lemma_readings_measured(runs, name, runs[r][k].cnt);
    let p = items.index_of((name, runs[r][k].cnt));
    assert(items[p].0 == name);
    law_report_names(runs, name);
    let i = choose|i: int|
        0 <= i < least_stats(runs).len() && #[trigger] least_stats(runs)[i].name == name;
    assert(reported(kind, state, runs).stats[i].name == name);
}

/// How often a stat was measured.
pub open spec fn times(runs: Seq<Seq<StatView>>, name: Seq<char>) -> nat
    decreases runs.len(),
{
    if runs.len() == 0 {
        0
    } else {
        times(runs.drop_last(), name) + runs.last().filter(|s: StatView| s.name == name).len()
    }
}

proof fn lemma_values_filtered(stats: Seq<StatView>, name: Seq<char>)
    ensures
        group::values(named(stats), name).len() == stats.filter(
            |s: StatView| s.name == name,
        ).len(),
    decreases stats.len(),
{
    reveal(Seq::filter);
    if stats.len() > 0 {
        lemma_values_filtered(stats.drop_last(), name);
        assert(named(stats).drop_last() =~= named(stats.drop_last()));
    }
}

proof fn lemma_times(runs: Seq<Seq<StatView>>, name: Seq<char>)
    ensures
        group::values(readings(runs), name).len() == times(runs, name),
    decreases runs.len(),
{
    if runs.len() > 0 {
        lemma_times(runs.drop_last(), name);
        lemma_values_filtered(runs.last(), name);
        group::law_values_add(readings(runs.drop_last()), named(runs.last()), name);
    }
}

/// Whether a measurement has a stat of this name.
pub open spec fn has_named(stats: Seq<StatView>, name: Seq<char>) -> bool {
    exists|l: int| 0 <= l < stats.len() && (#[trigger] stats[l]).name == name
}

/// Measurements can be reported if and only if something was measured, every stat
/// of any of them is a stat of each of them, and all stats were measured equally
/// often.
pub proof fn law_present(runs: Seq<Seq<StatView>>)
    ensures
        all_present(runs) <==> {
            &&& exists|r: int| 0 <= r < runs.len() && (#[trigger] runs[r]).len() > 0
            &&& forall|r: int, k: int, s: int|
                0 <= r < runs.len() && 0 <= k < runs[r].len() && 0 <= s < runs.len()
                    ==> has_named(#[trigger] runs[s], (#[trigger] runs[r][k]).name)
            &&& forall|r: int, k: int, s: int, l: int|
                0 <= r < runs.len() && 0 <= k < runs[r].len() && 0 <= s < runs.len() && 0 <= l
                    < runs[s].len() ==> times(runs, (#[trigger] runs[r][k]).name) == times(
                    runs,
                    (#[trigger] runs[s][l]).name,
                )
        },
{
    let items = readings(runs);
    let found = group::groups(items);
    // Every group is that of a measured stat, and every measured stat has a group.
    assert forall|i: int| 0 <= i < found.len() implies found_in(runs, (#[trigger] found[i]).0)
        && found[i].1.len() == times(runs, found[i].0) by {
        let key = group::keys(items)[i];
        assert(found[i].0 == key);
        assert(group::keys(items).contains(key));
        group::law_key_has_item(items, key);
        let p = choose|p: int| 0 <= p < items.len() && items[p].0 == key;
        assert(items[p] == (key, items[p].1));
        assert(items.contains((key, items[p].1)));
        lemma_readings_measured(runs, key, items[p].1);
        lemma_times(runs, key);
    }
    assert forall|r: int, k: int| 0 <= r < runs.len() && 0 <= k < runs[r].len() implies grouped(
        found,
        (#[trigger] runs[r][k]).name,
    ) by {
        let name = runs[r][k].name;
        assert(measured_as(runs, name, runs[r][k].cnt));
        lemma_readings_measured(runs, name, runs[r][k].cnt);
        let p = items.index_of((name, runs[r][k].cnt));
        assert(items[p].0 == name);
        group::law_key_has_item(items, name);
        let i = group::keys(items).index_of(name);
        assert(found[i].0 == name);
    }
    if all_present(runs) {
        assert(found_in(runs, found[0].0));
        let (r0, k0) = choose|r: int, k: int|
            0 <= r < runs.len() && 0 <= k < runs[r].len() && (#[trigger] runs[r][k]).name
                == found[0].0;
        assert(runs[r0].len() > 0);
        assert forall|r: int, k: int, s: int|
            0 <= r < runs.len() && 0 <= k < runs[r].len() && 0 <= s < runs.len() implies has_named(
            #[trigger] runs[s],
            (#[trigger] runs[r][k]).name,
        ) by {
            assert(grouped(found, runs[r][k].name));
            let i = choose|i: int|
                0 <= i < found.len() && (#[trigger] found[i]).0 == runs[r][k].name;
            assert(stat_names(runs[s]).contains(found[i].0));
            let l = stat_names(runs[s]).index_of(found[i].0);
            assert(runs[s][l].name == found[i].0);
        }
        assert forall|r: int, k: int, s: int, l: int|
            0 <= r < runs.len() && 0 <= k < runs[r].len() && 0 <= s < runs.len() && 0 <= l
                < runs[s].len() implies times(runs, (#[trigger] runs[r][k]).name) == times(
            runs,
            (#[trigger] runs[s][l]).name,
        ) by {
            assert(grouped(found, runs[r][k].name));
            assert(grouped(found, runs[s][l].name));
            let i = choose|i: int|
                0 <= i < found.len() && (#[trigger] found[i]).0 == runs[r][k].name;
            let j = choose|j: int|
                0 <= j < found.len() && (#[trigger] found[j]).0 == runs[s][l].name;
            assert(found[i].1.len() == found[j].1.len());
        }
    } else if exists|r: int| 0 <= r < runs.len() && (#[trigger] runs[r]).len() > 0 {
        let r0 = choose|r: int| 0 <= r < runs.len() && (#[trigger] runs[r]).len() > 0;
        assert(grouped(found, runs[r0][0].name));
        assert(found.len() > 0);
        if forall|i: int, j: int|
            0 <= i < found.len() && 0 <= j < found.len() ==> (#[trigger] found[i]).1.len() == (
            #[trigger] found[j]).1.len() {
            let (i, s) = choose|i: int, s: int|
                0 <= i < found.len() && 0 <= s < runs.len() && !stat_names(
                    #[trigger] runs[s],
                ).contains((#[trigger] found[i]).0);
            assert(found_in(runs, found[i].0));
            let (r, k) = choose|r: int, k: int|
                0 <= r < runs.len() && 0 <= k < runs[r].len() && (#[trigger] runs[r][k]).name
                    == found[i].0;
            assert(has_named(runs[s], runs[r][k].name) ==> stat_names(runs[s]).contains(
                found[i].0,
            )) by {
                if has_named(runs[s], runs[r][k].name) {
                    let l = choose|l: int|
                        0 <= l < runs[s].len() && (#[trigger] runs[s][l]).name == found[i].0;
                    assert(stat_names(runs[s])[l] == found[i].0);
                }
            }
        } else {
            let (i, j) = choose|i: int, j: int|
                0 <= i < found.len() && 0 <= j < found.len() && (#[trigger] found[i]).1.len() != (
                #[trigger] found[j]).1.len();
            assert(found_in(runs, found[i].0) && found_in(runs, found[j].0));
            let (r, k) = choose|r: int, k: int|
                0 <= r < runs.len() && 0 <= k < runs[r].len() && (#[trigger] runs[r][k]).name
                    == found[i].0;
            let (s, l) = choose|r: int, k: int|
                0 <= r < runs.len() && 0 <= k < runs[r].len() && (#[trigger] runs[r][k]).name
                    == found[j].0;
            assert(times(runs, runs[r][k].name) != times(runs, runs[s][l].name));
        }
    }
}

spec fn found_in(runs: Seq<Seq<StatView>>, name: Seq<char>) -> bool {
    exists|r: int, k: int|
        0 <= r < runs.len() && 0 <= k < runs[r].len() && (#[trigger] runs[r][k]).name == name
}

spec fn grouped(found: Seq<(Seq<char>, Seq<Count>)>, name: Seq<char>) -> bool {
    exists|i: int| 0 <= i < found.len() && (#[trigger] found[i]).0 == name
}

/// The values of a single measurement are its own, one by one.
pub proof fn law_single_measurement(run: Seq<StatView>, k: int)
    ensures
        readings(seq![run]).len() == run.len(),
        0 <= k < run.len() ==> readings(seq![run])[k] == (run[k].name, run[k].cnt),
        readings(Seq::empty()).len() == 0,
{
    let one = seq![run];
    assert(one.drop_last() =~= Seq::<Seq<StatView>>::empty());
    assert(readings(one.drop_last()) =~= Seq::<(Seq<char>, Count)>::empty());
    assert(readings(one) =~= named(run));
}

} // verus!
