//! The tools that a compiler can be run under.
use vstd::prelude::*;

verus! {

/// A tool that the compiler is run under.
#[derive(Clone, Copy, Debug, PartialEq, Eq, Structural)]
pub enum Profiler {
    PerfStat,
    PerfRecord,
    Cachegrind,
    Callgrind,
    DHAT,
    Massif,
}

impl Profiler {
    /// The name by which the compiler wrapper knows the tool.
    pub open spec fn title(self) -> Seq<char> {
        match self {
            Profiler::PerfStat => "perf-stat"@,
            Profiler::PerfRecord => "perf-record"@,
            Profiler::Cachegrind => "cachegrind"@,
            Profiler::Callgrind => "callgrind"@,
            Profiler::DHAT => "dhat"@,
            Profiler::Massif => "massif"@,
        }
    }

    /// The name by which the compiler wrapper knows the tool.
    pub fn name(&self) -> (name: &'static str)
        ensures
            name@ == self.title(),
    {
        match self {
            Profiler::PerfStat => "perf-stat",
            Profiler::PerfRecord => "perf-record",
            Profiler::Cachegrind => "cachegrind",
            Profiler::Callgrind => "callgrind",
            Profiler::DHAT => "dhat",
            Profiler::Massif => "massif",
        }
    }
}

/// The name tells which tool is meant.
pub proof fn law_names_distinct(a: Profiler, b: Profiler)
    requires
        a.title() == b.title(),
    ensures
        a == b,
{
    reveal_strlit("perf-stat");
    reveal_strlit("perf-record");
    reveal_strlit("cachegrind");
    reveal_strlit("callgrind");
    reveal_strlit("dhat");
    reveal_strlit("massif");
    assert("perf-stat"@[0] == 'p');
    assert("callgrind"@[0] == 'c');
    assert("perf-stat"@.len() == 9 && "perf-record"@.len() == 11 && "cachegrind"@.len() == 10);
    assert("callgrind"@.len() == 9 && "dhat"@.len() == 4 && "massif"@.len() == 6);
}

} // verus!
