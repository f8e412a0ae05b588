//! What `perf stat` prints: one line per measured value, with fields separated
//! by semicolons. The first field is the value, the third its name, and the
//! fifth for how much of the time it was measured, in percent.
use crate::cargo::CargoProcess;
use crate::command::Output;
use crate::profiler::Profiler;
use crate::stats;
use crate::stats::{Count, Stat};
use crate::text;
use crate::text::Separator;
use vstd::prelude::*;
use vstd::string::StringExecFns;

verus! {

/// What a line says.
#[derive(Debug)]
pub enum Line {
    /// Nothing: it has too few fields.
    Unhandled,
    /// That the machine cannot measure this.
    NotSupported,
    /// A value that was not measured all of the time.
    Partial(Partial),
    /// A value.
    Measured(Reading),
}

/// A value that was not measured all of the time.
#[derive(Debug)]
pub struct Partial {
    pub name: String,
    pub pct: String,
}

/// A value, as it was printed.
#[derive(Debug)]
pub struct Reading {
    pub name: String,
    pub cnt: String,
}

/// A value that was not measured all of the time.
pub struct PartialView {
    pub name: Seq<char>,
    pub pct: Seq<char>,
}

/// A value, as it was printed.
pub struct ReadingView {
    pub name: Seq<char>,
    pub cnt: Seq<char>,
}

/// What a line says.
pub enum LineView {
    Unhandled,
    NotSupported,
    Partial(PartialView),
    Measured(ReadingView),
}

impl View for Partial {
    type V = PartialView;

    open spec fn view(&self) -> PartialView {
        PartialView { name: self.name@, pct: self.pct@ }
    }
}

impl View for Reading {
    type V = ReadingView;

    open spec fn view(&self) -> ReadingView {
        ReadingView { name: self.name@, cnt: self.cnt@ }
    }
}

impl View for Line {
    type V = LineView;

    open spec fn view(&self) -> LineView {
        match self {
            Line::Unhandled => LineView::Unhandled,
            Line::NotSupported => LineView::NotSupported,
            Line::Partial(partial) => LineView::Partial(partial@),
            Line::Measured(reading) => LineView::Measured(reading@),
        }
    }
}

/// The field at `i` of a line, without the white space around it.
pub open spec fn field(line: Seq<char>, i: int) -> Seq<char> {
    text::trimmed(text::parts(line, Separator::Mark(';'))[i])
}

/// What a line says.
pub open spec fn meaning(line: Seq<char>) -> LineView {
    if text::parts(line, Separator::Mark(';')).len() < 5 {
        LineView::Unhandled
    } else if field(line, 0) == "<not supported>"@ {
        LineView::NotSupported
    } else if !"100."@.is_prefix_of(field(line, 4)) {
        LineView::Partial(PartialView { name: field(line, 2), pct: field(line, 4) })
    } else {
        LineView::Measured(ReadingView { name: field(line, 2), cnt: field(line, 0) })
    }
}

/// What a line says.
pub fn read_line(line: &Vec<char>) -> (result: Line)
    ensures
        result@ == meaning(line@),
{
    let fields = text::split(line, Separator::Mark(';'));
    if fields.len() < 5 {
        return Line::Unhandled;
    }
    let ghost pieces = text::parts(line@, Separator::Mark(';'));
    assert(pieces[0] == fields@[0]@ && pieces[2] == fields@[2]@ && pieces[4] == fields@[4]@);
    let cnt = text::trim(&fields[0]);
    let name = text::trim(&fields[2]);
    let pct = text::trim(&fields[4]);
    if text::same_text(&cnt, &text::chars_of("<not supported>")) {
        return Line::NotSupported;
    }
    let name = text::text_of(&name);
    if !text::starts_with(&pct, &text::chars_of("100.")) {
        return Line::Partial(Partial { name, pct: text::text_of(&pct) });
    }
    Line::Measured(Reading { name, cnt: text::text_of(&cnt) })
}

/// What was printed: the values, up to the first line that tells of one that was
/// not measured all of the time.
#[derive(Debug)]
pub struct Printed {
    pub readings: Vec<Reading>,
    pub partial: Option<Partial>,
}

/// What was printed.
#[verifier::ext_equal]
pub struct PrintedView {
    pub readings: Seq<ReadingView>,
    pub partial: Option<PartialView>,
}

impl View for Printed {
    type V = PrintedView;

    open spec fn view(&self) -> PrintedView {
        PrintedView {
            readings: self.readings@.map_values(|r: Reading| r@),
            partial: match self.partial {
                Some(partial) => Some(partial@),
                None => None,
            },
        }
    }
}

/// What these lines say together. Lines behind one that tells of a value that
/// was not measured all of the time are not read.
pub open spec fn printed_lines(lines: Seq<Seq<char>>) -> PrintedView
    decreases lines.len(),
{
    if lines.len() == 0 {
        PrintedView { readings: Seq::empty(), partial: None }
    } else {
        let before = printed_lines(lines.drop_last());
        if before.partial is Some {
            before
        } else {
            match meaning(lines.last()) {
                LineView::Unhandled => before,
                LineView::NotSupported => before,
                LineView::Partial(partial) => PrintedView { partial: Some(partial), ..before },
                LineView::Measured(reading) => PrintedView {
                    readings: before.readings.push(reading),
                    ..before
                },
            }
        }
    }
}

/// What this text says.
pub open spec fn printed(stdout: Seq<char>) -> PrintedView {
    printed_lines(text::lines_of(stdout))
}

/// Once a value was not measured all of the time, the lines behind it say nothing.
proof fn lemma_partial_ends(lines: Seq<Seq<char>>, i: int)
    requires
        0 <= i <= lines.len(),
        printed_lines(lines.take(i)).partial is Some,
    ensures
        printed_lines(lines) == printed_lines(lines.take(i)),
    decreases lines.len(),
{
    if i < lines.len() {
        assert(lines.drop_last().take(i) == lines.take(i));
        lemma_partial_ends(lines.drop_last(), i);
    } else {
        assert(lines.take(i) == lines);
    }
}

/// Reads what was printed.
pub fn read_printed(stdout: &str) -> (result: Printed)
    ensures
        result@ == printed(stdout@),
{
    let lines = text::lines(&text::chars_of(stdout));
    let ghost all = text::texts(lines@);
    let mut readings: Vec<Reading> = Vec::new();
    let mut i: usize = 0;
    assert(readings@.map_values(|r: Reading| r@) =~= printed_lines(all.take(0)).readings);
    while i < lines.len()
        invariant
            i <= lines.len(),
            all == text::texts(lines@),
            all == text::lines_of(stdout@),
            readings@.map_values(|r: Reading| r@) == printed_lines(all.take(i as int)).readings,
            printed_lines(all.take(i as int)).partial is None,
        decreases lines.len() - i,
    {
        let line = read_line(&lines[i]);
        proof {
            assert(all.take(i + 1).drop_last() == all.take(i as int));
            assert(all.take(i + 1).last() == lines@[i as int]@);
        }
        let ghost before = readings@.map_values(|r: Reading| r@);
        match line {
            Line::Unhandled => {},
            Line::NotSupported => {},
            Line::Partial(partial) => {
                let result = Printed { readings, partial: Some(partial) };
                proof {
                    lemma_partial_ends(all, i + 1);
                    assert(result@ =~= printed(stdout@));
                }
                return result;
            },
            Line::Measured(reading) => {
                readings.push(reading);
                assert(readings@.map_values(|r: Reading| r@) =~= before.push(reading@));
            },
        }
        i += 1;
    }
    assert(all.take(lines.len() as int) == all);
    let result = Printed { readings, partial: None };
    assert(result@ =~= printed(stdout@));
    result
}

/// Why no values could be had.
#[derive(Debug)]
pub enum DeserializeStatError {
    /// Nothing was measured; this was the output.
    NoOutput(Output),
    /// This is not a number.
    ParseError(String),
}

impl DeserializeStatError {
    /// The reason in words.
    pub open spec fn words(self) -> Seq<char> {
        match self {
            DeserializeStatError::NoOutput(output) =>
                "could not deserialize empty output to stats, output: "@ + output.shown@,
            DeserializeStatError::ParseError(cnt) => "could not parse `"@ + cnt@
                + "` as a float"@,
        }
    }

    /// The reason in words.
    pub fn message(&self) -> (text: String)
        ensures
            text@ == self.words(),
    {
        match self {
            DeserializeStatError::NoOutput(output) => {
                let mut text = "could not deserialize empty output to stats, output: ".to_string();
                text.append(output.shown.as_str());
                text
            },
            DeserializeStatError::ParseError(cnt) => {
                let mut text = "could not parse `".to_string();
                text.append(cnt.as_str());
                text.append("` as a float");
                text
            },
        }
    }
}

/// What a command printed, taken as text.
pub open spec fn printed_by(output: Output) -> PrintedView {
    printed(vstd::utf8::decode_utf8(output.stdout@))
}

/// Whether all of these are numbers.
pub open spec fn all_numbers(counts: Seq<Option<Count>>) -> bool {
    forall|i: int| 0 <= i < counts.len() ==> (#[trigger] counts[i]) is Some
}

/// Whether the value at `i` is the first that is not a number.
pub open spec fn first_bad(counts: Seq<Option<Count>>, i: int) -> bool {
    &&& 0 <= i < counts.len()
    &&& counts[i] is None
    &&& forall|j: int| 0 <= j < i ==> (#[trigger] counts[j]) is Some
}

/// The values under the names that they were printed with.
pub open spec fn stats_of(readings: Seq<ReadingView>, counts: Seq<Option<Count>>) -> Seq<
    stats::StatView,
> {
    Seq::new(
        readings.len(),
        |i: int| stats::StatView { name: readings[i].name, cnt: counts[i]->0 },
    )
}

/// The place of the first value that is not a number.
fn find_bad(counts: &Vec<Option<Count>>) -> (bad: Option<usize>)
    ensures
        bad is None <==> all_numbers(counts@),
        bad is Some ==> first_bad(counts@, bad->0 as int),
{
    let mut i: usize = 0;
    while i < counts.len()
        invariant
            i <= counts.len(),
            forall|j: int| 0 <= j < i ==> (#[trigger] counts@[j]) is Some,
        decreases counts.len() - i,
    {
        if counts[i].is_none() {
            return Some(i);
        }
        i += 1;
    }
    None
}

/// The measured values in the output of a build under `perf stat`. `counts` holds
/// the number that each printed value stands for, nothing where it stands for
/// none. A value that was not measured all of the time, with none before it that
/// is not a number, leaves nothing to go on with.
pub fn process_perf_stat_output(output: Output, counts: &Vec<Option<Count>>) -> (result: Result<
    Vec<Stat>,
    DeserializeStatError,
>)
    requires
        vstd::utf8::valid_utf8(output.stdout@),
        counts@.len() == printed_by(output).readings.len(),
        printed_by(output).partial is None || !all_numbers(counts@),
    ensures
        match result {
            Ok(found) => {
                &&& counts@.len() > 0
                &&& all_numbers(counts@)
                &&& stats::stat_views(found@) == stats_of(printed_by(output).readings, counts@)
                &&& found@.len() == counts@.len()
                &&& forall|i: int|
                    0 <= i < found@.len() ==> (#[trigger] found@[i]).name@ == printed_by(
                        output,
                    ).readings[i].name && Some(found@[i].cnt) == counts@[i]
            },
            Err(DeserializeStatError::NoOutput(same)) => counts@.len() == 0 && same == output,
            Err(DeserializeStatError::ParseError(cnt)) => exists|i: int|
                first_bad(counts@, i) && cnt@ == printed_by(output).readings[i].cnt,
        },
{
    let stdout = text::utf8_text(&output.stdout).unwrap();
    let found = read_printed(stdout.as_str());
    let ghost readings = found@.readings;
    if let Some(bad) = find_bad(counts) {
        assert(readings[bad as int] == found.readings@[bad as int]@);
        return Err(DeserializeStatError::ParseError(found.readings[bad].cnt.clone()));
    }
    if found.readings.len() == 0 {
        return Err(DeserializeStatError::NoOutput(output));
    }
    let ghost expected = stats_of(readings, counts@);
    let mut result: Vec<Stat> = Vec::new();
    let mut i: usize = 0;
    while i < found.readings.len()
        invariant
            i <= found.readings.len() == counts.len(),
            readings == found@.readings,
            all_numbers(counts@),
            expected == stats_of(readings, counts@),
            stats::stat_views(result@) == expected.take(i as int),
        decreases found.readings.len() - i,
    {
        let ghost before = stats::stat_views(result@);
        assert(counts@[i as int] is Some);
        assert(readings[i as int] == found.readings@[i as int]@);
        let stat = Stat { name: found.readings[i].name.clone(), cnt: counts[i].unwrap() };
        assert(expected[i as int] == stat@);
        result.push(stat);
        assert(stats::stat_views(result@) =~= before.push(stat@));
        i += 1;
    }
    assert(expected.take(found.readings.len() as int) =~= expected);
    assert forall|k: int| 0 <= k < result@.len() implies (#[trigger] result@[k]).name@
        == readings[k].name && Some(result@[k].cnt) == counts@[k] by {
        assert(stats::stat_views(result@)[k] == result@[k]@);
        assert(counts@[k] is Some);
    }
    Ok(result)
}

/// What comes of one build under `perf stat`.
#[derive(Debug)]
pub enum Attempt {
    /// These values.
    Stats(Vec<Stat>),
    /// Nothing was measured. The build is to be run again; this was its output.
    Retry(Output),
    /// This is not a number. There is no going on from here.
    NotANumber(String),
    /// This was not measured all of the time. There is no going on from here.
    NotAllTheTime(Partial),
    /// The output is not text. There is no going on from here.
    NotText,
}

impl<'a> CargoProcess<'a> {
    /// Decides what comes of a build under `perf stat` that has left this output:
    /// it is run again while nothing was measured.
    pub fn run_rustc_and_process_perf_stat_output(
        &self,
        output: Output,
        counts: &Vec<Option<Count>>,
    ) -> (attempt: Attempt)
        requires
            self.profiler == Some(Profiler::PerfStat),
            vstd::utf8::valid_utf8(output.stdout@) ==> counts@.len() == printed_by(
                output,
            ).readings.len(),
        ensures
            match attempt {
                Attempt::NotText => !vstd::utf8::valid_utf8(output.stdout@),
                Attempt::NotANumber(cnt) => vstd::utf8::valid_utf8(output.stdout@) && exists|
                    i: int,
                |
                    first_bad(counts@, i) && cnt@ == printed_by(output).readings[i].cnt,
                Attempt::NotAllTheTime(partial) => {
                    &&& vstd::utf8::valid_utf8(output.stdout@)
                    &&& all_numbers(counts@)
                    &&& printed_by(output).partial == Some(partial@)
                },
                Attempt::Retry(same) => {
                    &&& vstd::utf8::valid_utf8(output.stdout@)
                    &&& counts@.len() == 0
                    &&& printed_by(output).partial is None
                    &&& same == output
                },
                Attempt::Stats(found) => {
                    &&& vstd::utf8::valid_utf8(output.stdout@)
                    &&& counts@.len() > 0
                    &&& all_numbers(counts@)
                    &&& printed_by(output).partial is None
                    &&& stats::stat_views(found@) == stats_of(printed_by(output).readings, counts@)
                    &&& found@.len() == counts@.len()
                    &&& forall|i: int|
                        0 <= i < found@.len() ==> (#[trigger] found@[i]).name@ == printed_by(
                            output,
                        ).readings[i].name && Some(found@[i].cnt) == counts@[i]
                },
            },
    {
        let stdout = match text::utf8_text(&output.stdout) {
            Some(stdout) => stdout,
            None => {
                return Attempt::NotText;
            },
        };
        if find_bad(counts).is_none() {
            let found = read_printed(stdout.as_str());
            if let Some(partial) = found.partial {
                return Attempt::NotAllTheTime(partial);
            }
        }
        match process_perf_stat_output(output, counts) {
            Ok(found) => Attempt::Stats(found),
            Err(DeserializeStatError::NoOutput(output)) => Attempt::Retry(output),
            Err(DeserializeStatError::ParseError(cnt)) => Attempt::NotANumber(cnt),
        }
    }
}

/// A line that says nothing, or that something cannot be measured, may as well
/// not be there.
pub proof fn law_ignored_lines(a: Seq<Seq<char>>, line: Seq<char>, b: Seq<Seq<char>>)
    requires
        meaning(line) is Unhandled || meaning(line) is NotSupported,
    ensures
        printed_lines(a.push(line) + b) == printed_lines(a + b),
    decreases b.len(),
{
    if b.len() == 0 {
        assert(a.push(line) + b =~= a.push(line));
        assert(a + b =~= a);
        assert(a.push(line).drop_last() =~= a);
    } else {
        law_ignored_lines(a, line, b.drop_last());
        assert((a.push(line) + b).drop_last() =~= a.push(line) + b.drop_last());
        assert((a + b).drop_last() =~= a + b.drop_last());
    }
}

/// Nothing behind a value that was not measured all of the time is read.
pub proof fn law_partial_ends(a: Seq<Seq<char>>, b: Seq<Seq<char>>)
    requires
        printed_lines(a).partial is Some,
    ensures
        printed_lines(a + b) == printed_lines(a),
{
    assert((a + b).take(a.len() as int) =~= a);
    lemma_partial_ends(a + b, a.len() as int);
}

/// What a line says, and what was printed, is shown part by part.
pub proof fn law_lines_shown(reading: Reading, partial: Partial, printed: Printed, i: int)
    ensures
        reading@.name == reading.name@,
        reading@.cnt == reading.cnt@,
        partial@.name == partial.name@,
        partial@.pct == partial.pct@,
        Line::Measured(reading)@ == LineView::Measured(reading@),
        Line::Partial(partial)@ == LineView::Partial(partial@),
        Line::Unhandled@ is Unhandled,
        Line::NotSupported@ is NotSupported,
        printed@.readings.len() == printed.readings@.len(),
        0 <= i < printed.readings@.len() ==> printed@.readings[i] == printed.readings@[i]@,
        printed@.partial is Some <==> printed.partial is Some,
        printed.partial is Some ==> printed@.partial->0 == printed.partial->0@,
{
}

/// Whether `s` holds no semicolon.
pub open spec fn is_field(s: Seq<char>) -> bool {
    !s.contains(';')
}

/// What a line with five fields or more says depends on the first, third and fifth,
/// without the white space around them: the value, its name, and for how much of the
/// time it was measured.
pub proof fn law_line_fields(
    cnt: Seq<char>,
    unit: Seq<char>,
    name: Seq<char>,
    time: Seq<char>,
    pct: Seq<char>,
    rest: Seq<char>,
)
    requires
        is_field(cnt),
        is_field(unit),
        is_field(name),
        is_field(time),
        is_field(pct),
        rest.len() == 0 || rest[0] == ';',
    ensures
        ({
            let line = cnt.push(';') + (unit.push(';') + (name.push(';') + (time.push(';') + (pct
                + rest))));
            let said = meaning(line);
            let whole = "100."@.is_prefix_of(text::trimmed(pct));
            &&& said is NotSupported <==> text::trimmed(cnt) == "<not supported>"@
            &&& !(said is NotSupported) ==> (said is Measured <==> whole)
            &&& !(said is NotSupported) ==> (said is Partial <==> !whole)
            &&& said matches LineView::Measured(reading) ==> reading.name == text::trimmed(name)
                && reading.cnt == text::trimmed(cnt)
            &&& said matches LineView::Partial(partial) ==> partial.name == text::trimmed(name)
                && partial.pct == text::trimmed(pct)
        }),
{
    let sep = Separator::Mark(';');
    let l5 = pct + rest;
    let l4 = time.push(';') + l5;
    let l3 = name.push(';') + l4;
    let l2 = unit.push(';') + l3;
    let line = cnt.push(';') + l2;
    text::law_split_at_separator(cnt, ';', l2, sep);
    text::law_split_at_separator(unit, ';', l3, sep);
    text::law_split_at_separator(name, ';', l4, sep);
    text::law_split_at_separator(time, ';', l5, sep);
    lemma_one_field(cnt);
    lemma_one_field(unit);
    lemma_one_field(name);
    lemma_one_field(time);
    lemma_one_field(pct);
    let last = text::parts(l5, sep);
    assert(last.len() >= 1 && last[0] == pct) by {
        if rest.len() == 0 {
            assert(l5 =~= pct);
        } else {
            assert(l5 =~= pct.push(';') + rest.drop_first());
            text::law_split_at_separator(pct, ';', rest.drop_first(), sep);
        }
    }
    let all = text::parts(line, sep);
    assert(all =~= seq![cnt, unit, name, time] + last);
    assert(all[0] == cnt && all[2] == name && all[4] == pct);
}

proof fn lemma_one_field(s: Seq<char>)
    requires
        is_field(s),
    ensures
        text::parts(s, Separator::Mark(';')) == seq![s],
{
    assert forall|i: int| 0 <= i < s.len() implies !Separator::Mark(';').matches(#[trigger] s[i]) by {
        assert(s.contains(s[i]));
    }
    text::law_unseparated(s, Separator::Mark(';'));
}

/// A line says nothing if and only if it has fewer than four semicolons.
pub proof fn law_short_line(line: Seq<char>)
    ensures
        meaning(line) is Unhandled <==> line.filter(|c: char| c == ';').len() < 4,
{
    lemma_parts_counted(line);
}

proof fn lemma_parts_counted(line: Seq<char>)
    ensures
        text::parts(line, Separator::Mark(';')).len() == line.filter(|c: char| c == ';').len() + 1,
    decreases line.len(),
{
    reveal(Seq::filter);
    if line.len() > 0 {
        lemma_parts_counted(line.drop_last());
    }
}

/// The first line is read before the others.
proof fn lemma_first_line_read(line: Seq<char>, others: Seq<Seq<char>>)
    ensures
        ({
            let all = printed_lines(seq![line] + others);
            let rest = printed_lines(others);
            match meaning(line) {
                LineView::Unhandled => all == rest,
                LineView::NotSupported => all == rest,
                LineView::Partial(partial) => all == (PrintedView {
                    readings: Seq::empty(),
                    partial: Some(partial),
                }),
                LineView::Measured(reading) => all == (PrintedView {
                    readings: seq![reading] + rest.readings,
                    partial: rest.partial,
                }),
            }
        }),
    decreases others.len(),
{
    let lines = seq![line] + others;
    if others.len() == 0 {
        assert(lines =~= seq![line]);
        assert(lines.drop_last() =~= Seq::<Seq<char>>::empty());
        assert(lines.last() == line);
        assert(printed_lines(lines.drop_last()).readings.len() == 0);
        assert(printed_lines(lines.drop_last()).partial is None);
        assert(printed_lines(lines.drop_last()) == printed_lines(others)) by {
            assert(others =~= lines.drop_last());
        }
        let all = printed_lines(lines);
        if let LineView::Measured(reading) = meaning(line) {
            assert(all.readings =~= seq![reading] + printed_lines(others).readings);
        }
        if let LineView::Partial(partial) = meaning(line) {
            assert(all.readings =~= Seq::empty());
        }
    } else {
        lemma_first_line_read(line, others.drop_last());
        assert(lines.drop_last() =~= seq![line] + others.drop_last());
        assert(lines.last() == others.last());
        if let LineView::Measured(reading) = meaning(line) {
            let all = printed_lines(lines);
            assert(all.readings =~= seq![reading] + printed_lines(others).readings);
        }
    }
}

/// A text is read line by line. A line with a value comes before the values of the
/// others, one that says nothing or that something cannot be measured adds nothing,
/// and behind one with a value that was not measured all of the time nothing is read.
pub proof fn law_read_line_by_line(line: Seq<char>, rest: Seq<char>)
    requires
        text::on_one_line(line),
    ensures
        ({
            let all = printed(line.push('\r').push('\n') + rest);
            let others = printed(rest);
            &&& line.len() == 0 || line.last() != '\r' ==> printed(line.push('\n') + rest) == all
            &&& meaning(line) is Unhandled || meaning(line) is NotSupported ==> all == others
            &&& meaning(line) matches LineView::Measured(reading) ==> all.readings.len()
                == others.readings.len() + 1 && all.readings[0] == reading
                && all.readings.drop_first() == others.readings && all.partial == others.partial
            &&& meaning(line) matches LineView::Partial(partial) ==> all.readings.len() == 0
                && all.partial == Some(partial)
        }),
{
    text::law_first_line(line, rest);
    lemma_first_line_read(line, text::lines_of(rest));
    let all = printed(line.push('\r').push('\n') + rest);
    if let LineView::Measured(reading) = meaning(line) {
        assert(all.readings.drop_first() =~= printed(rest).readings);
    }
}

/// The last line is read the same without a line end. Nothing is read of an empty text.
pub proof fn law_read_last_line(line: Seq<char>)
    requires
        text::on_one_line(line),
    ensures
        printed(line) == printed(line.push('\r').push('\n')),
        printed(Seq::empty()).readings.len() == 0,
        printed(Seq::empty()).partial is None,
{
    let none = Seq::<char>::empty();
    text::law_last_line(line);
    text::law_last_line(none);
    text::law_first_line(line, none);
    assert(line.push('\r').push('\n') + none =~= line.push('\r').push('\n'));
    lemma_first_line_read(line, Seq::empty());
    assert(seq![line] + Seq::<Seq<char>>::empty() =~= seq![line]);
    if line.len() == 0 {
        lemma_one_field(line);
        assert(meaning(line) is Unhandled);
    }
}

/// What a command printed is read as the text that it encodes.
pub proof fn law_printed_text(output: Output, stdout: Seq<char>)
    requires
        output.stdout@ == vstd::utf8::encode_utf8(stdout),
    ensures
        vstd::utf8::valid_utf8(output.stdout@),
        printed_by(output) == printed(stdout),
{
    vstd::utf8::encode_utf8_valid_utf8(stdout);
    vstd::utf8::encode_utf8_decode_utf8(stdout);
}

/// Each name keeps its own number: as many values come out as were read, and each of
/// them has the name that was read at its place and the number that stands there.
pub proof fn law_values_keep_their_names(
    readings: Seq<ReadingView>,
    counts: Seq<Option<Count>>,
    i: int,
)
    requires
        counts.len() == readings.len(),
        all_numbers(counts),
        0 <= i < readings.len(),
    ensures
        stats_of(readings, counts).len() == readings.len(),
        stats_of(readings, counts)[i].name == readings[i].name,
        Some(stats_of(readings, counts)[i].cnt) == counts[i],
{
    assert(counts[i] is Some);
}

/// Values that were read one after the other come out one after the other.
pub proof fn law_values_in_parts(
    a: Seq<ReadingView>,
    x: Seq<Option<Count>>,
    b: Seq<ReadingView>,
    y: Seq<Option<Count>>,
)
    requires
        a.len() == x.len(),
        b.len() == y.len(),
    ensures
        stats_of(a + b, x + y) == stats_of(a, x) + stats_of(b, y),
{
    assert(stats_of(a + b, x + y) =~= stats_of(a, x) + stats_of(b, y));
}

/// Either all values are numbers or there is a first one that is not, and just one
/// first one.
pub proof fn law_first_bad(counts: Seq<Option<Count>>, i: int, j: int)
    ensures
        all_numbers(counts) <==> !counts.contains(None),
        !all_numbers(counts) <==> exists|k: int| first_bad(counts, k),
        first_bad(counts, i) ==> 0 <= i < counts.len() && counts[i] is None && !counts.take(
            i,
        ).contains(None),
        first_bad(counts, i) && first_bad(counts, j) ==> i == j,
{
    if counts.contains(None) {
        let k = counts.index_of(None);
        assert(counts[k] is None);
        lemma_first_bad(counts, k);
    }
    if !all_numbers(counts) {
        let k = choose|k: int| 0 <= k < counts.len() && !((#[trigger] counts[k]) is Some);
        assert(counts[k] == None::<Count>);
    }
    if first_bad(counts, i) && first_bad(counts, j) {
        if i < j {
            assert(counts[i] is Some);
        }
        if j < i {
            assert(counts[j] is Some);
        }
    }
    if first_bad(counts, i) && counts.take(i).contains(None) {
        let k = counts.take(i).index_of(None);
        assert(counts[k] is Some);
    }
}

proof fn lemma_first_bad(counts: Seq<Option<Count>>, k: int)
    requires
        0 <= k < counts.len(),
        counts[k] is None,
    ensures
        exists|i: int| first_bad(counts, i),
    decreases k,
{
    if forall|j: int| 0 <= j < k ==> (#[trigger] counts[j]) is Some {
        assert(first_bad(counts, k));
    } else {
        let j = choose|j: int| 0 <= j < k && !((#[trigger] counts[j]) is Some);
        lemma_first_bad(counts, j);
    }
}

/// The message tells in full what it is about: the text that is not a number, or the
/// output that holds no values.
pub proof fn law_message(cnt: String, output: Output)
    ensures
        ({
            let told = DeserializeStatError::ParseError(cnt).words();
            let quoted = seq!['`'] + cnt@ + seq!['`'];
            &&& ("could not parse "@ + quoted).is_prefix_of(told)
            &&& (quoted + " as a float"@).is_suffix_of(told)
            &&& told.len() == "could not parse "@.len() + quoted.len() + " as a float"@.len()
        }),
        ({
            let told = DeserializeStatError::NoOutput(output).words();
            let lead = "could not deserialize empty output to stats, output: "@;
            &&& lead.is_prefix_of(told)
            &&& output.shown@.is_suffix_of(told)
            &&& told.len() == lead.len() + output.shown@.len()
        }),
{
    let told = DeserializeStatError::ParseError(cnt).words();
    let quoted = seq!['`'] + cnt@ + seq!['`'];
    reveal_strlit("could not parse `");
    reveal_strlit("could not parse ");
    reveal_strlit("` as a float");
    reveal_strlit(" as a float");
    assert("could not parse `"@ =~= "could not parse "@ + seq!['`']);
    assert("` as a float"@ =~= seq!['`'] + " as a float"@);
    assert(told =~= "could not parse "@ + quoted + " as a float"@);
    let begin = "could not parse "@ + quoted;
    let end = quoted + " as a float"@;
    assert(told.subrange(0, begin.len() as int) =~= begin);
    assert(told.skip(told.len() - end.len()) =~= end);
    let other = DeserializeStatError::NoOutput(output).words();
    let lead = "could not deserialize empty output to stats, output: "@;
    assert(other.subrange(0, lead.len() as int) =~= lead);
    assert(other.skip(other.len() - output.shown@.len()) =~= output.shown@);
}

} // verus!
