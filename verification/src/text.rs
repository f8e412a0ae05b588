//! Text as sequences of characters: lines, separated fields, words, trimming.
use vstd::prelude::*;

verus! {

/// `String::push`: the character goes to the end of the string.
pub assume_specification[ String::push ](s: &mut String, c: char)
    ensures
        final(s)@ == old(s)@.push(c),
;

/// `std::str::from_utf8`, with the text copied out: bytes that are valid UTF-8
/// give the text they encode, any others give nothing.
#[verifier::external_body]
pub(crate) fn utf8_text(bytes: &Vec<u8>) -> (text: Option<String>)
    ensures
        text is Some <==> vstd::utf8::valid_utf8(bytes@),
        text is Some ==> text->0@ == vstd::utf8::decode_utf8(bytes@),
{
    std::str::from_utf8(bytes).ok().map(String::from)
}

/// What `String::from_utf8_lossy` makes of the bytes.
pub uninterp spec fn utf8_lossy(bytes: Seq<u8>) -> Seq<char>;

/// `String::from_utf8_lossy`: the result is a function of the bytes, and valid
/// UTF-8 gives the text that it encodes. How ill-formed bytes are replaced is
/// left to the name.
#[verifier::external_body]
pub(crate) fn lossy_text(bytes: &Vec<u8>) -> (text: String)
    ensures
        text@ == utf8_lossy(bytes@),
        vstd::utf8::valid_utf8(bytes@) ==> text@ == vstd::utf8::decode_utf8(bytes@),
{
    String::from_utf8_lossy(bytes).into_owned()
}

/// The characters of Unicode's `White_Space` property.
pub open spec fn is_white(c: char) -> bool {
    let u = c as u32;
    ||| 0x09 <= u <= 0x0d
    ||| u == 0x20
    ||| u == 0x85
    ||| u == 0xa0
    ||| u == 0x1680
    ||| 0x2000 <= u <= 0x200a
    ||| u == 0x2028
    ||| u == 0x2029
    ||| u == 0x202f
    ||| u == 0x205f
    ||| u == 0x3000
}

/// Whether `c` is white space.
pub fn is_whitespace(c: char) -> (white: bool)
    ensures
        white == is_white(c),
{
    let u: u32 = c as u32;
    (0x09 <= u && u <= 0x0d) || u == 0x20 || u == 0x85 || u == 0xa0 || u == 0x1680 || (0x2000 <= u
        && u <= 0x200a) || u == 0x2028 || u == 0x2029 || u == 0x202f || u == 0x205f || u == 0x3000
}

/// What ends one part of a text and begins the next.
#[derive(Clone, Copy, Debug, PartialEq, Eq, Structural)]
pub enum Separator {
    /// This very character.
    Mark(char),
    /// Any white space character.
    Whitespace,
}

impl Separator {
    /// Whether `c` separates.
    pub open spec fn matches(self, c: char) -> bool {
        match self {
            Separator::Mark(m) => c == m,
            Separator::Whitespace => is_white(c),
        }
    }

    /// Whether `c` separates.
    pub fn separates(self, c: char) -> (yes: bool)
        ensures
            yes == self.matches(c),
    {
        match self {
            Separator::Mark(m) => c == m,
            Separator::Whitespace => is_whitespace(c),
        }
    }
}

/// The parts of `s` between its separators, the empty ones too.
pub open spec fn parts(s: Seq<char>, sep: Separator) -> Seq<Seq<char>>
    decreases s.len(),
{
    if s.len() == 0 {
        seq![Seq::<char>::empty()]
    } else {
        let before = parts(s.drop_last(), sep);
        if sep.matches(s.last()) {
            before.push(Seq::<char>::empty())
        } else {
            before.update(before.len() - 1, before.last().push(s.last()))
        }
    }
}

/// The texts of a list of character vectors.
pub open spec fn texts(v: Seq<Vec<char>>) -> Seq<Seq<char>> {
    v.map_values(|t: Vec<char>| t@)
}

/// The texts of a list of strings.
pub open spec fn strings(v: Seq<String>) -> Seq<Seq<char>> {
    v.map_values(|t: String| t@)
}

/// The characters of `s`.
pub fn chars_of(s: &str) -> (chars: Vec<char>)
    ensures
        chars@ == s@,
{
    let mut chars: Vec<char> = Vec::new();
    for c in iter: s.chars()
        invariant
            iter.seq() == s@,
            chars@ == s@.take(iter.index()),
    {
        chars.push(c);
    }
    chars
}

/// The string made of these characters.
pub fn text_of(chars: &Vec<char>) -> (text: String)
    ensures
        text@ == chars@,
{
    let mut text = String::new();
    let mut i: usize = 0;
    while i < chars.len()
        invariant
            i <= chars.len(),
            text@ == chars@.take(i as int),
        decreases chars.len() - i,
    {
        text.push(chars[i]);
        i += 1;
    }
    text
}

/// The parts of a text between its separators.
pub fn split(s: &Vec<char>, sep: Separator) -> (result: Vec<Vec<char>>)
    ensures
        texts(result@) == parts(s@, sep),
{
    let mut done: Vec<Vec<char>> = Vec::new();
    let mut current: Vec<char> = Vec::new();
    let mut i: usize = 0;
    assert(parts(s@.take(0), sep) =~= texts(done@).push(current@));
    while i < s.len()
        invariant
            i <= s.len(),
            parts(s@.take(i as int), sep) == texts(done@).push(current@),
        decreases s.len() - i,
    {
        let c = s[i];
        proof {
            assert(s@.take(i + 1).drop_last() == s@.take(i as int));
        }
        let ghost before = texts(done@).push(current@);
        if sep.separates(c) {
            done.push(current);
            current = Vec::new();
            assert(texts(done@) == before);
        } else {
            current.push(c);
        }
        assert(parts(s@.take(i + 1), sep) == texts(done@).push(current@));
        i += 1;
    }
    assert(s@.take(s.len() as int) == s@);
    let ghost all = texts(done@).push(current@);
    done.push(current);
    assert(texts(done@) == all);
    done
}

/// `s` without its leading white space.
pub open spec fn trim_start(s: Seq<char>) -> Seq<char>
    decreases s.len(),
{
    if s.len() > 0 && is_white(s[0]) {
        trim_start(s.drop_first())
    } else {
        s
    }
}

/// `s` without its trailing white space.
pub open spec fn trim_end(s: Seq<char>) -> Seq<char>
    decreases s.len(),
{
    if s.len() > 0 && is_white(s.last()) {
        trim_end(s.drop_last())
    } else {
        s
    }
}

/// `s` without the white space on either side.
pub open spec fn trimmed(s: Seq<char>) -> Seq<char> {
    trim_end(trim_start(s))
}

/// The text without the white space on either side.
pub fn trim(s: &Vec<char>) -> (result: Vec<char>)
    ensures
        result@ == trimmed(s@),
{
    let mut lo: usize = 0;
    assert(s@.skip(0) == s@);
    while lo < s.len() && is_whitespace(s[lo])
        invariant
            lo <= s.len(),
            trim_start(s@) == trim_start(s@.skip(lo as int)),
        decreases s.len() - lo,
    {
        assert(s@.skip(lo as int).drop_first() == s@.skip(lo + 1));
        lo += 1;
    }
    let ghost rest = s@.skip(lo as int);
    assert(trim_start(s@) == rest);
    let mut hi: usize = s.len();
    assert(rest == s@.subrange(lo as int, hi as int));
    while lo < hi && is_whitespace(s[hi - 1])
        invariant
            lo <= hi <= s.len(),
            trim_end(rest) == trim_end(s@.subrange(lo as int, hi as int)),
        decreases hi,
    {
        assert(s@.subrange(lo as int, hi as int).drop_last() == s@.subrange(lo as int, hi - 1));
        hi -= 1;
    }
    sub_text(s, lo, hi)
}

/// The characters of `s` from `lo` up to `hi`.
fn sub_text(s: &Vec<char>, lo: usize, hi: usize) -> (result: Vec<char>)
    requires
        lo <= hi <= s.len(),
    ensures
        result@ == s@.subrange(lo as int, hi as int),
{
    let mut result: Vec<char> = Vec::new();
    let mut i: usize = lo;
    while i < hi
        invariant
            lo <= i <= hi <= s.len(),
            result@ == s@.subrange(lo as int, i as int),
        decreases hi - i,
    {
        result.push(s[i]);
        i += 1;
    }
    result
}

/// `s` without one carriage return at its end.
pub open spec fn without_return(s: Seq<char>) -> Seq<char> {
    if s.len() > 0 && s.last() == '\r' {
        s.drop_last()
    } else {
        s
    }
}

/// Each of the lines without one carriage return at its end.
pub open spec fn without_returns(lines: Seq<Seq<char>>) -> Seq<Seq<char>> {
    lines.map_values(|line: Seq<char>| without_return(line))
}

/// The lines of `s`: what its line ends, `\n` or `\r\n`, terminate, and what
/// follows the last of them unless that is empty.
pub open spec fn lines_of(s: Seq<char>) -> Seq<Seq<char>> {
    let pieces = parts(s, Separator::Mark('\n'));
    let ended = without_returns(pieces.drop_last());
    if pieces.last().len() == 0 {
        ended
    } else {
        ended.push(pieces.last())
    }
}

/// The lines of a text.
pub fn lines(s: &Vec<char>) -> (result: Vec<Vec<char>>)
    ensures
        texts(result@) == lines_of(s@),
{
    let pieces = split(s, Separator::Mark('\n'));
    proof {
        lemma_parts_nonempty(s@, Separator::Mark('\n'));
    }
    let ghost p = texts(pieces@);
    let ghost ended = without_returns(p.drop_last());
    let last: usize = pieces.len() - 1;
    let mut result: Vec<Vec<char>> = Vec::new();
    let mut i: usize = 0;
    while i < last
        invariant
            i <= last,
            last + 1 == pieces.len(),
            p == texts(pieces@),
            ended == without_returns(p.drop_last()),
            texts(result@) == ended.take(i as int),
        decreases last - i,
    {
        let n: usize = pieces[i].len();
        let line = if n > 0 && pieces[i][n - 1] == '\r' {
            sub_text(&pieces[i], 0, n - 1)
        } else {
            sub_text(&pieces[i], 0, n)
        };
        assert(line@ == without_return(p[i as int]));
        let ghost before = texts(result@);
        result.push(line);
        assert(texts(result@) == before.push(line@));
        assert(ended[i as int] == line@);
        i += 1;
    }
    assert(texts(result@) == ended);
    assert(p.last() == pieces[last as int]@);
    if pieces[last].len() > 0 {
        let line = sub_text(&pieces[last], 0, pieces[last].len());
        assert(line@ == p.last());
        result.push(line);
        assert(texts(result@) == ended.push(line@));
    }
    result
}

/// The words of `s`: its longest stretches without white space.
pub open spec fn words_of(s: Seq<char>) -> Seq<Seq<char>> {
    parts(s, Separator::Whitespace).filter(|w: Seq<char>| w.len() > 0)
}

/// The words of a text.
pub fn split_whitespace(s: &str) -> (result: Vec<String>)
    ensures
        strings(result@) == words_of(s@),
{
    let pieces = split(&chars_of(s), Separator::Whitespace);
    let ghost p = texts(pieces@);
    let ghost full = |w: Seq<char>| w.len() > 0;
    let mut result: Vec<String> = Vec::new();
    let mut i: usize = 0;
    proof {
        reveal(Seq::filter);
        assert(p.take(0).filter(full) == Seq::<Seq<char>>::empty());
    }
    while i < pieces.len()
        invariant
            i <= pieces.len(),
            p == texts(pieces@),
            full == (|w: Seq<char>| w.len() > 0),
            strings(result@) == p.take(i as int).filter(full),
        decreases pieces.len() - i,
    {
        proof {
            reveal(Seq::filter);
            assert(p.take(i + 1).drop_last() == p.take(i as int));
            assert(p.take(i + 1).last() == pieces[i as int]@);
        }
        let ghost before = strings(result@);
        if pieces[i].len() > 0 {
            let word = text_of(&pieces[i]);
            result.push(word);
            assert(strings(result@) == before.push(word@));
        }
        i += 1;
    }
    assert(p.take(p.len() as int) == p);
    result
}

/// Whether two texts are the same.
pub fn same_text(a: &Vec<char>, b: &Vec<char>) -> (same: bool)
    ensures
        same == (a@ == b@),
{
    let same = a.len() == b.len() && starts_with(a, b);
    proof {
        if same {
            assert(a@ =~= b@);
        }
    }
    same
}

/// Whether `s` begins with `prefix`.
pub fn starts_with(s: &Vec<char>, prefix: &Vec<char>) -> (yes: bool)
    ensures
        yes == prefix@.is_prefix_of(s@),
{
    if s.len() < prefix.len() {
        return false;
    }
    let mut i: usize = 0;
    while i < prefix.len()
        invariant
            i <= prefix.len() <= s.len(),
            forall|j: int| 0 <= j < i ==> s@[j] == prefix@[j],
        decreases prefix.len() - i,
    {
        if s[i] != prefix[i] {
            return false;
        }
        i += 1;
    }
    assert(prefix@ =~= s@.subrange(0, prefix@.len() as int));
    true
}

/// A text has at least one part.
proof fn lemma_parts_nonempty(s: Seq<char>, sep: Separator)
    ensures
        parts(s, sep).len() >= 1,
    decreases s.len(),
{
    if s.len() > 0 {
        lemma_parts_nonempty(s.drop_last(), sep);
    }
}

/// The parts with the mark between them.
pub open spec fn rejoined(parts: Seq<Seq<char>>, mark: char) -> Seq<char>
    decreases parts.len(),
{
    if parts.len() == 0 {
        Seq::empty()
    } else if parts.len() == 1 {
        parts[0]
    } else {
        rejoined(parts.drop_last(), mark).push(mark) + parts.last()
    }
}

/// Splitting a text at a mark loses nothing: the parts with the mark between
/// them are the text again.
pub proof fn law_split_rejoins(s: Seq<char>, mark: char)
    ensures
        rejoined(parts(s, Separator::Mark(mark)), mark) == s,
    decreases s.len(),
{
    let sep = Separator::Mark(mark);
    let all = parts(s, sep);
    if s.len() > 0 {
        law_split_rejoins(s.drop_last(), mark);
        lemma_parts_nonempty(s.drop_last(), sep);
        let before = parts(s.drop_last(), sep);
        assert(s.drop_last().push(s.last()) =~= s);
        if sep.matches(s.last()) {
            assert(all.drop_last() =~= before);
            assert(rejoined(all, mark) =~= s);
        } else {
            assert(all.drop_last() =~= before.drop_last());
            assert(rejoined(all, mark) =~= rejoined(before, mark).push(s.last()));
        }
    }
}

/// No part of a text holds a separator.
pub proof fn law_parts_hold_no_separator(s: Seq<char>, sep: Separator)
    ensures
        forall|i: int, j: int|
            0 <= i < parts(s, sep).len() && 0 <= j < parts(s, sep)[i].len() ==> !sep.matches(
                #[trigger] parts(s, sep)[i][j],
            ),
    decreases s.len(),
{
    if s.len() > 0 {
        let before = parts(s.drop_last(), sep);
        law_parts_hold_no_separator(s.drop_last(), sep);
        lemma_parts_nonempty(s.drop_last(), sep);
        assert forall|i: int, j: int|
            0 <= i < parts(s, sep).len() && 0 <= j < parts(s, sep)[i].len() implies !sep.matches(
            #[trigger] parts(s, sep)[i][j],
        ) by {
            if i < before.len() && j < before[i].len() {
                assert(!sep.matches(before[i][j]));
                assert(parts(s, sep)[i][j] == before[i][j]);
            }
        }
    }
}

/// One after the other.
pub open spec fn run_together(words: Seq<Seq<char>>) -> Seq<char>
    decreases words.len(),
{
    if words.len() == 0 {
        Seq::empty()
    } else {
        run_together(words.drop_last()) + words.last()
    }
}

/// `s` without its white space.
pub open spec fn without_white(s: Seq<char>) -> Seq<char> {
    s.filter(|c: char| !is_white(c))
}

/// Words are not empty and hold no white space, and one after the other they are
/// the text without its white space.
pub proof fn law_words(s: Seq<char>)
    ensures
        forall|i: int| 0 <= i < words_of(s).len() ==> (#[trigger] words_of(s)[i]).len() > 0,
        forall|i: int, j: int|
            0 <= i < words_of(s).len() && 0 <= j < words_of(s)[i].len() ==> !is_white(
                #[trigger] words_of(s)[i][j],
            ),
        run_together(words_of(s)) == without_white(s),
{
    let sep = Separator::Whitespace;
    let all = parts(s, sep);
    let full = |w: Seq<char>| w.len() > 0;
    broadcast use vstd::seq_lib::group_filter_ensures;
    law_parts_hold_no_separator(s, sep);
    assert forall|i: int, j: int|
        0 <= i < words_of(s).len() && 0 <= j < words_of(s)[i].len() implies !is_white(
        #[trigger] words_of(s)[i][j],
    ) by {
        let w = words_of(s)[i];
        assert(words_of(s).contains(w));
        all.lemma_filter_contains_rev(full, w);
        let k = all.index_of(w);
        assert(!sep.matches(all[k][j]));
    }
    assert forall|i: int| 0 <= i < words_of(s).len() implies (#[trigger] words_of(s)[i]).len()
        > 0 by {
        assert(full(words_of(s)[i]));
    }
    lemma_run_together_full(all);
    lemma_run_together_parts(s);
}

proof fn lemma_run_together_full(all: Seq<Seq<char>>)
    ensures
        run_together(all.filter(|w: Seq<char>| w.len() > 0)) == run_together(all),
    decreases all.len(),
{
    reveal(Seq::filter);
    let full = |w: Seq<char>| w.len() > 0;
    if all.len() > 0 {
        lemma_run_together_full(all.drop_last());
        let before = all.drop_last().filter(full);
        if full(all.last()) {
            assert(before.push(all.last()).drop_last() =~= before);
        } else {
            assert(run_together(all) =~= run_together(all.drop_last()));
        }
    }
}

proof fn lemma_run_together_parts(s: Seq<char>)
    ensures
        run_together(parts(s, Separator::Whitespace)) == without_white(s),
    decreases s.len(),
{
    reveal(Seq::filter);
    let sep = Separator::Whitespace;
    let all = parts(s, sep);
    if s.len() == 0 {
        assert(all.drop_last() =~= Seq::<Seq<char>>::empty());
        assert(run_together(all.drop_last()) =~= Seq::<char>::empty());
        assert(all.last() =~= Seq::<char>::empty());
        assert(run_together(all) =~= Seq::<char>::empty());
        assert(without_white(s) =~= Seq::<char>::empty());
    } else {
        let before = parts(s.drop_last(), sep);
        lemma_run_together_parts(s.drop_last());
        lemma_parts_nonempty(s.drop_last(), sep);
        if is_white(s.last()) {
            assert(all.drop_last() =~= before);
            assert(run_together(all) =~= run_together(before));
        } else {
            assert(all.drop_last() =~= before.drop_last());
            assert(run_together(all) =~= run_together(before).push(s.last()));
        }
    }
}

/// A trimmed text neither begins nor ends with white space, and trimming it again
/// changes nothing. What is cut off is white space.
pub proof fn law_trimmed(s: Seq<char>)
    ensures
        trimmed(s).len() > 0 ==> !is_white(trimmed(s)[0]) && !is_white(trimmed(s).last()),
        trimmed(trimmed(s)) == trimmed(s),
        exists|lo: int, hi: int|
            {
                &&& 0 <= lo <= hi <= s.len()
                &&& trimmed(s) == #[trigger] s.subrange(lo, hi)
                &&& forall|i: int| 0 <= i < lo || hi <= i < s.len() ==> is_white(#[trigger] s[i])
            },
{
    let t = trim_start(s);
    let lo = lemma_trim_start(s);
    let n = lemma_trim_end(t);
    let hi = lo + n;
    assert(trimmed(s) =~= s.subrange(lo, hi));
    assert forall|i: int| 0 <= i < lo || hi <= i < s.len() implies is_white(#[trigger] s[i]) by {
        if hi <= i {
            assert(t[i - lo] == s[i]);
        }
    }
    if trimmed(s).len() > 0 {
        assert(trimmed(s)[0] == t[0]);
    }
}

proof fn lemma_trim_start(s: Seq<char>) -> (lo: int)
    ensures
        0 <= lo <= s.len(),
        trim_start(s) == s.skip(lo),
        forall|i: int| 0 <= i < lo ==> is_white(#[trigger] s[i]),
        lo < s.len() ==> !is_white(s[lo]),
    decreases s.len(),
{
    if s.len() > 0 && is_white(s[0]) {
        let k = lemma_trim_start(s.drop_first());
        assert(s.drop_first().skip(k) =~= s.skip(k + 1));
        assert forall|i: int| 0 <= i < k + 1 implies is_white(#[trigger] s[i]) by {
            if i > 0 {
                assert(s[i] == s.drop_first()[i - 1]);
            }
        }
        k + 1
    } else {
        assert(s.skip(0) =~= s);
        0
    }
}

proof fn lemma_trim_end(s: Seq<char>) -> (n: int)
    ensures
        0 <= n <= s.len(),
        trim_end(s) == s.take(n),
        forall|i: int| n <= i < s.len() ==> is_white(#[trigger] s[i]),
        n > 0 ==> !is_white(s[n - 1]),
    decreases s.len(),
{
    if s.len() > 0 && is_white(s.last()) {
        let n = lemma_trim_end(s.drop_last());
        assert(s.drop_last().take(n) =~= s.take(n));
        assert forall|i: int| n <= i < s.len() implies is_white(#[trigger] s[i]) by {
            if i < s.len() - 1 {
                assert(s[i] == s.drop_last()[i]);
            }
        }
        n
    } else {
        assert(s.take(s.len() as int) =~= s);
        s.len() as int
    }
}

/// A mark separates where it stands and nowhere else; white space separates where
/// any of it stands.
pub proof fn law_separators(mark: char, c: char)
    ensures
        Separator::Mark(mark).matches(c) <==> c == mark,
        Separator::Whitespace.matches(c) <==> is_white(c),
{
}

/// A separator ends one part and begins another: what stands before it and what
/// stands behind it are split each on its own.
pub proof fn law_split_at_separator(a: Seq<char>, c: char, b: Seq<char>, sep: Separator)
    requires
        sep.matches(c),
    ensures
        parts(a.push(c) + b, sep) == parts(a, sep) + parts(b, sep),
    decreases b.len(),
{
    let s = a.push(c) + b;
    if b.len() == 0 {
        assert(s =~= a.push(c));
        assert(s.drop_last() =~= a);
        assert(parts(s, sep) =~= parts(a, sep) + parts(b, sep));
    } else {
        law_split_at_separator(a, c, b.drop_last(), sep);
        lemma_parts_nonempty(b.drop_last(), sep);
        assert(s.drop_last() =~= a.push(c) + b.drop_last());
        assert(s.last() == b.last());
        assert(parts(s, sep) =~= parts(a, sep) + parts(b, sep));
    }
}

/// A text without separators is its only part.
pub proof fn law_unseparated(s: Seq<char>, sep: Separator)
    requires
        forall|i: int| 0 <= i < s.len() ==> !sep.matches(#[trigger] s[i]),
    ensures
        parts(s, sep) == seq![s],
    decreases s.len(),
{
    if s.len() == 0 {
        assert(s =~= Seq::<char>::empty());
    } else {
        let before = s.drop_last();
        assert forall|i: int| 0 <= i < before.len() implies !sep.matches(#[trigger] before[i]) by {
            assert(before[i] == s[i]);
        }
        law_unseparated(before, sep);
        assert(!sep.matches(s[s.len() - 1]));
        assert(before.push(s.last()) =~= s);
        assert(parts(s, sep) =~= seq![s]);
    }
}

/// White space keeps words apart: the words of a text are those before it and then
/// those behind it.
pub proof fn law_words_apart(a: Seq<char>, c: char, b: Seq<char>)
    requires
        is_white(c),
    ensures
        words_of(a.push(c) + b) == words_of(a) + words_of(b),
{
    let sep = Separator::Whitespace;
    law_split_at_separator(a, c, b, sep);
    Seq::filter_distributes_over_add(parts(a, sep), parts(b, sep), |w: Seq<char>| w.len() > 0);
}

/// What holds no white space is one word, whole, unless it is empty.
pub proof fn law_one_word(s: Seq<char>)
    requires
        forall|i: int| 0 <= i < s.len() ==> !is_white(#[trigger] s[i]),
    ensures
        words_of(s) == (if s.len() == 0 {
            Seq::empty()
        } else {
            seq![s]
        }),
{
    reveal(Seq::filter);
    let sep = Separator::Whitespace;
    let full = |w: Seq<char>| w.len() > 0;
    law_unseparated(s, sep);
    let all = seq![s];
    assert(all.drop_last() =~= Seq::<Seq<char>>::empty());
    assert(all.drop_last().filter(full) =~= Seq::<Seq<char>>::empty());
    assert(all.last() == s);
    assert(all.filter(full) =~= (if full(s) {
        seq![s]
    } else {
        Seq::empty()
    }));
}

/// Whether `s` goes over no line end.
pub open spec fn on_one_line(s: Seq<char>) -> bool {
    !s.contains('\n')
}

/// The first line ends at the first line feed, with or without a carriage return
/// before it; the other lines are those of what follows.
pub proof fn law_first_line(line: Seq<char>, rest: Seq<char>)
    requires
        on_one_line(line),
    ensures
        lines_of(line.push('\r').push('\n') + rest) == seq![line] + lines_of(rest),
        line.len() == 0 || line.last() != '\r' ==> lines_of(line.push('\n') + rest) == seq![line]
            + lines_of(rest),
{
    let ended = line.push('\r');
    assert forall|i: int| 0 <= i < ended.len() implies ended[i] != '\n' by {
        if i < line.len() {
            assert(ended[i] == line[i]);
            assert(line.contains(line[i]));
        }
    }
    lemma_first_line(ended, rest);
    assert(ended.drop_last() =~= line);
    lemma_first_line(line, rest);
}

proof fn lemma_first_line(piece: Seq<char>, rest: Seq<char>)
    requires
        on_one_line(piece),
    ensures
        lines_of(piece.push('\n') + rest) == seq![without_return(piece)] + lines_of(rest),
{
    let sep = Separator::Mark('\n');
    let s = piece.push('\n') + rest;
    assert forall|i: int| 0 <= i < piece.len() implies !sep.matches(#[trigger] piece[i]) by {
        assert(piece.contains(piece[i]));
    }
    law_split_at_separator(piece, '\n', rest, sep);
    law_unseparated(piece, sep);
    lemma_parts_nonempty(rest, sep);
    let others = parts(rest, sep);
    assert(parts(s, sep) =~= seq![piece] + others);
    assert(parts(s, sep).drop_last() =~= seq![piece] + others.drop_last());
    assert(without_returns(parts(s, sep).drop_last()) =~= seq![without_return(piece)]
        + without_returns(others.drop_last()));
    assert(lines_of(s) =~= seq![without_return(piece)] + lines_of(rest));
}

/// What follows the last line end is a line too, unless it is empty.
pub proof fn law_last_line(line: Seq<char>)
    requires
        on_one_line(line),
    ensures
        lines_of(line) == (if line.len() == 0 {
            Seq::empty()
        } else {
            seq![line]
        }),
{
    let sep = Separator::Mark('\n');
    assert forall|i: int| 0 <= i < line.len() implies !sep.matches(#[trigger] line[i]) by {
        assert(line.contains(line[i]));
    }
    law_unseparated(line, sep);
    assert(without_returns(seq![line].drop_last()) =~= Seq::<Seq<char>>::empty());
    assert(lines_of(line) =~= (if line.len() == 0 {
        Seq::empty()
    } else {
        seq![line]
    }));
}

/// Lists of texts are shown text by text, none left out and none changed.
pub proof fn law_texts_shown(chars: Seq<Vec<char>>, words: Seq<String>, i: int)
    ensures
        texts(chars).len() == chars.len(),
        strings(words).len() == words.len(),
        0 <= i < chars.len() ==> texts(chars)[i] == chars[i]@,
        0 <= i < words.len() ==> strings(words)[i] == words[i]@,
{
}

} // verus!
