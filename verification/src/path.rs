//! File paths, as the bytes that the operating system sees.
use vstd::prelude::*;
use vstd::string::StrSliceExecFns;

verus! {

/// A path, with `/` between its components.
#[derive(Debug)]
pub struct FilePath {
    pub bytes: Vec<u8>,
}

impl View for FilePath {
    type V = Seq<u8>;

    open spec fn view(&self) -> Seq<u8> {
        self.bytes@
    }
}

/// The path of `file` seen from the directory `dir`: an absolute path stands
/// for itself, any other goes behind the directory and one separator.
pub open spec fn joined(dir: Seq<u8>, file: Seq<u8>) -> Seq<u8> {
    if file.len() > 0 && file[0] == SLASH {
        file
    } else if dir.len() > 0 && dir.last() != SLASH {
        dir.push(SLASH) + file
    } else {
        dir + file
    }
}

/// The byte between two components of a path.
pub const SLASH: u8 = 0x2f;

/// Whether the bytes of `a` come before those of `b`, or are the same, in the
/// order of a dictionary.
pub open spec fn bytes_ordered(a: Seq<u8>, b: Seq<u8>) -> bool
    decreases a.len(),
{
    if a.len() == 0 {
        true
    } else if b.len() == 0 {
        false
    } else if a[0] != b[0] {
        a[0] < b[0]
    } else {
        bytes_ordered(a.drop_first(), b.drop_first())
    }
}

/// A copy of the bytes.
pub fn copy_bytes(bytes: &Vec<u8>) -> (copy: Vec<u8>)
    ensures
        copy@ == bytes@,
{
    let mut copy: Vec<u8> = Vec::new();
    append_bytes(&mut copy, bytes.as_slice());
    copy
}

/// Puts the bytes of `more` behind those of `bytes`.
fn append_bytes(bytes: &mut Vec<u8>, more: &[u8])
    ensures
        final(bytes)@ == old(bytes)@ + more@,
{
    let mut i: usize = 0;
    while i < more.len()
        invariant
            i <= more.len(),
            bytes@ == old(bytes)@ + more@.take(i as int),
        decreases more.len() - i,
    {
        bytes.push(more[i]);
        i += 1;
    }
}

/// Whether two byte strings are the same.
pub fn same_bytes(a: &Vec<u8>, b: &Vec<u8>) -> (same: bool)
    ensures
        same == (a@ == b@),
{
    if a.len() != b.len() {
        return false;
    }
    let mut i: usize = 0;
    while i < a.len()
        invariant
            i <= a.len() == b.len(),
            a@.take(i as int) == b@.take(i as int),
        decreases a.len() - i,
    {
        if a[i] != b[i] {
            return false;
        }
        assert(a@.take(i + 1) == a@.take(i as int).push(a@[i as int]));
        assert(b@.take(i + 1) == b@.take(i as int).push(b@[i as int]));
        i += 1;
    }
    assert(a@.take(a.len() as int) == a@);
    assert(b@.take(b.len() as int) == b@);
    true
}

/// Whether `a` is ordered before `b`, or is the same.
pub fn bytes_in_order(a: &Vec<u8>, b: &Vec<u8>) -> (yes: bool)
    ensures
        yes == bytes_ordered(a@, b@),
{
    let mut i: usize = 0;
    assert(a@.skip(0) == a@);
    assert(b@.skip(0) == b@);
    while i < a.len() && i < b.len() && a[i] == b[i]
        invariant
            i <= a.len(),
            i <= b.len(),
            bytes_ordered(a@, b@) == bytes_ordered(a@.skip(i as int), b@.skip(i as int)),
        decreases a.len() - i,
    {
        assert(a@.skip(i as int).drop_first() == a@.skip(i + 1));
        assert(b@.skip(i as int).drop_first() == b@.skip(i + 1));
        i += 1;
    }
    if i == a.len() {
        true
    } else if i == b.len() {
        false
    } else {
        a[i] < b[i]
    }
}

impl FilePath {
    /// A copy of the path.
    pub fn copy(&self) -> (path: FilePath)
        ensures
            path@ == self@,
    {
        FilePath { bytes: copy_bytes(&self.bytes) }
    }

    /// The path of `file` seen from this directory.
    pub fn join(&self, file: &FilePath) -> (path: FilePath)
        ensures
            path@ == joined(self@, file@),
    {
        let mut bytes: Vec<u8> = Vec::new();
        let absolute = file.bytes.len() > 0 && file.bytes[0] == SLASH;
        if !absolute {
            append_bytes(&mut bytes, self.bytes.as_slice());
            if bytes.len() > 0 && bytes[bytes.len() - 1] != SLASH {
                bytes.push(SLASH);
            }
        }
        append_bytes(&mut bytes, file.bytes.as_slice());
        assert(bytes@ =~= joined(self@, file@));
        FilePath { bytes }
    }

    /// The path of the file with this name seen from this directory.
    pub fn join_name(&self, name: &str) -> (path: FilePath)
        ensures
            path@ == joined(self@, vstd::utf8::encode_utf8(name@)),
    {
        let file = FilePath { bytes: name.as_bytes_vec() };
        self.join(&file)
    }

    /// Whether this file name has the extension `patch`.
    pub fn is_patch(&self) -> (yes: bool)
        ensures
            yes == is_patch_name(self@),
    {
        let suffix = ".patch".as_bytes_vec();
        if self.bytes.len() <= suffix.len() {
            return false;
        }
        let from: usize = self.bytes.len() - suffix.len();
        let mut i: usize = 0;
        while i < suffix.len()
            invariant
                i <= suffix.len(),
                from + suffix.len() == self.bytes.len(),
                suffix@ == vstd::utf8::encode_utf8(".patch"@),
                forall|j: int| 0 <= j < i ==> suffix@[j] == self@[from + j],
            decreases suffix.len() - i,
        {
            if suffix[i] != self.bytes[from + i] {
                assert(self@.skip(from as int)[i as int] != suffix@[i as int]);
                return false;
            }
            i += 1;
        }
        assert(self@.skip(from as int) =~= suffix@);
        true
    }
}

/// Whether a file name has the extension `patch`: it is something, followed by
/// `.patch`.
pub open spec fn is_patch_name(name: Seq<u8>) -> bool {
    let suffix = vstd::utf8::encode_utf8(".patch"@);
    name.len() > suffix.len() && name.skip(name.len() - suffix.len()) == suffix
}

/// The order of byte strings is total: two of them are always ordered one way,
/// both ways only when they are equal, and orders chain.
pub proof fn law_bytes_order_total()
    ensures
        vstd::relations::total_ordering(|a: Seq<u8>, b: Seq<u8>| bytes_ordered(a, b)),
{
    let leq = |a: Seq<u8>, b: Seq<u8>| bytes_ordered(a, b);
    assert forall|a: Seq<u8>| #[trigger] leq(a, a) by {
        lemma_ordered_reflexive(a);
    }
    assert forall|a: Seq<u8>, b: Seq<u8>| #[trigger] leq(a, b) && #[trigger] leq(b, a) implies a
        == b by {
        lemma_ordered_antisymmetric(a, b);
    }
    assert forall|a: Seq<u8>, b: Seq<u8>, c: Seq<u8>| #[trigger]
        leq(a, b) && #[trigger] leq(b, c) implies leq(a, c) by {
        lemma_ordered_transitive(a, b, c);
    }
    assert forall|a: Seq<u8>, b: Seq<u8>| #[trigger] leq(a, b) || #[trigger] leq(b, a) by {
        lemma_ordered_connected(a, b);
    }
}

proof fn lemma_ordered_reflexive(a: Seq<u8>)
    ensures
        bytes_ordered(a, a),
    decreases a.len(),
{
    if a.len() > 0 {
        lemma_ordered_reflexive(a.drop_first());
    }
}

proof fn lemma_ordered_antisymmetric(a: Seq<u8>, b: Seq<u8>)
    requires
        bytes_ordered(a, b),
        bytes_ordered(b, a),
    ensures
        a == b,
    decreases a.len(),
{
    if a.len() > 0 && b.len() > 0 {
        lemma_ordered_antisymmetric(a.drop_first(), b.drop_first());
        assert(a == seq![a[0]] + a.drop_first());
        assert(b == seq![b[0]] + b.drop_first());
    } else {
        assert(a =~= b);
    }
}

proof fn lemma_ordered_transitive(a: Seq<u8>, b: Seq<u8>, c: Seq<u8>)
    requires
        bytes_ordered(a, b),
        bytes_ordered(b, c),
    ensures
        bytes_ordered(a, c),
    decreases a.len(),
{
    if a.len() > 0 && a[0] == b[0] && b[0] == c[0] {
        lemma_ordered_transitive(a.drop_first(), b.drop_first(), c.drop_first());
    }
}

proof fn lemma_ordered_connected(a: Seq<u8>, b: Seq<u8>)
    ensures
        bytes_ordered(a, b) || bytes_ordered(b, a),
    decreases a.len(),
{
    if a.len() > 0 && b.len() > 0 {
        lemma_ordered_connected(a.drop_first(), b.drop_first());
    }
}

/// Different names in one directory are different paths.
pub proof fn law_join_keeps_names_apart(dir: Seq<u8>, a: Seq<u8>, b: Seq<u8>)
    requires
        a.len() > 0 ==> a[0] != SLASH,
        b.len() > 0 ==> b[0] != SLASH,
        a != b,
    ensures
        joined(dir, a) != joined(dir, b),
{
    let lead = if dir.len() > 0 && dir.last() != SLASH {
        dir.push(SLASH)
    } else {
        dir
    };
    assert(joined(dir, a).skip(lead.len() as int) =~= a);
    assert(joined(dir, b).skip(lead.len() as int) =~= b);
}

/// A path holds just its bytes.
pub proof fn law_path_shown(path: FilePath)
    ensures
        path@ == path.bytes@,
{
}

/// Seen from a directory, a path begins with the directory and ends with the file,
/// and one slash at least parts them: one is put between where the directory is
/// named and does not end in one. An absolute path is seen the same from anywhere.
pub proof fn law_join(dir: Seq<u8>, file: Seq<u8>)
    ensures
        file.len() > 0 && file[0] == SLASH ==> joined(dir, file) == file,
        file.len() == 0 || file[0] != SLASH ==> {
            let path = joined(dir, file);
            let between = path.len() - dir.len() - file.len();
            &&& dir.is_prefix_of(path)
            &&& file.is_suffix_of(path)
            &&& between == 0 || between == 1
            &&& between == 0 <==> dir.len() == 0 || dir.last() == SLASH
            &&& between == 1 ==> path[dir.len() as int] == SLASH
        },
{
    let path = joined(dir, file);
    if file.len() == 0 || file[0] != SLASH {
        assert(path.take(dir.len() as int) =~= dir);
        assert(path.skip(path.len() - file.len()) =~= file);
    }
}

/// Whether two byte strings are the same before `i`, and `a` has the lesser byte
/// there.
pub open spec fn lesser_at(a: Seq<u8>, b: Seq<u8>, i: int) -> bool {
    &&& 0 <= i < a.len()
    &&& i < b.len()
    &&& forall|j: int| 0 <= j < i ==> a[j] == b[j]
    &&& a[i] < b[i]
}

/// One byte string comes before another if and only if the other begins with it or
/// has the greater byte at the first place where they differ.
pub proof fn law_bytes_order(a: Seq<u8>, b: Seq<u8>)
    ensures
        bytes_ordered(a, b) <==> a.is_prefix_of(b) || exists|i: int| lesser_at(a, b, i),
    decreases a.len(),
{
    if a.len() == 0 {
        assert(a =~= b.subrange(0, 0));
    } else if b.len() > 0 && a[0] == b[0] {
        let x = a.drop_first();
        let y = b.drop_first();
        law_bytes_order(x, y);
        if x.is_prefix_of(y) {
            assert forall|j: int| 0 <= j < a.len() implies a[j] == b[j] by {
                if j > 0 {
                    assert(a[j] == x[j - 1]);
                    assert(x[j - 1] == y.subrange(0, x.len() as int)[j - 1]);
                }
            }
            assert(a =~= b.subrange(0, a.len() as int));
        }
        if a.is_prefix_of(b) {
            assert forall|j: int| 0 <= j < x.len() implies x[j] == y[j] by {
                assert(a[j + 1] == b.subrange(0, a.len() as int)[j + 1]);
            }
            assert(x =~= y.subrange(0, x.len() as int));
        }
        if exists|i: int| lesser_at(x, y, i) {
            let i = choose|i: int| lesser_at(x, y, i);
            assert forall|j: int| 0 <= j < i + 1 implies a[j] == b[j] by {
                if j > 0 {
                    assert(x[j - 1] == y[j - 1]);
                }
            }
            assert(lesser_at(a, b, i + 1));
        }
        if exists|i: int| lesser_at(a, b, i) {
            let i = choose|i: int| lesser_at(a, b, i);
            assert forall|j: int| 0 <= j < i - 1 implies x[j] == y[j] by {
                assert(a[j + 1] == b[j + 1]);
            }
            assert(lesser_at(x, y, i - 1));
        }
    } else {
        if a.is_prefix_of(b) {
            assert(a[0] == b.subrange(0, a.len() as int)[0]);
        }
        if b.len() > 0 && a[0] < b[0] {
            assert(lesser_at(a, b, 0));
        }
        if exists|i: int| lesser_at(a, b, i) {
            let i = choose|i: int| lesser_at(a, b, i);
            assert(i == 0);
        }
    }
}

/// A patch file's name is made of something, whatever it is, and `.patch`.
pub proof fn law_patch_name(stem: Seq<u8>, name: Seq<u8>)
    ensures
        is_patch_name(stem + vstd::utf8::encode_utf8(".patch"@)) <==> stem.len() > 0,
        is_patch_name(name) ==> exists|s: Seq<u8>|
            s.len() > 0 && name == #[trigger] (s + vstd::utf8::encode_utf8(".patch"@)),
{
    let suffix = vstd::utf8::encode_utf8(".patch"@);
    let whole = stem + suffix;
    assert(whole.skip(whole.len() - suffix.len()) =~= suffix);
    if is_patch_name(name) {
        let s = name.take(name.len() - suffix.len());
        assert(name =~= s + suffix);
    }
}

} // verus!
