//! The patches of a benchmark: source changes that are applied between builds.
use crate::path::FilePath;
use vstd::prelude::*;

verus! {

/// A change to a benchmark's sources, known by the path of its file.
#[derive(Debug)]
pub struct Patch {
    pub path: FilePath,
}

impl View for Patch {
    type V = Seq<u8>;

    open spec fn view(&self) -> Seq<u8> {
        self.path@
    }
}

impl Patch {
    /// The patch in this file.
    pub fn new(path: FilePath) -> (patch: Patch)
        ensures
            patch@ == path@,
    {
        Patch { path }
    }

    /// A copy of the patch.
    pub fn copy(&self) -> (patch: Patch)
        ensures
            patch@ == self@,
    {
        Patch { path: self.path.copy() }
    }

    /// Whether this is the same patch as `other`.
    pub fn same(&self, other: &Patch) -> (same: bool)
        ensures
            same == (self@ == other@),
    {
        crate::path::same_bytes(&self.path.bytes, &other.path.bytes)
    }
}

/// The contents of a list of paths.
pub open spec fn paths(v: Seq<FilePath>) -> Seq<Seq<u8>> {
    v.map_values(|p: FilePath| p@)
}

/// The contents of a list of patches.
pub open spec fn patch_paths(v: Seq<Patch>) -> Seq<Seq<u8>> {
    v.map_values(|p: Patch| p@)
}

/// The order in which patches are applied: that of their file names.
pub open spec fn name_order() -> spec_fn(Seq<u8>, Seq<u8>) -> bool {
    |a: Seq<u8>, b: Seq<u8>| crate::path::bytes_ordered(a, b)
}

/// Of the names of a directory's entries, those of patch files, in order.
pub open spec fn patch_names(entries: Seq<Seq<u8>>) -> Seq<Seq<u8>> {
    entries.filter(|name: Seq<u8>| crate::path::is_patch_name(name)).sort_by(name_order())
}

/// The files of the directory `dir` with these names.
pub open spec fn files_in(dir: Seq<u8>, names: Seq<Seq<u8>>) -> Seq<Seq<u8>> {
    names.map_values(|name: Seq<u8>| crate::path::joined(dir, name))
}

/// Puts `name` where it belongs in a sorted list.
fn insert_name(sorted: &mut Vec<FilePath>, name: FilePath)
    requires
        vstd::relations::sorted_by(paths(old(sorted)@), name_order()),
    ensures
        vstd::relations::sorted_by(paths(final(sorted)@), name_order()),
        paths(final(sorted)@).to_multiset() == paths(old(sorted)@).to_multiset().insert(name@),
{
    let ghost before = paths(sorted@);
    let mut i: usize = 0;
    while i < sorted.len() && crate::path::bytes_in_order(&sorted[i].bytes, &name.bytes)
        invariant
            i <= sorted.len(),
            before == paths(sorted@),
            forall|j: int| 0 <= j < i ==> #[trigger] name_order()(before[j], name@),
        decreases sorted.len() - i,
    {
        assert(before[i as int] == sorted@[i as int]@);
        i += 1;
    }
    proof {
        crate::path::law_bytes_order_total();
        let leq = name_order();
        assert forall|j: int| i <= j < before.len() implies #[trigger] leq(name@, before[j]) by {
            assert(before[i as int] == sorted@[i as int]@);
            assert(!leq(before[i as int], name@));
            assert(leq(name@, before[i as int]));
            if i < j {
                assert(leq(before[i as int], before[j]));
            }
        }
        vstd::seq_lib::to_multiset_insert(before, i as int, name@);
    }
    sorted.insert(i, name);
    assert(paths(sorted@) =~= before.insert(i as int, name@));
}

/// Of the names of a directory's entries, those of patch files, in order.
pub fn list_patches(entries: Vec<FilePath>) -> (names: Vec<FilePath>)
    ensures
        paths(names@) == patch_names(paths(entries@)),
{
    let ghost all = paths(entries@);
    let ghost kept = |name: Seq<u8>| crate::path::is_patch_name(name);
    let mut names: Vec<FilePath> = Vec::new();
    let mut i: usize = 0;
    proof {
        reveal(Seq::filter);
        assert(all.take(0).filter(kept) =~= paths(names@));
    }
    while i < entries.len()
        invariant
            i <= entries.len(),
            all == paths(entries@),
            kept == (|name: Seq<u8>| crate::path::is_patch_name(name)),
            vstd::relations::sorted_by(paths(names@), name_order()),
            paths(names@).to_multiset() == all.take(i as int).filter(kept).to_multiset(),
        decreases entries.len() - i,
    {
        let name = entries[i].copy();
        proof {
            reveal(Seq::filter);
            let next = all.take(i + 1);
            assert(next.drop_last() == all.take(i as int));
            assert(next.last() == name@);
            vstd::seq_lib::to_multiset_build(all.take(i as int).filter(kept), name@);
        }
        if name.is_patch() {
            insert_name(&mut names, name);
        }
        i += 1;
    }
    proof {
        assert(all.take(all.len() as int) == all);
        crate::path::law_bytes_order_total();
        all.filter(kept).lemma_sort_by_ensures(name_order());
        vstd::seq_lib::lemma_sorted_unique(paths(names@), patch_names(all), name_order());
    }
    names
}

/// The patches of the directory `dir` whose entries have these names.
pub fn patches_in(dir: &FilePath, entries: Vec<FilePath>) -> (patches: Vec<Patch>)
    ensures
        patch_paths(patches@) == files_in(dir@, patch_names(paths(entries@))),
{
    let names = list_patches(entries);
    let ghost expected = files_in(dir@, paths(names@));
    let mut patches: Vec<Patch> = Vec::new();
    let mut i: usize = 0;
    while i < names.len()
        invariant
            i <= names.len(),
            expected == files_in(dir@, paths(names@)),
            patch_paths(patches@) == expected.take(i as int),
        decreases names.len() - i,
    {
        let ghost before = patch_paths(patches@);
        let patch = Patch::new(dir.join(&names[i]));
        assert(expected[i as int] == patch@);
        patches.push(patch);
        assert(patch_paths(patches@) == before.push(patch@));
        i += 1;
    }
    assert(expected.take(names.len() as int) == expected);
    patches
}

/// The listed names are sorted, have the extension of a patch file, and none of
/// the directory's patch files is missing or listed more often than it occurs.
pub proof fn law_patch_names(entries: Seq<Seq<u8>>)
    ensures
        vstd::relations::sorted_by(patch_names(entries), name_order()),
        forall|name: Seq<u8>| #[trigger]
            patch_names(entries).contains(name) <==> entries.contains(name)
                && crate::path::is_patch_name(name),
        patch_names(entries).to_multiset() == entries.filter(
            |name: Seq<u8>| crate::path::is_patch_name(name),
        ).to_multiset(),
{
    let kept = |name: Seq<u8>| crate::path::is_patch_name(name);
    crate::path::law_bytes_order_total();
    entries.filter(kept).lemma_sort_by_ensures(name_order());
    broadcast use {vstd::seq_lib::group_to_multiset_ensures, vstd::seq_lib::group_filter_ensures};
    assert forall|name: Seq<u8>| #[trigger]
        patch_names(entries).contains(name) <==> entries.contains(name)
            && crate::path::is_patch_name(name) by {
        if entries.filter(kept).contains(name) {
            entries.lemma_filter_contains_rev(kept, name);
        }
        if entries.contains(name) {
            let i = entries.index_of(name);
            assert(kept(entries[i]) ==> entries.filter(kept).contains(entries[i]));
        }
        assert(patch_names(entries).to_multiset().count(name) == entries.filter(
            kept,
        ).to_multiset().count(name));
    }
}

/// Where no entry occurs twice, no patch does.
pub proof fn law_patches_distinct(dir: Seq<u8>, entries: Seq<Seq<u8>>)
    requires
        entries.no_duplicates(),
        forall|i: int|
            0 <= i < entries.len() ==> (#[trigger] entries[i]).len() > 0 && entries[i][0]
                != crate::path::SLASH,
    ensures
        files_in(dir, patch_names(entries)).no_duplicates(),
{
    let kept = |name: Seq<u8>| crate::path::is_patch_name(name);
    let names = patch_names(entries);
    law_patch_names(entries);
    lemma_filter_distinct(entries, kept);
    entries.filter(kept).lemma_multiset_has_no_duplicates();
    names.lemma_multiset_has_no_duplicates_conv();
    let files = files_in(dir, names);
    assert forall|i: int, j: int|
        0 <= i < files.len() && 0 <= j < files.len() && i != j implies files[i] != files[j] by {
        assert(names.contains(names[i]) && names.contains(names[j]));
        let p = entries.index_of(names[i]);
        let q = entries.index_of(names[j]);
        assert(entries[p].len() > 0 && entries[q].len() > 0);
        crate::path::law_join_keeps_names_apart(dir, names[i], names[j]);
    }
}

proof fn lemma_filter_distinct(entries: Seq<Seq<u8>>, kept: spec_fn(Seq<u8>) -> bool)
    requires
        entries.no_duplicates(),
    ensures
        entries.filter(kept).no_duplicates(),
    decreases entries.len(),
{
    reveal(Seq::filter);
    if entries.len() > 0 {
        let before = entries.drop_last();
        lemma_filter_distinct(before, kept);
        if before.filter(kept).contains(entries.last()) {
            before.lemma_filter_contains_rev(kept, entries.last());
            let k = before.index_of(entries.last());
            assert(entries[k] == entries[entries.len() - 1]);
        }
    }
}

/// A patch is known by its path, and lists of paths and of patches are shown one by
/// one, none left out and none changed.
pub proof fn law_patches_shown(files: Seq<FilePath>, patches: Seq<Patch>, i: int)
    ensures
        paths(files).len() == files.len(),
        patch_paths(patches).len() == patches.len(),
        0 <= i < files.len() ==> paths(files)[i] == files[i]@,
        0 <= i < patches.len() ==> patch_paths(patches)[i] == patches[i].path@,
{
}

/// The patches of a directory are its patch files, each under its own name behind
/// the directory, in the order of a dictionary of their names.
pub proof fn law_patches_lie_in_directory(dir: Seq<u8>, entries: Seq<Seq<u8>>, i: int, j: int)
    requires
        forall|k: int|
            0 <= k < entries.len() ==> (#[trigger] entries[k]).len() == 0 || entries[k][0]
                != crate::path::SLASH,
        0 <= i <= j < files_in(dir, patch_names(entries)).len(),
    ensures
        files_in(dir, patch_names(entries)).len() == patch_names(entries).len(),
        files_in(dir, patch_names(entries))[i] == crate::path::joined(dir, patch_names(entries)[i]),
        dir.is_prefix_of(files_in(dir, patch_names(entries))[i]),
        patch_names(entries)[i].is_suffix_of(files_in(dir, patch_names(entries))[i]),
        patch_names(entries)[i].is_prefix_of(patch_names(entries)[j]) || exists|k: int|
            crate::path::lesser_at(patch_names(entries)[i], patch_names(entries)[j], k),
{
    let names = patch_names(entries);
    law_patch_names(entries);
    assert(names.contains(names[i]));
    let k = entries.index_of(names[i]);
    assert(entries[k] == names[i]);
    crate::path::law_join(dir, names[i]);
    crate::path::law_bytes_order(names[i], names[j]);
    if i == j {
        assert(names[i] =~= names[j].subrange(0, names[i].len() as int));
    } else {
        assert(name_order()(names[i], names[j]));
    }
}

} // verus!
