use std::path::{Path, PathBuf};

use collector::patch::{list_patches, patches_in, Patch};
use collector::path::{bytes_in_order, copy_bytes, same_bytes, FilePath};

fn path(s: &str) -> FilePath {
    FilePath { bytes: s.as_bytes().to_vec() }
}

fn text(p: &FilePath) -> String {
    String::from_utf8(p.bytes.clone()).unwrap()
}

#[test]
fn joining_is_that_of_the_standard_library() {
    for dir in ["", "/", "a", "a/", "/a/b", "/a//", "."] {
        for file in ["", "x", "x/y", "/x", "/", "..", "a b"] {
            let expected: PathBuf = Path::new(dir).join(file);
            let found = path(dir).join(&path(file));
            assert_eq!(text(&found), expected.to_str().unwrap(), "{:?} {:?}", dir, file);
            assert_eq!(text(&path(dir).join_name(file)), expected.to_str().unwrap());
        }
    }
    assert_eq!(text(&path("/tmp").join_name("perf")), "/tmp/perf");
}

#[test]
fn paths_need_not_be_text() {
    let dir = FilePath { bytes: vec![0x2f, 0xff] };
    assert_eq!(dir.join_name("é").bytes, vec![0x2f, 0xff, 0x2f, 0xc3, 0xa9]);
    assert_eq!(dir.copy().bytes, dir.bytes);
}

#[test]
fn patch_files_are_told_by_their_extension() {
    for name in [
        "0001-x.patch", ".patch", "..patch", "a.patch.orig", "patch", "x.PATCH", "x.patch ", "x..patch",
        "a", "a.b.patch", "é.patch", ".a.patch",
    ] {
        let expected = Path::new(name).extension().map_or(false, |e| e == "patch");
        assert_eq!(path(name).is_patch(), expected, "{:?}", name);
    }
    assert!(path("0001-x.patch").is_patch());
    assert!(!path(".patch").is_patch());
}

#[test]
fn bytes_are_ordered_as_slices_are() {
    let samples: [&[u8]; 7] = [b"", b"a", b"ab", b"b", b"a\xff", b"\x00", b"aa"];
    for a in samples {
        for b in samples {
            assert_eq!(bytes_in_order(&a.to_vec(), &b.to_vec()), a <= b);
            assert_eq!(same_bytes(&a.to_vec(), &b.to_vec()), a == b);
        }
        assert_eq!(copy_bytes(&a.to_vec()), a);
    }
}

#[test]
fn patches_are_listed_in_the_order_of_their_names() {
    let entries: Vec<FilePath> = ["src", "1-new.patch", "0-print.patch", "Cargo.toml", ".patch", "10-x.patch"]
        .iter()
        .map(|s| path(s))
        .collect();
    let names: Vec<String> = list_patches(entries).iter().map(text).collect();
    assert_eq!(names, ["0-print.patch", "1-new.patch", "10-x.patch"]);
}

#[test]
fn patches_lie_in_the_directory_of_the_benchmark() {
    let entries: Vec<FilePath> = ["b.patch", "a.patch", "README"].iter().map(|s| path(s)).collect();
    let patches = patches_in(&path("/bench/x"), entries);
    let files: Vec<String> = patches.iter().map(|p| text(&p.path)).collect();
    assert_eq!(files, ["/bench/x/a.patch", "/bench/x/b.patch"]);
    let mut sorted: Vec<PathBuf> = files.iter().map(PathBuf::from).collect();
    sorted.sort();
    assert_eq!(sorted, files.iter().map(PathBuf::from).collect::<Vec<_>>());
}

#[test]
fn patches_are_the_same_when_their_files_are() {
    let a = Patch::new(path("/x/a.patch"));
    let b = Patch::new(path("/x/b.patch"));
    assert!(a.same(&a.copy()));
    assert!(!a.same(&b));
}

#[test]
fn distinct_entries_are_distinct_patches() {
    for dir in ["/b", "/b/", ""] {
        let entries: Vec<FilePath> = ["a.patch", "aa.patch", "b.patch"].iter().map(|s| path(s)).collect();
        let patches = patches_in(&path(dir), entries);
        assert_eq!(patches.len(), 3);
        for (i, a) in patches.iter().enumerate() {
            for (j, b) in patches.iter().enumerate() {
                assert_eq!(a.same(b), i == j);
            }
        }
    }
}
