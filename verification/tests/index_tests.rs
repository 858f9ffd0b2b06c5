//! Tests of the file-name index and its conflict behavior.

use ms2cc::{FileIndex, IndexedPath};

#[test]
fn second_parent_makes_entry_ambiguous() {
    let mut index = FileIndex::new();
    index.record("main.cpp".to_string(), "/src".to_string());
    index.record("util.cpp".to_string(), "/other".to_string());

    assert_eq!(index.lookup(&"main.cpp".to_string()), Some("/src".to_string()));
    assert_eq!(index.lookup(&"util.cpp".to_string()), Some("/other".to_string()));

    index.record("main.cpp".to_string(), "/src2".to_string());
    assert_eq!(index.lookup(&"main.cpp".to_string()), None);
    assert_eq!(index.lookup(&"util.cpp".to_string()), Some("/other".to_string()));
}

#[test]
fn repeat_sighting_of_same_parent_stays_unique() {
    let mut index = FileIndex::new();
    index.record("main.cpp".to_string(), "/src".to_string());
    index.record("main.cpp".to_string(), "/src".to_string());
    assert_eq!(index.lookup(&"main.cpp".to_string()), Some("/src".to_string()));
    assert_eq!(index.len(), 1);
}

#[test]
fn ambiguous_entry_never_reverts() {
    let mut index = FileIndex::new();
    index.record("main.cpp".to_string(), "/a".to_string());
    index.record("main.cpp".to_string(), "/b".to_string());
    index.record("main.cpp".to_string(), "/a".to_string());
    assert_eq!(index.lookup(&"main.cpp".to_string()), None);
}

#[test]
fn lookup_of_unknown_name_is_none() {
    let index = FileIndex::new();
    assert_eq!(index.lookup(&"missing.cpp".to_string()), None);
    assert_eq!(index.len(), 0);
}

#[test]
fn indexed_path_entry_behavior() {
    let mut entry = IndexedPath::unique("/src".to_string());
    assert_eq!(entry.parent(), Some(&"/src".to_string()));
    entry.mark_conflict();
    assert_eq!(entry.parent(), None);
}
