use std::collections::hash_map::DefaultHasher;
use std::hash::{Hash, Hasher};

use semgrep::index::{
    file_hash, lookup, state_total_units, upsert, FileEntry, IndexRun, IndexState, IndexSummary,
};

fn entry(hash: u64, units: usize) -> FileEntry {
    FileEntry { hash, size: 10, modified_unix: 7, units }
}

fn state(files: Vec<(&str, FileEntry)>) -> IndexState {
    IndexState {
        version: 3,
        root: "/old".to_string(),
        index_name: "old-name".to_string(),
        files: files.into_iter().map(|(k, e)| (k.to_string(), e)).collect(),
        updated_unix: 1,
    }
}

#[test]
fn incremental_run_reindexes_changed_and_removes_missing() {
    let loaded = state(vec![("a.rs", entry(1, 2)), ("b.rs", entry(2, 1))]);
    let mut run = IndexRun::start(Some(loaded), "/root", "idx");
    assert!(!run.needs_reindex("a.rs", 1));
    run.keep_unchanged("a.rs".to_string());
    assert!(run.needs_reindex("c.rs", 9));
    assert_eq!((run.changed_count(), run.uploaded_count()), (0, 0));
    run.record_reindexed("c.rs".to_string(), entry(9, 3));
    assert_eq!((run.changed_count(), run.uploaded_count()), (1, 3));
    let out = run.finish(100);
    assert_eq!(out.removed, vec!["b.rs".to_string()]);
    assert_eq!(
        out.summary,
        IndexSummary { changed_files: 1, removed_files: 1, indexed_files: 2, uploaded_units: 3 }
    );
    assert_eq!(out.state.version, 3);
    assert_eq!(out.state.root, "/old");
    assert_eq!(out.state.index_name, "idx");
    assert_eq!(out.state.updated_unix, 100);
    assert_eq!(lookup(&out.state.files, "a.rs"), Some(entry(1, 2)));
    assert_eq!(lookup(&out.state.files, "c.rs"), Some(entry(9, 3)));
    assert_eq!(lookup(&out.state.files, "b.rs"), None);
    assert_eq!(state_total_units(&out.state), Some(5));
    assert!(out.summary.has_changes());
}

#[test]
fn changed_hash_is_reindexed() {
    let loaded = state(vec![("a.rs", entry(1, 2))]);
    let mut run = IndexRun::start(Some(loaded), "/root", "idx");
    assert!(run.needs_reindex("a.rs", 2));
    run.record_reindexed("a.rs".to_string(), entry(2, 0));
    let out = run.finish(5);
    assert_eq!(out.summary, IndexSummary { changed_files: 1, removed_files: 0, indexed_files: 1, uploaded_units: 0 });
    assert_eq!(lookup(&out.state.files, "a.rs"), Some(entry(2, 0)));
}

#[test]
fn unchanged_tree_is_kept() {
    let files = vec![("a.rs", entry(1, 2)), ("b/c.py", entry(2, 1))];
    let loaded = state(files.clone());
    let mut run = IndexRun::start(Some(loaded), "/root", "idx");
    for (k, e) in &files {
        assert!(!run.needs_reindex(k, e.hash));
        run.keep_unchanged(k.to_string());
    }
    let out = run.finish(2);
    assert!(out.removed.is_empty());
    assert_eq!(out.summary, IndexSummary { changed_files: 0, removed_files: 0, indexed_files: 2, uploaded_units: 0 });
    assert!(!out.summary.has_changes());
    for (k, e) in &files {
        assert_eq!(lookup(&out.state.files, k), Some(*e));
    }
}

#[test]
fn fresh_run_without_state() {
    let mut run = IndexRun::start(None, "/proj", "semgrep-proj-1");
    run.keep_unchanged("x.rs".to_string());
    let out = run.finish(9);
    assert_eq!(out.state.version, 1);
    assert_eq!(out.state.root, "/proj");
    assert_eq!(out.state.index_name, "semgrep-proj-1");
    assert!(out.state.files.is_empty());
    assert_eq!(out.summary, IndexSummary { changed_files: 0, removed_files: 0, indexed_files: 0, uploaded_units: 0 });
    assert_eq!(state_total_units(&out.state), Some(0));
}

#[test]
fn lookup_takes_the_last_entry_and_upsert_replaces() {
    let mut files: Vec<(String, FileEntry)> = Vec::new();
    upsert(&mut files, "a".to_string(), entry(1, 1));
    upsert(&mut files, "b".to_string(), entry(2, 2));
    upsert(&mut files, "a".to_string(), entry(3, 3));
    assert_eq!(files.len(), 2);
    assert_eq!(lookup(&files, "a"), Some(entry(3, 3)));
    let dup = vec![("k".to_string(), entry(1, 1)), ("k".to_string(), entry(4, 4))];
    assert_eq!(lookup(&dup, "k"), Some(entry(4, 4)));
    assert_eq!(lookup(&dup, "z"), None);
}

#[test]
fn total_units_overflow_is_reported() {
    let s = state(vec![("a", entry(1, usize::MAX)), ("b", entry(2, 1))]);
    assert_eq!(state_total_units(&s), None);
}

#[test]
fn file_hash_is_default_hasher_of_bytes() {
    let bytes: &[u8] = b"fn main() {}\n";
    let mut h = DefaultHasher::new();
    bytes.hash(&mut h);
    assert_eq!(file_hash(bytes), h.finish());
    assert_ne!(file_hash(b"a"), file_hash(b"b"));
}

#[test]
fn indexed_file_is_not_indexed_again_by_the_next_run() {
    let mut first = IndexRun::start(None, "/root", "idx");
    first.record_reindexed("a.rs".to_string(), entry(5, 2));
    let saved = first.finish(10).state;
    let next = IndexRun::start(Some(saved), "/root", "idx");
    assert!(!next.needs_reindex("a.rs", 5));
    assert!(next.needs_reindex("a.rs", 6));
    assert!(next.needs_reindex("b.rs", 5));
}

#[test]
fn visits_record_or_keep_as_needed() {
    let loaded = state(vec![("a.rs", entry(1, 2)), ("b.rs", entry(2, 1))]);
    let mut run = IndexRun::start(Some(loaded), "/root", "idx");
    assert!(!run.needs_reindex("a.rs", 1));
    run.visit("a.rs".to_string(), 1, None);
    assert!(run.needs_reindex("b.rs", 3));
    run.visit("b.rs".to_string(), 3, Some(entry(3, 4)));
    assert_eq!((run.changed_count(), run.uploaded_count()), (1, 4));
    let out = run.finish(9);
    assert_eq!(lookup(&out.state.files, "a.rs"), Some(entry(1, 2)));
    assert_eq!(lookup(&out.state.files, "b.rs"), Some(entry(3, 4)));
    assert!(out.removed.is_empty());
}

#[test]
fn second_run_over_unchanged_tree_changes_nothing() {
    let mut first = IndexRun::start(None, "/root", "idx");
    first.visit("a.rs".to_string(), 5, Some(entry(5, 2)));
    first.visit("b.rs".to_string(), 6, Some(entry(6, 1)));
    let saved = first.finish(10).state;
    let mut second = IndexRun::start(Some(saved), "/root", "idx");
    for (p, h) in [("a.rs", 5), ("b.rs", 6)] {
        assert!(!second.needs_reindex(p, h));
        second.visit(p.to_string(), h, None);
    }
    let out = second.finish(11);
    assert_eq!(
        out.summary,
        IndexSummary { changed_files: 0, removed_files: 0, indexed_files: 2, uploaded_units: 0 }
    );
    assert!(!out.summary.has_changes());
}
