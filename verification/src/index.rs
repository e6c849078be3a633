use vstd::prelude::*;

use std::hash::{Hash, Hasher};

use crate::text::{chars_eq, chars_of};

verus! {

/// What the state file records of one indexed file.
#[derive(Debug, Clone, Copy, PartialEq, Eq)]
pub struct FileEntry {
    pub hash: u64,
    pub size: u64,
    pub modified_unix: u64,
    pub units: usize,
}

/// The local record of an index: the files indexed, by relative path, with their entries.
#[derive(Debug, Clone)]
pub struct IndexState {
    pub version: u32,
    pub root: String,
    pub index_name: String,
    pub files: Vec<(String, FileEntry)>,
    pub updated_unix: u64,
}

/// The counts reported after an indexing run.
#[derive(Debug, Clone, Copy, PartialEq, Eq)]
pub struct IndexSummary {
    pub changed_files: usize,
    pub removed_files: usize,
    pub indexed_files: usize,
    pub uploaded_units: usize,
}

impl IndexSummary {
    /// Whether the run changed or removed any file, which is when a search reports it.
    pub fn has_changes(&self) -> (res: bool)
        ensures
            res == (self.changed_files > 0 || self.removed_files > 0),
    {
        self.changed_files > 0 || self.removed_files > 0
    }
}

/// The entries with their paths as character sequences.
pub open spec fn entries_view(v: Seq<(String, FileEntry)>) -> Seq<(Seq<char>, FileEntry)> {
    v.map_values(|e: (String, FileEntry)| (e.0@, e.1))
}

/// The map of the entries, a later entry for a path replacing an earlier one.
pub open spec fn entries_map(s: Seq<(Seq<char>, FileEntry)>) -> Map<Seq<char>, FileEntry>
    decreases s.len(),
{
    if s.len() == 0 {
        Map::empty()
    } else {
        entries_map(s.drop_last()).insert(s.last().0, s.last().1)
    }
}

/// The files of a state, as a map from relative path to entry.
pub open spec fn files_map(v: Seq<(String, FileEntry)>) -> Map<Seq<char>, FileEntry> {
    entries_map(entries_view(v))
}

/// No path occurs twice.
pub open spec fn distinct_paths(s: Seq<(Seq<char>, FileEntry)>) -> bool {
    forall|i: int, j: int| 0 <= i < j < s.len() ==> (#[trigger] s[i]).0 != (#[trigger] s[j]).0
}

/// The total number of units of the entries.
pub open spec fn total_units(s: Seq<(Seq<char>, FileEntry)>) -> int
    decreases s.len(),
{
    if s.len() == 0 {
        0
    } else {
        total_units(s.drop_last()) + s.last().1.units
    }
}

/// A path is a key of the map exactly when some entry has it.
pub proof fn lemma_entries_map_keys(s: Seq<(Seq<char>, FileEntry)>, k: Seq<char>)
    ensures
        entries_map(s).contains_key(k) <==> exists|i: int| 0 <= i < s.len() && (#[trigger] s[i]).0 == k,
    decreases s.len(),
{
    if s.len() > 0 {
        lemma_entries_map_keys(s.drop_last(), k);
        if entries_map(s).contains_key(k) {
            if s.last().0 == k {
                assert(s[s.len() - 1].0 == k);
            } else {
                let i = choose|i: int| 0 <= i < s.drop_last().len() && (#[trigger] s.drop_last()[i]).0 == k;
                assert(s[i].0 == k);
            }
        }
        if exists|i: int| 0 <= i < s.len() && (#[trigger] s[i]).0 == k {
            let i = choose|i: int| 0 <= i < s.len() && (#[trigger] s[i]).0 == k;
            if i < s.len() - 1 {
                assert(s.drop_last()[i].0 == k);
            }
        }
    }
}

/// Replacing the entry of a path in a sequence without repeated paths replaces it in the map.
pub proof fn lemma_entries_map_update(s: Seq<(Seq<char>, FileEntry)>, j: int, e: FileEntry)
    requires
        distinct_paths(s),
        0 <= j < s.len(),
    ensures
        entries_map(s.update(j, (s[j].0, e))) == entries_map(s).insert(s[j].0, e),
    decreases s.len(),
{
    let k = s[j].0;
    let t = s.update(j, (k, e));
    if j == s.len() - 1 {
        assert(t.drop_last() =~= s.drop_last());
        assert(entries_map(t) =~= entries_map(s).insert(k, e));
    } else {
        assert(t.drop_last() =~= s.drop_last().update(j, (k, e)));
        lemma_entries_map_update(s.drop_last(), j, e);
        assert(s.last().0 != k);
        assert(entries_map(t) =~= entries_map(s).insert(k, e));
    }
}

/// The total of units of a sequence with `e` pushed.
pub proof fn lemma_total_units_update(s: Seq<(Seq<char>, FileEntry)>, j: int, e: (Seq<char>, FileEntry))
    requires
        0 <= j < s.len(),
    ensures
        total_units(s.update(j, e)) == total_units(s) - s[j].1.units + e.1.units,
    decreases s.len(),
{
    let t = s.update(j, e);
    if j == s.len() - 1 {
        assert(t.drop_last() =~= s.drop_last());
    } else {
        assert(t.drop_last() =~= s.drop_last().update(j, e));
        lemma_total_units_update(s.drop_last(), j, e);
    }
}

/// The entry recorded for `key`, the last one when there are several.
pub fn lookup(files: &Vec<(String, FileEntry)>, key: &str) -> (res: Option<FileEntry>)
    ensures
        match res {
            Some(e) => files_map(files@).contains_key(key@) && files_map(files@)[key@] == e,
            None => !files_map(files@).contains_key(key@),
        },
{
    let ghost s = entries_view(files@);
    let kv = chars_of(key);
    let mut i = files.len();
    assert(s.take(s.len() as int) =~= s);
    while i > 0
        invariant
            i <= files@.len(),
            s == entries_view(files@),
            kv@ == key@,
            entries_map(s.take(i as int)).contains_key(key@) == entries_map(s).contains_key(key@),
            entries_map(s.take(i as int)).contains_key(key@) ==> entries_map(s.take(i as int))[key@]
                == entries_map(s)[key@],
        decreases i,
    {
        assert(s.take(i as int).drop_last() =~= s.take(i - 1));
        let pv = chars_of(files[i - 1].0.as_str());
        if chars_eq(pv.as_slice(), kv.as_slice()) {
            return Some(files[i - 1].1);
        }
        i = i - 1;
    }
    assert(s.take(0) =~= seq![]);
    None
}

/// Sets the entry of `key`, replacing the one it had.
pub fn upsert(files: &mut Vec<(String, FileEntry)>, key: String, e: FileEntry)
    requires
        distinct_paths(entries_view(old(files)@)),
    ensures
        distinct_paths(entries_view(final(files)@)),
        files_map(final(files)@) == files_map(old(files)@).insert(key@, e),
        total_units(entries_view(final(files)@)) == total_units(entries_view(old(files)@)) + e.units
            - if files_map(old(files)@).contains_key(key@) {
            files_map(old(files)@)[key@].units as int
        } else {
            0
        },
{
    let ghost s = entries_view(files@);
    let kv = chars_of(key.as_str());
    let mut i: usize = 0;
    while i < files.len()
        invariant
            i <= files@.len(),
            s == entries_view(files@),
            files@ == old(files)@,
            kv@ == key@,
            distinct_paths(s),
            forall|j: int| 0 <= j < i ==> (#[trigger] s[j]).0 != key@,
        decreases files.len() - i,
    {
        let pv = chars_of(files[i].0.as_str());
        if chars_eq(pv.as_slice(), kv.as_slice()) {
            proof {
                lemma_entries_map_update(s, i as int, e);
                lemma_total_units_update(s, i as int, (key@, e));
                lemma_entries_map_keys(s, key@);
                lemma_entries_map_update(s, i as int, s[i as int].1);
                assert(s.update(i as int, (key@, s[i as int].1)) =~= s);
                assert(entries_map(s)[key@] == s[i as int].1);
            }
            files.set(i, (key, e));
            assert(entries_view(files@) =~= s.update(i as int, (s[i as int].0, e)));
            return;
        }
        i = i + 1;
    }
    proof {
        lemma_entries_map_keys(s, key@);
    }
    files.push((key, e));
    assert(entries_view(files@) =~= s.push((key@, e)));
    assert(entries_view(files@).drop_last() =~= s);
}


/// The total number of units recorded in a state; `None` where it exceeds `usize::MAX`.
pub fn state_total_units(state: &IndexState) -> (res: Option<usize>)
    ensures
        res == if total_units(entries_view(state.files@)) <= usize::MAX {
            Some(total_units(entries_view(state.files@)) as usize)
        } else {
            None::<usize>
        },
{
    let ghost s = entries_view(state.files@);
    let mut total: usize = 0;
    let mut i: usize = 0;
    while i < state.files.len()
        invariant
            i <= s.len(),
            s == entries_view(state.files@),
            total as int == total_units(s.take(i as int)),
        decreases state.files.len() - i,
    {
        assert(s.take(i + 1).drop_last() =~= s.take(i as int));
        let u = state.files[i].1.units;
        if total > usize::MAX - u {
            proof {
                lemma_total_units_prefix(s, i + 1);
            }
            return None;
        }
        total = total + u;
        i = i + 1;
    }
    assert(s.take(s.len() as int) =~= s);
    Some(total)
}

/// The total of a prefix is at most the total.
pub proof fn lemma_total_units_prefix(s: Seq<(Seq<char>, FileEntry)>, n: int)
    requires
        0 <= n <= s.len(),
    ensures
        total_units(s.take(n)) <= total_units(s),
    decreases s.len(),
{
    if n < s.len() {
        assert(s.drop_last().take(n) =~= s.take(n));
        lemma_total_units_prefix(s.drop_last(), n);
    } else {
        assert(s.take(n) =~= s);
    }
}

/// Whether the file at `rel` with content hash `hash` is parsed and uploaded, given the
/// files recorded before: it was not recorded, or with another hash.
pub open spec fn reindex_needed(previous: Map<Seq<char>, FileEntry>, rel: Seq<char>, hash: u64) -> bool {
    !(previous.contains_key(rel) && previous[rel].hash == hash)
}

/// Looking up a path after its entry was set gives that entry; every other path keeps what
/// it had.
pub proof fn law_lookup_after_upsert(
    files: Seq<(String, FileEntry)>,
    key: Seq<char>,
    e: FileEntry,
    other: Seq<char>,
)
    ensures
        files_map(files).insert(key, e).contains_key(key),
        files_map(files).insert(key, e)[key] == e,
        other != key ==> files_map(files).insert(key, e).contains_key(other) == files_map(
            files,
        ).contains_key(other),
        other != key && files_map(files).contains_key(other) ==> files_map(files).insert(key, e)[other]
            == files_map(files)[other],
{
}

/// A file that a run records with its content hash is not indexed again by the next run
/// while its content stays the same: the next run starts from the files that the saved
/// state holds, which are those recorded.
pub proof fn law_indexed_file_is_not_indexed_again(
    saved: Seq<(String, FileEntry)>,
    recorded: Map<Seq<char>, FileEntry>,
    rel: Seq<char>,
    hash: u64,
)
    requires
        files_map(saved) == recorded,
        recorded.contains_key(rel),
        recorded[rel].hash == hash,
    ensures
        !reindex_needed(files_map(saved), rel, hash),
{
}

/// What visiting one file does to the files recorded so far and the two counts (files
/// indexed anew, units uploaded): a new entry is recorded and counted; with none, the
/// earlier entry of the file, if any, is kept.
pub open spec fn visit_spec(
    previous: Map<Seq<char>, FileEntry>,
    acc: (Map<Seq<char>, FileEntry>, int, int),
    v: (Seq<char>, Option<FileEntry>),
) -> (Map<Seq<char>, FileEntry>, int, int) {
    match v.1 {
        Some(e) => (acc.0.insert(v.0, e), acc.1 + 1, acc.2 + e.units),
        None => if previous.contains_key(v.0) {
            (acc.0.insert(v.0, previous[v.0]), acc.1, acc.2)
        } else {
            acc
        },
    }
}

/// A whole run: the files recorded and the two counts after visiting `visits` in order,
/// from nothing recorded.
pub open spec fn run_spec(
    previous: Map<Seq<char>, FileEntry>,
    visits: Seq<(Seq<char>, Option<FileEntry>)>,
) -> (Map<Seq<char>, FileEntry>, int, int)
    decreases visits.len(),
{
    if visits.len() == 0 {
        (Map::empty(), 0, 0)
    } else {
        visit_spec(previous, run_spec(previous, visits.drop_last()), visits.last())
    }
}

/// The visits of a run in which no file needs indexing anew: each file with no new entry.
pub open spec fn unchanged_visits(files: Seq<(Seq<char>, u64)>) -> Seq<(Seq<char>, Option<FileEntry>)> {
    files.map_values(|f: (Seq<char>, u64)| (f.0, None::<FileEntry>))
}

/// The paths of visited files.
pub open spec fn visited_paths(files: Seq<(Seq<char>, u64)>) -> Seq<Seq<char>> {
    files.map_values(|f: (Seq<char>, u64)| f.0)
}

/// A run whose visits all keep: it records what keeping the visited paths records, and
/// counts nothing.
proof fn lemma_run_of_unchanged(previous: Map<Seq<char>, FileEntry>, files: Seq<(Seq<char>, u64)>)
    ensures
        run_spec(previous, unchanged_visits(files)) == (
            keep_all(Map::empty(), previous, visited_paths(files)),
            0int,
            0int,
        ),
    decreases files.len(),
{
    if files.len() > 0 {
        lemma_run_of_unchanged(previous, files.drop_last());
        assert(unchanged_visits(files).drop_last() =~= unchanged_visits(files.drop_last()));
        assert(visited_paths(files).drop_last() =~= visited_paths(files.drop_last()));
    }
}

/// A second run over a tree in which no file changed, was added or was removed since the
/// state was saved: no file needs indexing anew, so every visit keeps; the run then records
/// exactly the earlier files, indexes no file anew, uploads no unit and removes no path.
pub proof fn law_second_run_changes_nothing(previous: Map<Seq<char>, FileEntry>, files: Seq<(Seq<char>, u64)>)
    requires
        forall|k: Seq<char>| previous.contains_key(k) <==> visited_paths(files).contains(k),
        forall|i: int|
            0 <= i < files.len() ==> previous.contains_key((#[trigger] files[i]).0)
                && previous[files[i].0].hash == files[i].1,
    ensures
        forall|i: int| 0 <= i < files.len() ==> !reindex_needed(previous, (#[trigger] files[i]).0, files[i].1),
        run_spec(previous, unchanged_visits(files)) == (previous, 0int, 0int),
        previous.dom().difference(run_spec(previous, unchanged_visits(files)).0.dom()).is_empty(),
{
    lemma_run_of_unchanged(previous, files);
    law_unchanged_tree_is_kept(previous, visited_paths(files));
}

/// An indexing run under way: the files recorded before it, and those recorded so far.
pub struct IndexRun {
    version: u32,
    root: String,
    index_name: String,
    previous: Vec<(String, FileEntry)>,
    next: Vec<(String, FileEntry)>,
    changed_files: usize,
    uploaded_units: usize,
}

/// What an indexing run leaves: the state to save, the paths whose documents go, and the
/// counts to report.
pub struct IndexOutcome {
    pub state: IndexState,
    pub removed: Vec<String>,
    pub summary: IndexSummary,
}

impl IndexRun {
    #[verifier::type_invariant]
    spec fn next_has_distinct_paths(self) -> bool {
        distinct_paths(entries_view(self.next@))
    }

    /// The files recorded before the run.
    pub closed spec fn previous(self) -> Map<Seq<char>, FileEntry> {
        files_map(self.previous@)
    }

    /// The files recorded so far in this run.
    pub closed spec fn recorded(self) -> Map<Seq<char>, FileEntry> {
        files_map(self.next@)
    }

    /// The number of files indexed anew so far.
    pub closed spec fn changed(self) -> usize {
        self.changed_files
    }

    /// The number of units uploaded so far.
    pub closed spec fn uploaded(self) -> usize {
        self.uploaded_units
    }

    /// The version, root and index name that the saved state will carry.
    pub closed spec fn header(self) -> (u32, Seq<char>, Seq<char>) {
        (self.version, self.root@, self.index_name@)
    }

    /// Starts a run on the state loaded from disk, if any (else a fresh one of version 1 for
    /// `root`), under the index name `index_name`.
    pub fn start(loaded: Option<IndexState>, root: &str, index_name: &str) -> (run: IndexRun)
        ensures
            run.previous() == match loaded {
                Some(s) => files_map(s.files@),
                None => Map::<Seq<char>, FileEntry>::empty(),
            },
            run.recorded() == Map::<Seq<char>, FileEntry>::empty(),
            run.changed() == 0,
            run.uploaded() == 0,
            run.header() == match loaded {
                Some(s) => (s.version, s.root@, index_name@),
                None => (1u32, root@, index_name@),
            },
    {
        let name = <String as vstd::string::StringExecFns>::from_str(index_name);
        let next: Vec<(String, FileEntry)> = Vec::new();
        assert(entries_view(next@) =~= seq![]);
        assert(files_map(next@) =~= Map::<Seq<char>, FileEntry>::empty());
        match loaded {
            Some(s) => {
                IndexRun {
                    version: s.version,
                    root: s.root,
                    index_name: name,
                    previous: s.files,
                    next,
                    changed_files: 0,
                    uploaded_units: 0,
                }
            },
            None => {
                let previous: Vec<(String, FileEntry)> = Vec::new();
                assert(entries_view(previous@) =~= seq![]);
                IndexRun {
                    version: 1,
                    root: <String as vstd::string::StringExecFns>::from_str(root),
                    index_name: name,
                    previous,
                    next,
                    changed_files: 0,
                    uploaded_units: 0,
                }
            },
        }
    }

    /// The number of files indexed anew so far.
    pub fn changed_count(&self) -> (res: usize)
        ensures
            res == self.changed(),
    {
        self.changed_files
    }

    /// The number of units uploaded so far.
    pub fn uploaded_count(&self) -> (res: usize)
        ensures
            res == self.uploaded(),
    {
        self.uploaded_units
    }

    /// Whether the file at `rel` with content hash `hash` must be parsed and uploaded: it was
    /// not recorded before, or with another hash.
    pub fn needs_reindex(&self, rel: &str, hash: u64) -> (res: bool)
        ensures
            res == reindex_needed(self.previous(), rel@, hash),
    {
        match lookup(&self.previous, rel) {
            Some(e) => e.hash != hash,
            None => true,
        }
    }

    /// Carries the earlier entry of an unchanged file over to this run.
    pub fn keep_unchanged(&mut self, rel: String)
        ensures
            final(self).recorded() == if old(self).previous().contains_key(rel@) {
                old(self).recorded().insert(rel@, old(self).previous()[rel@])
            } else {
                old(self).recorded()
            },
            final(self).previous() == old(self).previous(),
            final(self).changed() == old(self).changed(),
            final(self).uploaded() == old(self).uploaded(),
            final(self).header() == old(self).header(),
    {
        proof {
            use_type_invariant(&*self);
        }
        match lookup(&self.previous, rel.as_str()) {
            Some(e) => {
                let mut next: Vec<(String, FileEntry)> = Vec::new();
                std::mem::swap(&mut next, &mut self.next);
                upsert(&mut next, rel, e);
                self.next = next;
            },
            None => {},
        }
    }

    /// Records the new entry of a file that was parsed and whose units were uploaded.
    pub fn record_reindexed(&mut self, rel: String, entry: FileEntry)
        requires
            old(self).changed() < usize::MAX,
            old(self).uploaded() + entry.units <= usize::MAX,
        ensures
            final(self).recorded() == old(self).recorded().insert(rel@, entry),
            final(self).previous() == old(self).previous(),
            final(self).changed() == old(self).changed() + 1,
            final(self).uploaded() == old(self).uploaded() + entry.units,
            final(self).header() == old(self).header(),
    {
        proof {
            use_type_invariant(&*self);
        }
        let mut next: Vec<(String, FileEntry)> = Vec::new();
        std::mem::swap(&mut next, &mut self.next);
        upsert(&mut next, rel, entry);
        self.next = next;
        self.changed_files = self.changed_files + 1;
        self.uploaded_units = self.uploaded_units + entry.units;
    }

    /// Visits the file at `rel` with content hash `hash`: where it must be indexed anew
    /// (`reindexed` then holds its new entry, for this hash) the entry is recorded; else its
    /// earlier entry is kept.
    pub fn visit(&mut self, rel: String, hash: u64, reindexed: Option<FileEntry>)
        requires
            (reindexed is Some) == reindex_needed(old(self).previous(), rel@, hash),
            reindexed matches Some(e) ==> e.hash == hash && old(self).changed() < usize::MAX
                && old(self).uploaded() + e.units <= usize::MAX,
        ensures
            (final(self).recorded(), final(self).changed() as int, final(self).uploaded() as int)
                == visit_spec(
                old(self).previous(),
                (old(self).recorded(), old(self).changed() as int, old(self).uploaded() as int),
                (rel@, reindexed),
            ),
            final(self).previous() == old(self).previous(),
            final(self).header() == old(self).header(),
    {
        match reindexed {
            Some(e) => self.record_reindexed(rel, e),
            None => self.keep_unchanged(rel),
        }
    }

    /// Ends the run: the new state holds the files recorded in it, updated at `now`; the
    /// removed paths are those recorded before and not in this run, each once.
    pub fn finish(self, now: u64) -> (res: IndexOutcome)
        ensures
            files_map(res.state.files@) == self.recorded(),
            distinct_paths(entries_view(res.state.files@)),
            (res.state.version, res.state.root@, res.state.index_name@) == self.header(),
            res.state.updated_unix == now,
            res.removed@.map_values(|s: String| s@).no_duplicates(),
            res.removed@.map_values(|s: String| s@).to_set() == self.previous().dom().difference(
                self.recorded().dom(),
            ),
            res.summary == (IndexSummary {
                changed_files: self.changed(),
                removed_files: res.removed.len(),
                indexed_files: res.state.files.len(),
                uploaded_units: self.uploaded(),
            }),
    {
        proof {
            use_type_invariant(&self);
        }
        let ghost prev = entries_view(self.previous@);
        let ghost nextm = files_map(self.next@);
        let mut removed: Vec<String> = Vec::new();
        let mut i: usize = 0;
        while i < self.previous.len()
            invariant
                i <= prev.len(),
                prev == entries_view(self.previous@),
                nextm == files_map(self.next@),
                removed@.map_values(|s: String| s@).no_duplicates(),
                removed@.map_values(|s: String| s@).to_set() == Set::new(
                    |k: Seq<char>|
                        exists|j: int| 0 <= j < i && (#[trigger] prev[j]).0 == k && !nextm.contains_key(k),
                ),
            decreases self.previous.len() - i,
        {
            let ghost rv = removed@.map_values(|s: String| s@);
            let key = &self.previous[i].0;
            let in_next = lookup(&self.next, key.as_str()).is_some();
            let mut seen = false;
            let mut r: usize = 0;
            let kv = chars_of(key.as_str());
            while r < removed.len()
                invariant
                    r <= removed@.len(),
                    rv == removed@.map_values(|s: String| s@),
                    kv@ == key@,
                    seen == exists|q: int| 0 <= q < r && rv[q] == key@,
                decreases removed.len() - r,
            {
                let rc = chars_of(removed[r].as_str());
                assert(rv[r as int] == removed@[r as int]@);
                if chars_eq(rc.as_slice(), kv.as_slice()) {
                    seen = true;
                    assert(rv[r as int] == key@);
                } else {
                    assert(rv[r as int] != key@);
                    assert((exists|q: int| 0 <= q < r + 1 && rv[q] == key@) ==> (exists|q: int| 0 <= q < r && rv[q] == key@));
                }
                r = r + 1;
            }
            assert(seen == rv.contains(key@));
            if !in_next && !seen {
                removed.push(key.clone());
                assert(removed@.map_values(|s: String| s@) =~= rv.push(key@));
            }
            proof {
                let nv = removed@.map_values(|s: String| s@);
                assert(prev[i as int].0 == key@);
                assert(nv.to_set() =~= Set::new(
                    |k: Seq<char>|
                        exists|j: int| 0 <= j < i + 1 && (#[trigger] prev[j]).0 == k && !nextm.contains_key(k),
                )) by {
                    assert forall|k: Seq<char>| nv.to_set().contains(k) implies exists|j: int|
                        0 <= j < i + 1 && (#[trigger] prev[j]).0 == k && !nextm.contains_key(k) by {
                        if rv.contains(k) {
                            assert(rv.to_set().contains(k));
                        } else {
                            assert(k == key@);
                            assert(prev[i as int].0 == k);
                        }
                    }
                    assert forall|k: Seq<char>| (exists|j: int|
                        0 <= j < i + 1 && (#[trigger] prev[j]).0 == k && !nextm.contains_key(k)) implies nv.to_set().contains(k) by {
                        let j = choose|j: int| 0 <= j < i + 1 && (#[trigger] prev[j]).0 == k && !nextm.contains_key(k);
                        if j < i {
                            assert(rv.to_set().contains(k));
                            assert(rv.contains(k));
                            let q = choose|q: int| 0 <= q < rv.len() && rv[q] == k;
                            assert(nv[q] == k);
                        } else {
                            if seen {
                                let q = choose|q: int| 0 <= q < rv.len() && rv[q] == k;
                                assert(nv[q] == k);
                            } else {
                                assert(nv[nv.len() - 1] == k);
                            }
                        }
                    }
                }
            }
            i = i + 1;
        }
        proof {
            let nv = removed@.map_values(|s: String| s@);
            assert(nv.to_set() =~= files_map(self.previous@).dom().difference(nextm.dom())) by {
                assert forall|k: Seq<char>| nv.to_set().contains(k) <==> files_map(self.previous@).dom().difference(nextm.dom()).contains(k) by {
                    lemma_entries_map_keys(prev, k);
                }
            }
        }
        let count = self.next.len();
        let summary = IndexSummary {
            changed_files: self.changed_files,
            removed_files: removed.len(),
            indexed_files: count,
            uploaded_units: self.uploaded_units,
        };
        let state = IndexState {
            version: self.version,
            root: self.root,
            index_name: self.index_name,
            files: self.next,
            updated_unix: now,
        };
        IndexOutcome { state, removed, summary }
    }
}


/// `Hash` of a byte slice with `DefaultHasher`.
pub uninterp spec fn bytes_hash(bytes: Seq<u8>) -> u64;

/// Hashes bytes with std's `DefaultHasher` (`Hash` for `[u8]`, then `finish`). The contract
/// claims only that the result is a function of the bytes: `DefaultHasher::new` starts
/// from fixed keys.
#[verifier::external_body]
fn hash_bytes(bytes: &[u8]) -> (h: u64)
    ensures
        h == bytes_hash(bytes@),
{
    let mut hasher = std::collections::hash_map::DefaultHasher::new();
    bytes.hash(&mut hasher);
    hasher.finish()
}

/// The content hash of a file, from its bytes, which decides whether it is indexed again.
pub fn file_hash(contents: &[u8]) -> (h: u64)
    ensures
        h == bytes_hash(contents@),
{
    hash_bytes(contents)
}

/// The files recorded after keeping, in order, the earlier entries of `paths`.
pub open spec fn keep_all(
    recorded: Map<Seq<char>, FileEntry>,
    previous: Map<Seq<char>, FileEntry>,
    paths: Seq<Seq<char>>,
) -> Map<Seq<char>, FileEntry>
    decreases paths.len(),
{
    if paths.len() == 0 {
        recorded
    } else {
        let r = keep_all(recorded, previous, paths.drop_last());
        let k = paths.last();
        if previous.contains_key(k) {
            r.insert(k, previous[k])
        } else {
            r
        }
    }
}

/// Keeping the earlier entries of some paths records the earlier map restricted to them.
pub proof fn lemma_keep_all_restricts(previous: Map<Seq<char>, FileEntry>, paths: Seq<Seq<char>>)
    ensures
        keep_all(Map::empty(), previous, paths) == previous.restrict(paths.to_set()),
    decreases paths.len(),
{
    if paths.len() > 0 {
        lemma_keep_all_restricts(previous, paths.drop_last());
        assert(paths.to_set() =~= paths.drop_last().to_set().insert(paths.last())) by {
            assert forall|k: Seq<char>| paths.to_set().contains(k) implies paths.drop_last().to_set().insert(paths.last()).contains(k) by {
                let i = choose|i: int| 0 <= i < paths.len() && paths[i] == k;
                if i < paths.len() - 1 {
                    assert(paths.drop_last()[i] == k);
                }
            }
            assert forall|k: Seq<char>| paths.drop_last().to_set().insert(paths.last()).contains(k) implies paths.to_set().contains(k) by {
                if k == paths.last() {
                    assert(paths[paths.len() - 1] == k);
                } else {
                    let i = choose|i: int| 0 <= i < paths.drop_last().len() && paths.drop_last()[i] == k;
                    assert(paths[i] == k);
                }
            }
        }
        assert(keep_all(Map::empty(), previous, paths) =~= previous.restrict(paths.to_set()));
    } else {
        assert(previous.restrict(paths.to_set()) =~= Map::empty());
    }
}

/// Indexing a tree in which no file changed, was added or was removed keeps every earlier
/// entry and removes no file: keeping each file's earlier entry gives back the earlier map.
pub proof fn law_unchanged_tree_is_kept(previous: Map<Seq<char>, FileEntry>, paths: Seq<Seq<char>>)
    requires
        forall|k: Seq<char>| previous.contains_key(k) <==> paths.contains(k),
    ensures
        keep_all(Map::empty(), previous, paths) == previous,
        previous.dom().difference(keep_all(Map::empty(), previous, paths).dom()).is_empty(),
{
    lemma_keep_all_restricts(previous, paths);
    assert(previous.restrict(paths.to_set()) =~= previous);
    assert(previous.dom().difference(previous.dom()) =~= Set::empty());
}

} // verus!
