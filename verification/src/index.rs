//! The in-memory file index: file entries plus a lookup table from lowercase
//! names to the positions of the entries that carry them.

use vstd::prelude::*;
use crate::text::{is_prefix, lowercase, to_lowercase, starts_with, paths_equal, same_path, path_join, joined_path};
use crate::timeval::now;

verus! {

/// ahash's hash map, carried opaquely; what it holds is named by `name_table`.
#[verifier::external_type_specification]
#[verifier::external_body]
#[verifier::reject_recursive_types(K)]
#[verifier::reject_recursive_types(V)]
#[verifier::reject_recursive_types(S)]
pub struct ExAHashMap<K, V, S>(ahash::AHashMap<K, V, S>);

/// ahash's hasher state, carried opaquely.
#[verifier::external_type_specification]
#[verifier::external_body]
pub struct ExAHashRandomState(ahash::RandomState);

/// Lowercase name to the positions of the entries that carry it.
pub type NameTable = ahash::AHashMap<String, Vec<usize>>;

/// The key-to-positions pairs that an `AHashMap<String, Vec<usize>>` holds.
pub uninterp spec fn name_table(m: NameTable) -> Map<Seq<char>, Seq<usize>>;

/// `AHashMap::new`: an empty table.
#[verifier::external_body]
fn name_table_new() -> (r: NameTable)
    ensures
        name_table(r) == no_names(),
{
    ahash::AHashMap::new()
}

/// `clear`: removes every key.
#[verifier::external_body]
fn name_table_clear(m: &mut NameTable)
    ensures
        name_table(*final(m)) == no_names(),
{
    m.clear()
}

/// `is_empty`: whether no key is present.
#[verifier::external_body]
fn name_table_is_empty(m: &NameTable) -> (r: bool)
    ensures
        r == (name_table(*m) == no_names()),
{
    m.is_empty()
}

/// `entry(key).or_default().push(idx)`: appends `idx` to the list under `key`,
/// starting from an empty list when the key is absent.
#[verifier::external_body]
fn name_table_push(m: &mut NameTable, key: String, idx: usize)
    ensures
        name_table(*final(m)) == (if name_table(*old(m)).dom().contains(key@) {
            name_table(*old(m)).insert(key@, name_table(*old(m))[key@].push(idx))
        } else {
            name_table(*old(m)).insert(key@, seq![idx])
        }),
{
    m.entry(key).or_default().push(idx)
}

/// `get`: the list under `key`, if any.
#[verifier::external_body]
fn name_table_get<'a>(m: &'a NameTable, key: &str) -> (r: Option<&'a Vec<usize>>)
    ensures
        r.is_some() == name_table(*m).dom().contains(key@),
        r matches Some(v) ==> v@ == name_table(*m)[key@],
{
    m.get(key)
}

/// `remove`: takes the list under `key` out of the table.
#[verifier::external_body]
fn name_table_remove(m: &mut NameTable, key: &str) -> (r: Option<Vec<usize>>)
    ensures
        r.is_some() == name_table(*old(m)).dom().contains(key@),
        r matches Some(v) ==> v@ == name_table(*old(m))[key@],
        name_table(*final(m)) == name_table(*old(m)).remove(key@),
{
    m.remove(key)
}

/// `insert`: puts `v` under `key`, replacing what was there.
#[verifier::external_body]
fn name_table_insert(m: &mut NameTable, key: String, v: Vec<usize>)
    ensures
        name_table(*final(m)) == name_table(*old(m)).insert(key@, v@),
{
    m.insert(key, v);
}

/// `clone`: a copy holding the same keys and lists.
#[verifier::external_body]
fn name_table_clone(m: &NameTable) -> (r: NameTable)
    ensures
        name_table(r) == name_table(*m),
{
    m.clone()
}

/// The table with no keys.
pub open spec fn no_names() -> Map<Seq<char>, Seq<usize>> {
    Map::empty()
}

/// One file known to the index.
#[derive(Debug)]
pub struct FileEntry {
    /// Full path of the file.
    pub path: String,
    /// File name without its directory.
    pub name: String,
    /// The name as stored for case-insensitive lookups.
    pub name_lower: String,
    /// Size in bytes.
    pub size: u64,
    /// Last modification time.
    pub modified: std::time::SystemTime,
}

/// The value of a `FileEntry`.
pub struct FileEntryView {
    pub path: Seq<char>,
    pub name: Seq<char>,
    pub name_lower: Seq<char>,
    pub size: u64,
    pub modified: std::time::SystemTime,
}

impl View for FileEntry {
    type V = FileEntryView;

    open spec fn view(&self) -> FileEntryView {
        FileEntryView {
            path: self.path@,
            name: self.name@,
            name_lower: self.name_lower@,
            size: self.size,
            modified: self.modified,
        }
    }
}

impl Clone for FileEntry {
    fn clone(&self) -> (r: Self)
        ensures
            r@ == self@,
    {
        FileEntry {
            path: self.path.clone(),
            name: self.name.clone(),
            name_lower: self.name_lower.clone(),
            size: self.size,
            modified: self.modified,
        }
    }
}

/// The final component of a path as `Path::file_name` finds it, as text (none for a
/// path ending in `..` or for a root). std's rules are named here, not restated.
pub uninterp spec fn file_name_of(path: Seq<char>) -> Option<Seq<char>>;

/// `Path::file_name` of a path given as text, then `OsStr::to_str`: the result is
/// `file_name_of` the path. A path built from a `&str` is valid Unicode, so the
/// conversion never fails.
#[verifier::external_body]
pub(crate) fn path_file_name(path: &str) -> (r: Option<String>)
    ensures
        match r {
            Some(n) => file_name_of(path@) == Some(n@),
            None => file_name_of(path@) is None,
        },
{
    std::path::Path::new(path).file_name().and_then(|n| n.to_str()).map(|n| n.to_string())
}

impl FileEntry {
    /// The entry of a file at `path` with the given size and modification time: named
    /// by the final component of the path, with the lowercase form of that name for
    /// lookups. None when the path has no final component.
    pub fn from_metadata(path: String, size: u64, modified: std::time::SystemTime) -> (r: Option<FileEntry>)
        ensures
            match file_name_of(path@) {
                Some(n) => r matches Some(e) && e@ == (FileEntryView {
                    path: path@,
                    name: n,
                    name_lower: lowercase(n),
                    size,
                    modified,
                }),
                None => r is None,
            },
    {
        match path_file_name(path.as_str()) {
            Some(name) => {
                let name_lower = to_lowercase(name.as_str());
                Some(FileEntry { path, name, name_lower, size, modified })
            },
            None => None,
        }
    }
}

/// The views of a sequence of entries.
pub open spec fn entry_views(v: Seq<FileEntry>) -> Seq<FileEntryView> {
    v.map_values(|e: FileEntry| e@)
}

/// Positions, in increasing order, of the entries whose `name_lower` is `key`.
pub open spec fn indices_named(entries: Seq<FileEntryView>, key: Seq<char>) -> Seq<usize>
    decreases entries.len(),
{
    if entries.len() == 0 {
        Seq::empty()
    } else {
        let prev = indices_named(entries.drop_last(), key);
        if entries.last().name_lower == key {
            prev.push((entries.len() - 1) as usize)
        } else {
            prev
        }
    }
}

/// The lookup table that a full rebuild produces for `entries`.
pub open spec fn built_names(entries: Seq<FileEntryView>) -> Map<Seq<char>, Seq<usize>> {
    Map::new(
        |k: Seq<char>| indices_named(entries, k).len() > 0,
        |k: Seq<char>| indices_named(entries, k),
    )
}

/// The entries at the listed positions, positions out of range skipped.
pub open spec fn select(entries: Seq<FileEntryView>, idxs: Seq<usize>) -> Seq<FileEntryView>
    decreases idxs.len(),
{
    if idxs.len() == 0 {
        Seq::empty()
    } else {
        let prev = select(entries, idxs.drop_last());
        if idxs.last() < entries.len() {
            prev.push(entries[idxs.last() as int])
        } else {
            prev
        }
    }
}

/// The entries whose `name_lower` is `key`, in index order.
pub open spec fn entries_named(entries: Seq<FileEntryView>, key: Seq<char>) -> Seq<FileEntryView>
    decreases entries.len(),
{
    if entries.len() == 0 {
        Seq::empty()
    } else {
        let prev = entries_named(entries.drop_last(), key);
        if entries.last().name_lower == key {
            prev.push(entries.last())
        } else {
            prev
        }
    }
}

/// The entries whose `name_lower` starts with `prefix`, in index order.
pub open spec fn entries_with_prefix(entries: Seq<FileEntryView>, prefix: Seq<char>) -> Seq<FileEntryView>
    decreases entries.len(),
{
    if entries.len() == 0 {
        Seq::empty()
    } else {
        let prev = entries_with_prefix(entries.drop_last(), prefix);
        if is_prefix(prefix, entries.last().name_lower) {
            prev.push(entries.last())
        } else {
            prev
        }
    }
}

/// What a name lookup answers from a table: the entries at the positions listed
/// under `key`, or nothing.
pub open spec fn lookup(entries: Seq<FileEntryView>, names: Map<Seq<char>, Seq<usize>>, key: Seq<char>) -> Seq<FileEntryView> {
    if names.dom().contains(key) {
        select(entries, names[key])
    } else {
        Seq::empty()
    }
}

/// In-memory file index.
#[derive(Debug)]
pub struct FileIndex {
    /// Root path of the index.
    pub path: String,
    /// When the index was created.
    pub modified: std::time::SystemTime,
    entries: Vec<FileEntry>,
    name_index: NameTable,
    index_dirty: bool,
}

/// The value of a `FileIndex`.
pub struct FileIndexView {
    pub path: Seq<char>,
    pub modified: std::time::SystemTime,
    pub entries: Seq<FileEntryView>,
    pub names: Map<Seq<char>, Seq<usize>>,
    pub dirty: bool,
}

impl View for FileIndex {
    type V = FileIndexView;

    closed spec fn view(&self) -> FileIndexView {
        FileIndexView {
            path: self.path@,
            modified: self.modified,
            entries: entry_views(self.entries@),
            names: name_table(self.name_index),
            dirty: self.index_dirty,
        }
    }
}

/// The table agrees with the entries whenever it is not marked for a rebuild.
pub open spec fn table_current(v: FileIndexView) -> bool {
    !v.dirty ==> v.names == built_names(v.entries)
}

/// A lookup sees a table that agrees with the entries: either it rebuilds first,
/// or the table already agrees.
pub open spec fn index_wf(v: FileIndexView) -> bool {
    needs_rebuild(v) || v.names == built_names(v.entries)
}

/// Whether a lookup rebuilds the table first.
pub open spec fn needs_rebuild(v: FileIndexView) -> bool {
    v.dirty || v.names == no_names()
}

/// The state a lookup works on: rebuilt when `needs_rebuild`, unchanged otherwise.
pub open spec fn ensured(v: FileIndexView) -> FileIndexView {
    if needs_rebuild(v) {
        FileIndexView { names: built_names(v.entries), dirty: false, ..v }
    } else {
        v
    }
}

proof fn lemma_indices_named_push(entries: Seq<FileEntryView>, e: FileEntryView, k: Seq<char>)
    ensures
        indices_named(entries.push(e), k) == (if e.name_lower == k {
            indices_named(entries, k).push(entries.len() as usize)
        } else {
            indices_named(entries, k)
        }),
{
    assert(entries.push(e).drop_last() =~= entries);
}

proof fn lemma_built_names_push(entries: Seq<FileEntryView>, e: FileEntryView)
    requires
        entries.len() < usize::MAX,
    ensures
        built_names(entries.push(e)) == (if built_names(entries).dom().contains(e.name_lower) {
            built_names(entries).insert(e.name_lower, built_names(entries)[e.name_lower].push(entries.len() as usize))
        } else {
            built_names(entries).insert(e.name_lower, seq![entries.len() as usize])
        }),
{
    let lhs = built_names(entries.push(e));
    let rhs = if built_names(entries).dom().contains(e.name_lower) {
        built_names(entries).insert(e.name_lower, built_names(entries)[e.name_lower].push(entries.len() as usize))
    } else {
        built_names(entries).insert(e.name_lower, seq![entries.len() as usize])
    };
    assert forall|k: Seq<char>| #[trigger] lhs.dom().contains(k) == rhs.dom().contains(k) by {
        lemma_indices_named_push(entries, e, k);
    }
    assert forall|k: Seq<char>| lhs.dom().contains(k) implies #[trigger] lhs[k] == rhs[k] by {
        lemma_indices_named_push(entries, e, k);
        if k == e.name_lower && !built_names(entries).dom().contains(e.name_lower) {
            assert(indices_named(entries, k).len() == 0);
            assert(indices_named(entries, k).push(entries.len() as usize) =~= seq![entries.len() as usize]);
        }
    }
    assert(lhs =~= rhs);
}

proof fn lemma_indices_named_bounded(entries: Seq<FileEntryView>, k: Seq<char>)
    ensures
        forall|j: int| 0 <= j < indices_named(entries, k).len() ==> #[trigger] indices_named(entries, k)[j] < entries.len(),
    decreases entries.len(),
{
    if entries.len() > 0 {
        let prev = indices_named(entries.drop_last(), k);
        lemma_indices_named_bounded(entries.drop_last(), k);
        assert forall|j: int| 0 <= j < indices_named(entries, k).len() implies #[trigger] indices_named(entries, k)[j] < entries.len() by {
            if j < prev.len() {
                assert(indices_named(entries, k)[j] == prev[j]);
            }
        }
    }
}

proof fn lemma_select_prefix(entries: Seq<FileEntryView>, e: FileEntryView, idxs: Seq<usize>)
    requires
        forall|j: int| 0 <= j < idxs.len() ==> #[trigger] idxs[j] < entries.len(),
    ensures
        select(entries.push(e), idxs) == select(entries, idxs),
    decreases idxs.len(),
{
    if idxs.len() > 0 {
        lemma_select_prefix(entries, e, idxs.drop_last());
    }
}

/// Looking a key up in the table that a rebuild produces gives exactly the entries
/// that carry that key.
proof fn lemma_lookup_built(entries: Seq<FileEntryView>, k: Seq<char>)
    requires
        entries.len() <= usize::MAX,
    ensures
        select(entries, indices_named(entries, k)) == entries_named(entries, k),
    decreases entries.len(),
{
    if entries.len() > 0 {
        let prefix = entries.drop_last();
        let e = entries.last();
        assert(prefix.push(e) =~= entries);
        lemma_lookup_built(prefix, k);
        lemma_indices_named_bounded(prefix, k);
        lemma_select_prefix(prefix, e, indices_named(prefix, k));
        let idxs = indices_named(prefix, k);
        assert(entries.drop_last() =~= prefix);
        if e.name_lower == k {
            let n = (entries.len() - 1) as usize;
            assert(indices_named(entries, k) == idxs.push(n));
            assert(idxs.push(n).drop_last() =~= idxs);
            assert(select(entries, idxs.push(n)) == select(entries, idxs).push(entries[n as int]));
            assert(entries_named(entries, k) == entries_named(prefix, k).push(e));
        } else {
            assert(indices_named(entries, k) == idxs);
            assert(entries_named(entries, k) == entries_named(prefix, k));
        }
    }
}

impl FileIndex {
    /// An empty index with an empty root path.
    pub fn new() -> (r: FileIndex)
        ensures
            r@.path == Seq::<char>::empty(),
            r@.entries == Seq::<FileEntryView>::empty(),
            r@.names == no_names(),
            !r@.dirty,
            table_current(r@),
    {
        let r = FileIndex {
            path: String::new(),
            modified: now(),
            entries: Vec::new(),
            name_index: name_table_new(),
            index_dirty: false,
        };
        assert(r@.entries =~= Seq::<FileEntryView>::empty());
        assert(built_names(r@.entries) =~= no_names());
        r
    }

    /// An empty index rooted at `path`.
    pub fn with_root(path: &str) -> (r: FileIndex)
        ensures
            r@.path == path@,
            r@.entries == Seq::<FileEntryView>::empty(),
            r@.names == no_names(),
            !r@.dirty,
            table_current(r@),
    {
        let r = FileIndex {
            path: path.to_string(),
            modified: now(),
            entries: Vec::new(),
            name_index: name_table_new(),
            index_dirty: false,
        };
        assert(r@.entries =~= Seq::<FileEntryView>::empty());
        assert(built_names(r@.entries) =~= no_names());
        r
    }

    /// An index as it comes back from storage: the stored root, time and entries, an
    /// empty lookup table, marked for a rebuild before the first lookup.
    pub fn from_stored(path: String, modified: std::time::SystemTime, entries: Vec<FileEntry>) -> (r: FileIndex)
        ensures
            r@.path == path@,
            r@.modified == modified,
            r@.entries == entry_views(entries@),
            r@.names == no_names(),
            r@.dirty,
            table_current(r@),
    {
        FileIndex { path, modified, entries, name_index: name_table_new(), index_dirty: true }
    }

    /// The stored entries.
    pub fn entries(&self) -> (r: &[FileEntry])
        ensures
            entry_views(r@) == self@.entries,
    {
        self.entries.as_slice()
    }

    /// The entries, for changing them in place. The lookup table is marked for a
    /// rebuild, since the changes may rename entries.
    pub fn entries_mut(&mut self) -> (r: &mut Vec<FileEntry>)
        ensures
            entry_views(r@) == old(self)@.entries,
            final(self)@.entries == entry_views(final(r)@),
            final(self)@.path == old(self)@.path,
            final(self)@.modified == old(self)@.modified,
            final(self)@.names == old(self)@.names,
            final(self)@.dirty,
            table_current(final(self)@),
    {
        self.index_dirty = true;
        &mut self.entries
    }

    /// Number of entries.
    pub fn len(&self) -> (r: usize)
        ensures
            r == self@.entries.len(),
    {
        self.entries.len()
    }

    /// Whether there are no entries.
    pub fn is_empty(&self) -> (r: bool)
        ensures
            r == (self@.entries.len() == 0),
    {
        self.entries.len() == 0
    }

    /// The root path.
    pub fn root_path(&self) -> (r: &str)
        ensures
            r@ == self@.path,
    {
        self.path.as_str()
    }

    /// Rebuilds the lookup table from the entries.
    fn build_name_index(&mut self)
        ensures
            final(self)@ == (FileIndexView { names: built_names(old(self)@.entries), dirty: false, ..old(self)@ }),
    {
        name_table_clear(&mut self.name_index);
        let ghost ents = self@.entries;
        let mut i: usize = 0;
        while i < self.entries.len()
            invariant
                i <= self.entries@.len(),
                self@.entries == ents,
                self@.path == old(self)@.path,
                self@.modified == old(self)@.modified,
                self@.dirty == old(self)@.dirty,
                ents == old(self)@.entries,
                self@.names == built_names(ents.take(i as int)),
            decreases self.entries@.len() - i,
        {
            proof {
                assert(ents.take(i as int).push(ents[i as int]) =~= ents.take(i + 1));
                lemma_built_names_push(ents.take(i as int), ents[i as int]);
            }
            let key = self.entries[i].name_lower.clone();
            name_table_push(&mut self.name_index, key, i);
            i = i + 1;
        }
        assert(ents.take(ents.len() as int) =~= ents);
        self.index_dirty = false;
    }

    /// Rebuilds the table when it is marked for a rebuild or empty.
    fn ensure_index(&mut self)
        ensures
            final(self)@ == ensured(old(self)@),
    {
        if self.index_dirty || name_table_is_empty(&self.name_index) {
            self.build_name_index();
        }
    }

    /// Appends one entry and records its position under its `name_lower`.
    pub fn add_entry(&mut self, entry: FileEntry)
        requires
            old(self)@.entries.len() < usize::MAX,
        ensures
            final(self)@ == after_add(old(self)@, entry@),
            table_current(old(self)@) ==> table_current(final(self)@),
    {
        proof {
            if table_current(old(self)@) {
                law_add_entry_keeps_table(old(self)@, entry@);
            }
        }
        let idx = self.entries.len();
        let key = entry.name_lower.clone();
        self.entries.push(entry);
        name_table_push(&mut self.name_index, key, idx);
        assert(self@.entries =~= old(self)@.entries.push(entry@));
    }

    /// Appends a batch of entries and records each new position in the table.
    pub fn add_entries_batch(&mut self, entries: Vec<FileEntry>)
        requires
            old(self)@.entries.len() + entries@.len() < usize::MAX,
        ensures
            final(self)@ == after_batch(old(self)@, entry_views(entries@)),
            table_current(old(self)@) ==> table_current(final(self)@),
    {
        proof {
            if table_current(old(self)@) {
                law_add_batch_keeps_table(old(self)@, entry_views(entries@));
            }
        }
        if entries.len() == 0 {
            assert(old(self)@.entries + entry_views(entries@) =~= old(self)@.entries);
            return;
        }
        let start_idx = self.entries.len();
        let ghost added = entry_views(entries@);
        let ghost base = self@.entries;
        let mut entries = entries;
        self.entries.append(&mut entries);
        assert(self@.entries =~= base + added);
        let mut idx = start_idx;
        while idx < self.entries.len()
            invariant
                start_idx == base.len(),
                start_idx <= idx <= self.entries@.len(),
                self@.entries == base + added,
                self@.path == old(self)@.path,
                self@.modified == old(self)@.modified,
                self@.dirty == old(self)@.dirty,
                base == old(self)@.entries,
                added.len() + base.len() < usize::MAX,
                self.entries@.len() == base.len() + added.len(),
                self@.names == names_after_batch(old(self)@.names, base, added.take(idx - start_idx)),
            decreases self.entries@.len() - idx,
        {
            proof {
                let t = idx - start_idx;
                assert(added.take(t + 1).drop_last() =~= added.take(t));
                assert(added.take(t + 1).last() == added[t]);
                assert(self@.entries[idx as int] == added[t]);
            }
            let key = self.entries[idx].name_lower.clone();
            name_table_push(&mut self.name_index, key, idx);
            idx = idx + 1;
        }
        assert(added.take(added.len() as int) =~= added);
    }
}

/// The index after `add_entry(e)`: `e` appended and its position recorded under its name.
pub open spec fn after_add(v: FileIndexView, e: FileEntryView) -> FileIndexView {
    FileIndexView {
        entries: v.entries.push(e),
        names: if v.names.dom().contains(e.name_lower) {
            v.names.insert(e.name_lower, v.names[e.name_lower].push(v.entries.len() as usize))
        } else {
            v.names.insert(e.name_lower, seq![v.entries.len() as usize])
        },
        ..v
    }
}

/// The index after `add_entries_batch(added)`.
pub open spec fn after_batch(v: FileIndexView, added: Seq<FileEntryView>) -> FileIndexView {
    FileIndexView {
        entries: v.entries + added,
        names: names_after_batch(v.names, v.entries, added),
        ..v
    }
}

/// The index after removing the entry at `pos`.
pub open spec fn after_remove(v: FileIndexView, pos: int) -> FileIndexView {
    FileIndexView {
        entries: swap_removed(v.entries, pos),
        names: names_after_removal(v.names, v.entries, pos),
        dirty: true,
        ..v
    }
}

/// The table after recording each of `added` (appended after `base`) in turn.
pub open spec fn names_after_batch(
    names: Map<Seq<char>, Seq<usize>>,
    base: Seq<FileEntryView>,
    added: Seq<FileEntryView>,
) -> Map<Seq<char>, Seq<usize>>
    decreases added.len(),
{
    if added.len() == 0 {
        names
    } else {
        let prev = names_after_batch(names, base, added.drop_last());
        let e = added.last();
        let idx = (base.len() + added.len() - 1) as usize;
        if prev.dom().contains(e.name_lower) {
            prev.insert(e.name_lower, prev[e.name_lower].push(idx))
        } else {
            prev.insert(e.name_lower, seq![idx])
        }
    }
}


/// Position of the first `x` in `v`, or `v.len()` when there is none.
pub open spec fn first_index_of(v: Seq<usize>, x: usize) -> int
    decreases v.len(),
{
    if v.len() == 0 {
        0
    } else if v[0] == x {
        0
    } else {
        1 + first_index_of(v.drop_first(), x)
    }
}

/// `v` with its first `from` replaced by `to` (unchanged when `from` is absent).
pub open spec fn replace_first(v: Seq<usize>, from: usize, to: usize) -> Seq<usize> {
    let j = first_index_of(v, from);
    if j < v.len() {
        v.update(j, to)
    } else {
        v
    }
}

/// `v` without any occurrence of `x`.
pub open spec fn without(v: Seq<usize>, x: usize) -> Seq<usize>
    decreases v.len(),
{
    if v.len() == 0 {
        Seq::empty()
    } else {
        let prev = without(v.drop_last(), x);
        if v.last() == x {
            prev
        } else {
            prev.push(v.last())
        }
    }
}

/// Position of the first entry whose path names the same path as `p`, or the length.
pub open spec fn first_same_path(entries: Seq<FileEntryView>, p: Seq<char>) -> int
    decreases entries.len(),
{
    if entries.len() == 0 {
        0
    } else if same_path(entries[0].path, p) {
        0
    } else {
        1 + first_same_path(entries.drop_first(), p)
    }
}

/// The entries after moving the last one into position `pos` and dropping the last.
pub open spec fn swap_removed(entries: Seq<FileEntryView>, pos: int) -> Seq<FileEntryView> {
    entries.update(pos, entries.last()).drop_last()
}

/// The table after the position bookkeeping that removing the entry at `pos` does.
pub open spec fn names_after_removal(
    names: Map<Seq<char>, Seq<usize>>,
    entries: Seq<FileEntryView>,
    pos: int,
) -> Map<Seq<char>, Seq<usize>> {
    let last = entries.len() - 1;
    let removed = entries[pos].name_lower;
    if pos != last {
        let last_name = entries[last].name_lower;
        let m1 = if names.dom().contains(last_name) {
            names.insert(last_name, replace_first(names[last_name], last as usize, pos as usize))
        } else {
            names
        };
        if m1.dom().contains(removed) {
            m1.insert(removed, without(m1[removed], pos as usize))
        } else {
            m1
        }
    } else {
        if names.dom().contains(removed) {
            names.insert(removed, without(names[removed], last as usize))
        } else {
            names
        }
    }
}

proof fn lemma_first_index_of(v: Seq<usize>, x: usize, j: int)
    requires
        0 <= j <= v.len(),
        j < v.len() ==> v[j] == x,
        forall|k: int| 0 <= k < j ==> v[k] != x,
    ensures
        first_index_of(v, x) == j,
    decreases j,
{
    if j > 0 {
        assert(v[0] != x);
        lemma_first_index_of(v.drop_first(), x, j - 1);
    }
}

proof fn lemma_first_same_path(entries: Seq<FileEntryView>, p: Seq<char>, j: int)
    requires
        0 <= j <= entries.len(),
        j < entries.len() ==> same_path(entries[j].path, p),
        forall|k: int| 0 <= k < j ==> !same_path(#[trigger] entries[k].path, p),
    ensures
        first_same_path(entries, p) == j,
    decreases j,
{
    if j > 0 {
        assert(!same_path(entries[0].path, p));
        lemma_first_same_path(entries.drop_first(), p, j - 1);
    }
}

/// The entry references, read as entry values.
pub open spec fn ref_views(v: Seq<&FileEntry>) -> Seq<FileEntryView> {
    v.map_values(|e: &FileEntry| e@)
}

/// `v` with its first `from` replaced by `to`.
fn replace_first_in(v: &mut Vec<usize>, from: usize, to: usize)
    ensures
        final(v)@ == replace_first(old(v)@, from, to),
{
    let mut j: usize = 0;
    while j < v.len()
        invariant
            j <= v@.len(),
            v@ == old(v)@,
            forall|k: int| 0 <= k < j ==> v@[k] != from,
        decreases v@.len() - j,
    {
        if v[j] == from {
            proof { lemma_first_index_of(v@, from, j as int); }
            v.set(j, to);
            return;
        }
        j = j + 1;
    }
    proof { lemma_first_index_of(v@, from, j as int); }
}

/// `v` without any occurrence of `x`.
fn without_in(v: &Vec<usize>, x: usize) -> (r: Vec<usize>)
    ensures
        r@ == without(v@, x),
{
    let mut r: Vec<usize> = Vec::new();
    let mut i: usize = 0;
    while i < v.len()
        invariant
            i <= v@.len(),
            r@ == without(v@.take(i as int), x),
        decreases v@.len() - i,
    {
        assert(v@.take(i + 1).drop_last() =~= v@.take(i as int));
        if v[i] != x {
            r.push(v[i]);
        }
        i = i + 1;
    }
    assert(v@.take(v@.len() as int) =~= v@);
    r
}

impl FileIndex {
    /// Removes the first entry whose path names the same path as `path`, moving the
    /// last entry into its place, and marks the lookup table for a rebuild.
    /// Returns whether an entry was removed.
    pub fn remove_entry(&mut self, path: &str) -> (r: bool)
        ensures
            r == (first_same_path(old(self)@.entries, path@) < old(self)@.entries.len()),
            !r ==> final(self)@ == old(self)@,
            r ==> final(self)@ == after_remove(old(self)@, first_same_path(old(self)@.entries, path@)),
            final(self)@.entries.len() == old(self)@.entries.len() - (if r { 1int } else { 0int }),
            table_current(old(self)@) ==> table_current(final(self)@),
    {
        let ghost ents = self@.entries;
        let mut pos: usize = 0;
        while pos < self.entries.len()
            invariant
                pos <= self.entries@.len(),
                self@ == old(self)@,
                ents == old(self)@.entries,
                forall|k: int| 0 <= k < pos ==> !same_path(#[trigger] ents[k].path, path@),
            ensures
                pos <= self.entries@.len(),
                self@ == old(self)@,
                forall|k: int| 0 <= k < pos ==> !same_path(#[trigger] ents[k].path, path@),
                pos < self.entries@.len() ==> same_path(ents[pos as int].path, path@),
            decreases self.entries@.len() - pos,
        {
            if paths_equal(self.entries[pos].path.as_str(), path) {
                break;
            }
            pos = pos + 1;
        }
        proof { lemma_first_same_path(ents, path@, pos as int); }
        if pos == self.entries.len() {
            return false;
        }
        let removed_name_lower = self.entries[pos].name_lower.clone();
        let last_idx = self.entries.len() - 1;
        if pos != last_idx {
            let last_name_lower = self.entries[last_idx].name_lower.clone();
            match name_table_remove(&mut self.name_index, last_name_lower.as_str()) {
                Some(mut indices) => {
                    replace_first_in(&mut indices, last_idx, pos);
                    name_table_insert(&mut self.name_index, last_name_lower, indices);
                    proof {
                        let n = old(self)@.names;
                        assert(n.remove(ents[last_idx as int].name_lower).insert(ents[last_idx as int].name_lower, indices@)
                            =~= n.insert(ents[last_idx as int].name_lower, indices@));
                    }
                },
                None => {
                    proof {
                        assert(old(self)@.names.remove(ents[last_idx as int].name_lower) =~= old(self)@.names);
                    }
                },
            }
            let ghost m1 = self@.names;
            match name_table_remove(&mut self.name_index, removed_name_lower.as_str()) {
                Some(indices) => {
                    let kept = without_in(&indices, pos);
                    name_table_insert(&mut self.name_index, removed_name_lower, kept);
                    assert(m1.remove(ents[pos as int].name_lower).insert(ents[pos as int].name_lower, kept@)
                        =~= m1.insert(ents[pos as int].name_lower, kept@));
                },
                None => {
                    assert(m1.remove(ents[pos as int].name_lower) =~= m1);
                },
            }
            self.entries.swap_remove(pos);
        } else {
            let ghost m0 = self@.names;
            match name_table_remove(&mut self.name_index, removed_name_lower.as_str()) {
                Some(indices) => {
                    let kept = without_in(&indices, last_idx);
                    name_table_insert(&mut self.name_index, removed_name_lower, kept);
                    assert(m0.remove(ents[pos as int].name_lower).insert(ents[pos as int].name_lower, kept@)
                        =~= m0.insert(ents[pos as int].name_lower, kept@));
                },
                None => {
                    assert(m0.remove(ents[pos as int].name_lower) =~= m0);
                },
            }
            self.entries.pop();
        }
        self.index_dirty = true;
        assert(self@.entries =~= swap_removed(ents, pos as int));
        true
    }

    /// Every entry whose `name_lower` equals the lowercase of `name`, in index order,
    /// found through the lookup table (rebuilt first when marked for a rebuild or empty).
    pub fn find_by_name(&mut self, name: &str) -> (r: Vec<&FileEntry>)
        requires
            table_current(old(self)@),
        ensures
            final(self)@ == ensured(old(self)@),
            final(self)@.entries == old(self)@.entries,
            table_current(final(self)@),
            ref_views(r@) == lookup(final(self)@.entries, final(self)@.names, lowercase(name@)),
            ref_views(r@) == entries_named(old(self)@.entries, lowercase(name@)),
            ref_views(r@) == old(self)@.entries.filter(|e: FileEntryView| e.name_lower == lowercase(name@)),
    {
        let count = self.entries.len();
        proof {
            law_current_table_is_wf(old(self)@);
            assert(old(self)@.entries.len() == count);
            law_find_by_name_exact(old(self)@, lowercase(name@));
            law_ensured_table_agrees(old(self)@);
            lemma_entries_named_filter(old(self)@.entries, lowercase(name@));
        }
        self.ensure_index();
        let name_lower = to_lowercase(name);
        let mut r: Vec<&FileEntry> = Vec::new();
        match name_table_get(&self.name_index, name_lower.as_str()) {
            Some(indices) => {
                let mut j: usize = 0;
                while j < indices.len()
                    invariant
                        j <= indices@.len(),
                        indices@ == self@.names[name_lower@],
                        ref_views(r@) == select(self@.entries, indices@.take(j as int)),
                    decreases indices@.len() - j,
                {
                    assert(indices@.take(j + 1).drop_last() =~= indices@.take(j as int));
                    let i = indices[j];
                    if i < self.entries.len() {
                        r.push(&self.entries[i]);
                        assert(ref_views(r@) =~= select(self@.entries, indices@.take(j as int)).push(self@.entries[i as int]));
                    }
                    j = j + 1;
                }
                assert(indices@.take(indices@.len() as int) =~= indices@);
            },
            None => {
                assert(ref_views(r@) =~= Seq::<FileEntryView>::empty());
            },
        }
        r
    }

    /// Entries whose `name_lower` starts with the lowercase of `prefix`, in index order.
    /// The lookup table is rebuilt first when marked for a rebuild or empty.
    pub fn find_by_name_prefix(&mut self, prefix: &str) -> (r: Vec<&FileEntry>)
        ensures
            final(self)@ == ensured(old(self)@),
            table_current(old(self)@) ==> table_current(final(self)@),
            ref_views(r@) == entries_with_prefix(final(self)@.entries, lowercase(prefix@)),
            ref_views(r@) == old(self)@.entries.filter(|e: FileEntryView|
                lowercase(prefix@).len() <= e.name_lower.len()
                    && e.name_lower.subrange(0, lowercase(prefix@).len() as int) == lowercase(prefix@)),
    {
        proof {
            lemma_entries_with_prefix_filter(old(self)@.entries, lowercase(prefix@));
            if table_current(old(self)@) {
                law_ensured_table_agrees(old(self)@);
            }
        }
        self.ensure_index();
        let prefix_lower = to_lowercase(prefix);
        let mut r: Vec<&FileEntry> = Vec::new();
        let mut i: usize = 0;
        while i < self.entries.len()
            invariant
                i <= self.entries@.len(),
                ref_views(r@) == entries_with_prefix(self@.entries.take(i as int), prefix_lower@),
            decreases self.entries@.len() - i,
        {
            assert(self@.entries.take(i + 1).drop_last() =~= self@.entries.take(i as int));
            if starts_with(self.entries[i].name_lower.as_str(), prefix_lower.as_str()) {
                r.push(&self.entries[i]);
                assert(ref_views(r@) =~= entries_with_prefix(self@.entries.take(i as int), prefix_lower@).push(self@.entries[i as int]));
            }
            i = i + 1;
        }
        assert(self@.entries.take(self@.entries.len() as int) =~= self@.entries);
        r
    }
}

proof fn lemma_names_after_batch_built(base: Seq<FileEntryView>, added: Seq<FileEntryView>)
    requires
        base.len() + added.len() < usize::MAX,
    ensures
        names_after_batch(built_names(base), base, added) == built_names(base + added),
    decreases added.len(),
{
    if added.len() == 0 {
        assert(base + added =~= base);
    } else {
        lemma_names_after_batch_built(base, added.drop_last());
        let pre = base + added.drop_last();
        assert(base + added =~= pre.push(added.last()));
        lemma_built_names_push(pre, added.last());
    }
}

/// An up-to-date table is what a lookup needs.
pub proof fn law_current_table_is_wf(v: FileIndexView)
    requires
        table_current(v),
    ensures
        index_wf(v),
{
}

/// Adding one entry keeps the lookup table in agreement with the entries.
pub proof fn law_add_entry_keeps_table(v: FileIndexView, e: FileEntryView)
    requires
        table_current(v),
        v.entries.len() < usize::MAX,
    ensures
        table_current(after_add(v, e)),
{
    if !v.dirty {
        lemma_built_names_push(v.entries, e);
    }
}

/// Adding a batch of entries keeps the lookup table in agreement with the entries.
pub proof fn law_add_batch_keeps_table(v: FileIndexView, added: Seq<FileEntryView>)
    requires
        table_current(v),
        v.entries.len() + added.len() < usize::MAX,
    ensures
        table_current(after_batch(v, added)),
{
    if !v.dirty {
        lemma_names_after_batch_built(v.entries, added);
    }
}

/// Removing an entry leaves the index well formed: the table is marked for a rebuild.
pub proof fn law_remove_keeps_table(v: FileIndexView, pos: int)
    ensures
        table_current(after_remove(v, pos)),
{
}

/// After the rebuild check of a lookup, the table agrees with the entries.
pub proof fn law_ensured_table_agrees(v: FileIndexView)
    requires
        index_wf(v),
    ensures
        ensured(v).names == built_names(v.entries),
        ensured(v).entries == v.entries,
        table_current(ensured(v)),
{
}

/// On a well-formed index, a name lookup answers exactly the entries whose stored
/// lowercase name equals the key, in index order.
pub proof fn law_find_by_name_exact(v: FileIndexView, key: Seq<char>)
    requires
        index_wf(v),
        v.entries.len() <= usize::MAX,
    ensures
        lookup(ensured(v).entries, ensured(v).names, key) == entries_named(v.entries, key),
{
    lemma_lookup_built(v.entries, key);
    if indices_named(v.entries, key).len() == 0 {
        assert(indices_named(v.entries, key) =~= Seq::<usize>::empty());
    }
}

/// A name lookup after adding an entry gives back what it gave before, followed by the
/// new entry, when the entry carries the looked-up lowercase name (and the table was
/// up to date before the addition).
pub proof fn law_find_after_add(v: FileIndexView, e: FileEntryView)
    requires
        table_current(v),
        v.entries.len() + 1 < usize::MAX,
    ensures
        lookup(ensured(after_add(v, e)).entries, ensured(after_add(v, e)).names, e.name_lower)
            == entries_named(v.entries, e.name_lower).push(e),
{
    let w = after_add(v, e);
    law_add_entry_keeps_table(v, e);
    law_current_table_is_wf(w);
    law_find_by_name_exact(w, e.name_lower);
    assert(w.entries.drop_last() =~= v.entries);
}

proof fn lemma_entries_with_prefix_filter(entries: Seq<FileEntryView>, prefix: Seq<char>)
    ensures
        entries_with_prefix(entries, prefix) == entries.filter(|e: FileEntryView|
            prefix.len() <= e.name_lower.len() && e.name_lower.subrange(0, prefix.len() as int) == prefix),
    decreases entries.len(),
{
    reveal(Seq::filter);
    if entries.len() > 0 {
        lemma_entries_with_prefix_filter(entries.drop_last(), prefix);
        let n = entries.last().name_lower;
        assert(n.take(prefix.len() as int) =~= n.subrange(0, prefix.len() as int));
    }
}

/// A prefix lookup answers, in index order, exactly the entries whose stored lowercase
/// name begins with the lowercased prefix: its first characters are the prefix's. The
/// entries themselves are left as they were.
pub proof fn law_find_by_prefix_answers(v: FileIndexView, prefix: Seq<char>)
    ensures
        entries_with_prefix(ensured(v).entries, lowercase(prefix)) == v.entries.filter(|e: FileEntryView|
            lowercase(prefix).len() <= e.name_lower.len()
                && e.name_lower.subrange(0, lowercase(prefix).len() as int) == lowercase(prefix)),
        ensured(v).entries == v.entries,
{
    lemma_entries_with_prefix_filter(v.entries, lowercase(prefix));
}

proof fn lemma_entries_named_filter(entries: Seq<FileEntryView>, key: Seq<char>)
    ensures
        entries_named(entries, key) == entries.filter(|e: FileEntryView| e.name_lower == key),
    decreases entries.len(),
{
    reveal(Seq::filter);
    if entries.len() > 0 {
        lemma_entries_named_filter(entries.drop_last(), key);
    }
}

/// A name lookup on an index whose table is current (as every constructor and update
/// leaves it) answers, in index order, exactly the entries whose stored lowercase name
/// equals the lowercased name asked for, and leaves the entries as they were.
pub proof fn law_find_by_name_answers(v: FileIndexView, name: Seq<char>)
    requires
        table_current(v),
        v.entries.len() <= usize::MAX,
    ensures
        lookup(ensured(v).entries, ensured(v).names, lowercase(name))
            == v.entries.filter(|e: FileEntryView| e.name_lower == lowercase(name)),
        ensured(v).entries == v.entries,
{
    law_current_table_is_wf(v);
    law_find_by_name_exact(v, lowercase(name));
    lemma_entries_named_filter(v.entries, lowercase(name));
}

/// Removing the entry at a position keeps every other entry: the entries afterwards are
/// those before, less the removed one, in some order.
pub proof fn law_remove_keeps_other_entries(v: FileIndexView, pos: int)
    requires
        0 <= pos < v.entries.len(),
    ensures
        after_remove(v, pos).entries.to_multiset() == v.entries.to_multiset().remove(v.entries[pos]),
        after_remove(v, pos).entries.len() == v.entries.len() - 1,
{
    broadcast use vstd::seq_lib::group_to_multiset_ensures;
    let s = v.entries;
    let last = s.last();
    let u = s.update(pos, last);
    vstd::seq_lib::to_multiset_update(s, pos, last);
    assert(u =~= u.drop_last().push(last));
    assert(u.drop_last().push(last).to_multiset() =~= u.drop_last().to_multiset().insert(last));
    let d = u.drop_last();
    assert(s.contains(s[pos]));
    assert(s.to_multiset().count(s[pos]) > 0);
    assert forall|x: FileEntryView| #[trigger] d.to_multiset().count(x) == s.to_multiset().remove(s[pos]).count(x) by {
        assert(u.to_multiset().count(x) == d.to_multiset().insert(last).count(x));
        assert(u.to_multiset().count(x) == s.to_multiset().insert(last).remove(s[pos]).count(x));
    }
    assert(d.to_multiset() =~= s.to_multiset().remove(s[pos]));
}

/// An entry as the load-time check leaves it: its lowercase name recomputed, and its
/// path replaced by `root` joined with its name when its canonical form (when known)
/// does not start with the canonical root, both compared in lowercase.
pub open spec fn fixed_entry(e: FileEntryView, canonical: Option<String>, root: Seq<char>) -> FileEntryView {
    let path = match canonical {
        Some(c) => if is_prefix(lowercase(root), lowercase(c@)) {
            e.path
        } else {
            joined_path(root, e.name)
        },
        None => e.path,
    };
    FileEntryView { path: path, name_lower: lowercase(e.name), ..e }
}

/// The first `n` of `v`, or all of them when there are fewer.
pub open spec fn first_n(v: Seq<FileEntryView>, n: int) -> Seq<FileEntryView> {
    if n < v.len() {
        v.take(n)
    } else {
        v
    }
}

impl FileIndex {
    /// Appends entries found by a directory walk, marking the lookup table for a
    /// rebuild.
    pub fn append_walked(&mut self, found: Vec<FileEntry>)
        ensures
            final(self)@ == (FileIndexView { entries: old(self)@.entries + entry_views(found@), dirty: true, ..old(self)@ }),
            table_current(final(self)@),
    {
        let mut found = found;
        let ghost added = entry_views(found@);
        self.entries.append(&mut found);
        self.index_dirty = true;
        assert(self@.entries =~= old(self)@.entries + added);
    }

    /// Keeps at most `max_files` of the entries a walk found, in the order found,
    /// adds them as a batch, and returns how many were added.
    pub fn add_walked_limited(&mut self, found: Vec<FileEntry>, max_files: usize) -> (r: usize)
        requires
            old(self)@.entries.len() + first_n(entry_views(found@), max_files as int).len() < usize::MAX,
        ensures
            r == first_n(entry_views(found@), max_files as int).len(),
            final(self)@ == after_batch(old(self)@, first_n(entry_views(found@), max_files as int)),
            table_current(old(self)@) ==> table_current(final(self)@),
    {
        let mut found = found;
        let ghost all = found@;
        if max_files < found.len() {
            found.truncate(max_files);
        }
        assert(entry_views(found@) =~= first_n(entry_views(all), max_files as int));
        let count = found.len();
        self.add_entries_batch(found);
        count
    }

    /// The load-time check of stored entries: `root_canonical` is the canonical root
    /// path and `canonical_paths[i]` the canonical form of entry `i`'s path, when it
    /// could be resolved. Each entry becomes `fixed_entry` of itself, and the lookup
    /// table is marked for a rebuild.
    pub fn fix_loaded_entries(&mut self, root_canonical: &str, canonical_paths: &Vec<Option<String>>)
        requires
            canonical_paths@.len() == old(self)@.entries.len(),
        ensures
            final(self)@.entries.len() == old(self)@.entries.len(),
            forall|i: int| 0 <= i < old(self)@.entries.len() ==> #[trigger] final(self)@.entries[i]
                == fixed_entry(old(self)@.entries[i], canonical_paths@[i], root_canonical@),
            final(self)@.path == old(self)@.path,
            final(self)@.modified == old(self)@.modified,
            final(self)@.names == old(self)@.names,
            final(self)@.dirty,
            table_current(final(self)@),
    {
        let root_lower = to_lowercase(root_canonical);
        let mut fixed: Vec<FileEntry> = Vec::new();
        let mut i: usize = 0;
        while i < self.entries.len()
            invariant
                i <= self.entries@.len(),
                self@ == old(self)@,
                canonical_paths@.len() == self.entries@.len(),
                root_lower@ == lowercase(root_canonical@),
                fixed@.len() == i,
                forall|j: int| 0 <= j < i ==> #[trigger] fixed@[j]@
                    == fixed_entry(self@.entries[j], canonical_paths@[j], root_canonical@),
            decreases self.entries@.len() - i,
        {
            let e = &self.entries[i];
            let name_lower = to_lowercase(e.name.as_str());
            let path = match &canonical_paths[i] {
                Some(c) => {
                    let c_lower = to_lowercase(c.as_str());
                    if starts_with(c_lower.as_str(), root_lower.as_str()) {
                        e.path.clone()
                    } else {
                        path_join(root_canonical, e.name.as_str())
                    }
                },
                None => e.path.clone(),
            };
            fixed.push(FileEntry { path, name: e.name.clone(), name_lower, size: e.size, modified: e.modified });
            i = i + 1;
        }
        self.entries = fixed;
        self.index_dirty = true;
    }
}

impl Clone for FileIndex {
    fn clone(&self) -> (r: Self)
        ensures
            r@ == self@,
    {
        let mut entries: Vec<FileEntry> = Vec::new();
        let mut i: usize = 0;
        while i < self.entries.len()
            invariant
                i <= self.entries@.len(),
                entry_views(entries@) == entry_views(self.entries@).take(i as int),
            decreases self.entries@.len() - i,
        {
            let ghost before = entry_views(entries@);
            entries.push(self.entries[i].clone());
            assert(entry_views(entries@) =~= before.push(self.entries@[i as int]@));
            assert(entry_views(self.entries@).take(i + 1) =~= entry_views(self.entries@).take(i as int).push(self.entries@[i as int]@));
            i = i + 1;
        }
        assert(entry_views(self.entries@).take(self.entries@.len() as int) =~= entry_views(self.entries@));
        FileIndex {
            path: self.path.clone(),
            modified: self.modified,
            entries,
            name_index: name_table_clone(&self.name_index),
            index_dirty: self.index_dirty,
        }
    }
}

impl Default for FileIndex {
    fn default() -> (r: FileIndex)
        ensures
            r@.path == Seq::<char>::empty(),
            r@.entries == Seq::<FileEntryView>::empty(),
            r@.names == no_names(),
            !r@.dirty,
            table_current(r@),
    {
        FileIndex::new()
    }
}

/// Options for walking a directory tree.
pub struct IndexOptions {
    /// Skip hidden files.
    pub skip_hidden: bool,
    /// Skip system files.
    pub skip_system: bool,
    /// Deepest level to descend to; `None` for no limit.
    pub max_depth: Option<usize>,
}

impl Default for IndexOptions {
    fn default() -> (r: IndexOptions)
        ensures
            r.skip_hidden,
            r.skip_system,
            r.max_depth.is_none(),
    {
        IndexOptions { skip_hidden: true, skip_system: true, max_depth: None }
    }
}

/// The recursive directory walker built on `walkdir`.
pub struct WalkdirWalker {
    options: IndexOptions,
}

impl WalkdirWalker {
    /// A walker with the given options.
    pub fn new(options: IndexOptions) -> (r: WalkdirWalker)
        ensures
            r.options() == options,
    {
        WalkdirWalker { options }
    }

    /// The options the walker was made with.
    pub closed spec fn options(&self) -> IndexOptions {
        self.options
    }

    /// Whether hidden files are to be skipped.
    pub fn skip_hidden(&self) -> (r: bool)
        ensures
            r == self.options().skip_hidden,
    {
        self.options.skip_hidden
    }
}

/// The parallel walker built on `jwalk`.
pub struct JwalkWalker {
    skip_hidden: bool,
}

impl JwalkWalker {
    /// A walker that skips hidden files when `skip_hidden` holds.
    pub fn new(skip_hidden: bool) -> (r: JwalkWalker)
        ensures
            r.skips_hidden() == skip_hidden,
    {
        JwalkWalker { skip_hidden }
    }

    /// Whether hidden files are skipped.
    pub closed spec fn skips_hidden(&self) -> bool {
        self.skip_hidden
    }

    /// Whether hidden files are skipped.
    pub fn skip_hidden(&self) -> (r: bool)
        ensures
            r == self.skips_hidden(),
    {
        self.skip_hidden
    }
}

/// The walker for this platform: a `walkdir` walker that skips hidden files as asked
/// and does not skip system files.
pub fn create_walker(skip_hidden: bool) -> (r: WalkdirWalker)
    ensures
        r.options().skip_hidden == skip_hidden,
        !r.options().skip_system,
        r.options().max_depth.is_none(),
{
    WalkdirWalker::new(IndexOptions { skip_hidden, skip_system: false, max_depth: None })
}
} // verus!
