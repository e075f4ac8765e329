//! Keeping an index up to date with the changes a file-system watch reports.

use vstd::prelude::*;
use crate::file_watcher::{FileChange, change_path};
use crate::index::{FileEntry, FileEntryView, FileIndex, FileIndexView, after_add, after_remove, first_same_path, table_current};
use crate::text::same_path;

verus! {

/// What a background indexing run reports.
#[derive(Debug)]
pub enum IncrementalIndexState {
    /// The first walk finished, with this many files.
    Initial(FileIndex, usize),
    /// The index took in this many changes.
    Updated(FileIndex, usize),
    /// Something failed.
    Error(String),
}

/// The index without the first entry for path `p`, if it has one.
pub open spec fn without_path(v: FileIndexView, p: Seq<char>) -> FileIndexView {
    if first_same_path(v.entries, p) < v.entries.len() {
        after_remove(v, first_same_path(v.entries, p))
    } else {
        v
    }
}

/// The view of an optional entry.
pub open spec fn entry_view_opt(e: Option<FileEntry>) -> Option<FileEntryView> {
    match e {
        Some(x) => Some(x@),
        None => None,
    }
}

/// The index after one reported change. A created or modified path that is a file has
/// its old entry dropped and, when its metadata could be read (`entry`), a fresh one
/// added; a path that is not a file changes nothing. A removed path has its entry
/// dropped.
pub open spec fn index_after_change(
    v: FileIndexView,
    change: FileChange,
    is_file: bool,
    entry: Option<FileEntryView>,
) -> FileIndexView {
    match change {
        FileChange::Removed(p) => without_path(v, p@),
        _ => if is_file {
            let w = without_path(v, change_path(change));
            match entry {
                Some(e) => after_add(w, e),
                None => w,
            }
        } else {
            v
        },
    }
}

/// Whether a change counts as taken in: an entry was added, or one was removed.
pub open spec fn change_counts(v: FileIndexView, change: FileChange, is_file: bool, entry: Option<FileEntryView>) -> bool {
    match change {
        FileChange::Removed(p) => first_same_path(v.entries, p@) < v.entries.len(),
        _ => is_file && entry is Some,
    }
}

/// Applies one reported change to the index (see `index_after_change`). `is_file` tells
/// whether the path is now a regular file, `entry` is the fresh entry read from its
/// metadata. Returns 1 when the change counts (see `change_counts`), 0 otherwise.
pub fn apply_change(index: &mut FileIndex, change: &FileChange, is_file: bool, entry: Option<FileEntry>) -> (r: usize)
    requires
        old(index)@.entries.len() < usize::MAX,
    ensures
        final(index)@ == index_after_change(old(index)@, *change, is_file, entry_view_opt(entry)),
        r == (if change_counts(old(index)@, *change, is_file, entry_view_opt(entry)) { 1usize } else { 0usize }),
        table_current(old(index)@) ==> table_current(final(index)@),
{
    match change {
        FileChange::Removed(p) => {
            if index.remove_entry(p.as_str()) {
                1
            } else {
                0
            }
        },
        _ => {
            if is_file {
                index.remove_entry(change.path());
                match entry {
                    Some(e) => {
                        index.add_entry(e);
                        1
                    },
                    None => 0,
                }
            } else {
                0
            }
        },
    }
}

/// `first_same_path` finds the first entry whose path names `p`, or gives the length
/// when none does.
proof fn lemma_first_same_path_found(entries: Seq<FileEntryView>, p: Seq<char>)
    ensures
        0 <= first_same_path(entries, p) <= entries.len(),
        first_same_path(entries, p) < entries.len() <==> exists|k: int| 0 <= k < entries.len() && same_path(#[trigger] entries[k].path, p),
        first_same_path(entries, p) < entries.len() ==> same_path(entries[first_same_path(entries, p)].path, p),
        forall|k: int| 0 <= k < first_same_path(entries, p) ==> !same_path(#[trigger] entries[k].path, p),
    decreases entries.len(),
{
    if entries.len() > 0 && !same_path(entries[0].path, p) {
        let t = entries.drop_first();
        lemma_first_same_path_found(t, p);
        assert forall|k: int| 0 < k < entries.len() implies #[trigger] entries[k] == t[k - 1] by {}
        if exists|k: int| 0 <= k < entries.len() && same_path(#[trigger] entries[k].path, p) {
            let k = choose|k: int| 0 <= k < entries.len() && same_path(#[trigger] entries[k].path, p);
            assert(same_path(t[k - 1].path, p));
        }
        if exists|k: int| 0 <= k < t.len() && same_path(#[trigger] t[k].path, p) {
            let k = choose|k: int| 0 <= k < t.len() && same_path(#[trigger] t[k].path, p);
            assert(same_path(entries[k + 1].path, p));
        }
    }
}

/// A file reported created or reported modified is treated alike: its entry (the first
/// whose path names the same path, if any) is replaced by the fresh one. The fresh entry
/// comes last; the index grows by one only when it held no entry for the path; and
/// when it held at most one, no entry but the fresh one names the path afterwards.
pub proof fn law_changed_file_replaces_its_entry(v: FileIndexView, p: String, e: FileEntryView)
    ensures
        index_after_change(v, FileChange::Created(p), true, Some(e))
            == index_after_change(v, FileChange::Modified(p), true, Some(e)),
        ({
            let r = index_after_change(v, FileChange::Created(p), true, Some(e)).entries;
            let had = exists|k: int| 0 <= k < v.entries.len() && same_path(#[trigger] v.entries[k].path, p@);
            &&& r.len() == v.entries.len() + 1 - (if had { 1int } else { 0int })
            &&& r.last() == e
            &&& (forall|i: int, j: int| 0 <= i < j < v.entries.len() && same_path(#[trigger] v.entries[i].path, p@)
                    ==> !same_path(#[trigger] v.entries[j].path, p@))
                ==> forall|k: int| 0 <= k < r.len() - 1 ==> !same_path(#[trigger] r[k].path, p@)
        }),
{
    let ents = v.entries;
    lemma_first_same_path_found(ents, p@);
    let pos = first_same_path(ents, p@);
    let w = without_path(v, p@);
    let r = index_after_change(v, FileChange::Created(p), true, Some(e)).entries;
    assert(change_path(FileChange::Created(p)) == p@);
    assert(change_path(FileChange::Modified(p)) == p@);
    assert(r == w.entries.push(e));
    if pos < ents.len() {
        let s = ents.update(pos, ents.last()).drop_last();
        assert(w.entries == s);
        if forall|i: int, j: int| 0 <= i < j < ents.len() && same_path(#[trigger] ents[i].path, p@)
            ==> !same_path(#[trigger] ents[j].path, p@) {
            assert forall|k: int| 0 <= k < r.len() - 1 implies !same_path(#[trigger] r[k].path, p@) by {
                assert(r[k] == s[k]);
                if k == pos {
                    assert(s[k] == ents[ents.len() - 1]);
                    if ents.len() - 1 != pos {
                        assert(!same_path(ents[ents.len() - 1].path, p@));
                    }
                } else {
                    assert(s[k] == ents[k]);
                    if k > pos {
                        assert(!same_path(ents[k].path, p@));
                    }
                }
            }
        }
    } else {
        assert(w.entries == ents);
    }
}

} // verus!
