//! Changes that a watch on the file system reports.

use vstd::prelude::*;
use crate::text::str_eq;

verus! {

/// A change to one path.
#[derive(Debug)]
pub enum FileChange {
    Created(String),
    Modified(String),
    Removed(String),
}

/// The path of a change.
pub open spec fn change_path(c: FileChange) -> Seq<char> {
    match c {
        FileChange::Created(p) => p@,
        FileChange::Modified(p) => p@,
        FileChange::Removed(p) => p@,
    }
}

impl FileChange {
    /// The path that changed.
    pub fn path(&self) -> (r: &str)
        ensures
            r@ == change_path(*self),
    {
        match self {
            FileChange::Created(p) => p.as_str(),
            FileChange::Modified(p) => p.as_str(),
            FileChange::Removed(p) => p.as_str(),
        }
    }
}

impl Clone for FileChange {
    fn clone(&self) -> (r: Self)
        ensures
            r == *self,
    {
        match self {
            FileChange::Created(p) => FileChange::Created(p.clone()),
            FileChange::Modified(p) => FileChange::Modified(p.clone()),
            FileChange::Removed(p) => FileChange::Removed(p.clone()),
        }
    }
}

impl PartialEq for FileChange {
    fn eq(&self, other: &Self) -> (r: bool) {
        match (self, other) {
            (FileChange::Created(a), FileChange::Created(b)) => str_eq(a.as_str(), b.as_str()),
            (FileChange::Modified(a), FileChange::Modified(b)) => str_eq(a.as_str(), b.as_str()),
            (FileChange::Removed(a), FileChange::Removed(b)) => str_eq(a.as_str(), b.as_str()),
            _ => false,
        }
    }
}

impl vstd::std_specs::cmp::PartialEqSpecImpl for FileChange {
    open spec fn obeys_eq_spec() -> bool {
        true
    }

    open spec fn eq_spec(&self, other: &Self) -> bool {
        match (*self, *other) {
            (FileChange::Created(a), FileChange::Created(b)) => a@ == b@,
            (FileChange::Modified(a), FileChange::Modified(b)) => a@ == b@,
            (FileChange::Removed(a), FileChange::Removed(b)) => a@ == b@,
            _ => false,
        }
    }
}

} // verus!
