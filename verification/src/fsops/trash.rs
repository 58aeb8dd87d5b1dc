//! What is known of the items in the Trash.

use vstd::prelude::*;

use crate::fsops::identity::ObjectKey;
use crate::path::PathBuf;

verus! {

/// One item in the Trash: where it lived, where its payload is now, and which
/// object that payload is.
#[derive(Debug)]
pub struct TrashRecord {
    pub original: PathBuf,
    pub backing: PathBuf,
    pub key: ObjectKey,
}

impl Clone for TrashRecord {
    fn clone(&self) -> (copy: Self)
        ensures
            copy == *self,
    {
        TrashRecord { original: self.original.clone(), backing: self.backing.clone(), key: self.key }
    }
}

impl TrashRecord {
    pub fn original_path(&self) -> (path: &PathBuf)
        ensures
            *path == self.original,
    {
        &self.original
    }
}

/// Items put back where they lived, and whether they can be trashed again.
#[derive(Debug)]
pub struct RestoredRecords {
    pub records: Vec<TrashRecord>,
    pub undoable: bool,
}

/// A change to the Trash that failed.
#[derive(Debug)]
pub struct TrashMutationFailure {
    /// Whether something had reached the disk before it failed.
    pub committed: bool,
    pub error: String,
}

} // verus!
