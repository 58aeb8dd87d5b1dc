//! Everything that changes the filesystem.
//!
//! One rule runs through the whole layer: every fallible check happens before
//! the one system call that commits a change, that commit never overwrites,
//! and whatever follows a commit can only cost undo, never report the commit
//! as having failed. `local` holds the primitives, `identity` the notion of
//! "still the same object", `journal` what a mutation records about itself,
//! and the rest are the mutations.

pub mod archive;
pub mod arrivals;
pub mod backend;
pub mod beginnings;
pub mod carry;
pub mod compress;
pub mod conflict;
pub mod containment;
pub mod contents;
pub mod copier;
pub mod copy;
pub mod delete;
pub mod dropped;
pub mod erase;
pub mod extract;
pub mod finds;
pub mod guards;
pub mod history;
pub mod identity;
pub mod journal;
pub mod listing;
pub mod local;
pub mod merge;
pub mod moving;
pub mod mutations;
pub mod outputs;
pub mod plan;
pub mod promises;
pub mod quarantine;
pub mod reaches;
pub mod repeat;
pub mod replica;
pub mod reversals;
pub mod snapshots;
pub mod sparse;
pub mod staging;
pub mod sweep;
pub mod transfer;
pub mod trash;
pub mod tree;
pub mod union;
pub mod working;

use vstd::prelude::*;

use crate::path::PathBuf;
use crate::text::{decimal, push_decimal};

verus! {

/// One path that could not be processed, and why.
#[derive(Debug)]
pub struct PathFailure {
    pub path: PathBuf,
    pub message: String,
}

/// One sentence about `failures`: the only one, or the first with a count of
/// the rest.
pub open spec fn failure_summary(failures: Seq<PathFailure>, when_empty: Seq<char>) -> Seq<char> {
    if failures.len() == 0 {
        when_empty
    } else if failures.len() == 1 {
        failures[0].message@
    } else {
        failures[0].message@ + " (and "@ + decimal((failures.len() - 1) as nat)
            + " more failure"@ + (if failures.len() == 2 {
            ""@
        } else {
            "s"@
        }) + ")"@
    }
}

impl PathFailure {
    pub fn new(path: &PathBuf, message: String) -> (failure: PathFailure)
        ensures
            failure == (PathFailure { path: *path, message }),
    {
        PathFailure { path: path.clone(), message }
    }

    /// One sentence for a notification: the only failure, or the first with a
    /// count of the rest.
    pub fn summarize(failures: &[PathFailure], when_empty: &str) -> (summary: String)
        ensures
            summary@ == failure_summary(failures@, when_empty@),
    {
        if failures.len() == 0 {
            return when_empty.to_owned();
        }
        if failures.len() == 1 {
            return failures[0].message.clone();
        }
        let mut summary = failures[0].message.clone();
        summary.append(" (and ");
        push_decimal(&mut summary, (failures.len() - 1) as u64);
        summary.append(" more failure");
        if failures.len() != 2 {
            summary.append("s");
        } else {
            summary.append("");
        }
        summary.append(")");
        summary
    }
}

/// What a browser projection has to re-check after a mutation: paths that may
/// have gone, and paths that may have appeared or changed.
#[derive(Debug)]
pub struct DirectoryChanges {
    pub removed: Vec<PathBuf>,
    pub upserted: Vec<PathBuf>,
}

impl Default for DirectoryChanges {
    fn default() -> (changes: DirectoryChanges)
        ensures
            changes.removed@.len() == 0,
            changes.upserted@.len() == 0,
    {
        DirectoryChanges { removed: Vec::new(), upserted: Vec::new() }
    }
}

impl DirectoryChanges {
    /// The changes that taking these back would make.
    pub open spec fn flipped(self) -> DirectoryChanges {
        DirectoryChanges { removed: self.upserted, upserted: self.removed }
    }

    pub fn removed(removed: Vec<PathBuf>) -> (changes: DirectoryChanges)
        ensures
            changes.removed == removed,
            changes.upserted@.len() == 0,
    {
        DirectoryChanges { removed, upserted: Vec::new() }
    }

    pub fn upserted(upserted: Vec<PathBuf>) -> (changes: DirectoryChanges)
        ensures
            changes.removed@.len() == 0,
            changes.upserted == upserted,
    {
        DirectoryChanges { removed: Vec::new(), upserted }
    }

    pub fn reversed(self) -> (changes: DirectoryChanges)
        ensures
            changes == self.flipped(),
    {
        DirectoryChanges { removed: self.upserted, upserted: self.removed }
    }
}

/// Taking back what was taken back is what was done first.
pub proof fn lemma_flipping_twice(changes: DirectoryChanges)
    ensures
        changes.flipped().flipped() == changes,
{
}

/// Progress a worker publishes and a window polls.
#[derive(Debug)]
pub struct TransferProgress {
    preparing: bool,
    total_items: u64,
    completed_items: u64,
    total_bytes: u64,
    completed_bytes: u64,
    current_path: Option<PathBuf>,
}

#[derive(Debug)]
pub struct TransferProgressSnapshot {
    pub preparing: bool,
    pub total_items: u64,
    pub completed_items: u64,
    pub total_bytes: u64,
    pub completed_bytes: u64,
    pub current_path: Option<PathBuf>,
}

/// A 64-bit counter after `added` more: it starts over when it is full.
pub open spec fn counted(before: u64, added: u64) -> u64 {
    if before + added > u64::MAX {
        (before + added - 0x1_0000_0000_0000_0000) as u64
    } else {
        (before + added) as u64
    }
}

impl View for TransferProgress {
    type V = TransferProgressSnapshot;

    closed spec fn view(&self) -> TransferProgressSnapshot {
        TransferProgressSnapshot {
            preparing: self.preparing,
            total_items: self.total_items,
            completed_items: self.completed_items,
            total_bytes: self.total_bytes,
            completed_bytes: self.completed_bytes,
            current_path: self.current_path,
        }
    }
}

impl Default for TransferProgress {
    fn default() -> (progress: TransferProgress)
        ensures
            progress@ == (TransferProgressSnapshot {
                preparing: false,
                total_items: 0,
                completed_items: 0,
                total_bytes: 0,
                completed_bytes: 0,
                current_path: None,
            }),
    {
        TransferProgress {
            preparing: false,
            total_items: 0,
            completed_items: 0,
            total_bytes: 0,
            completed_bytes: 0,
            current_path: None,
        }
    }
}

impl TransferProgress {
    pub fn snapshot(&self) -> (snapshot: TransferProgressSnapshot)
        ensures
            snapshot == self@,
    {
        TransferProgressSnapshot {
            preparing: self.preparing,
            total_items: self.total_items,
            completed_items: self.completed_items,
            total_bytes: self.total_bytes,
            completed_bytes: self.completed_bytes,
            current_path: match &self.current_path {
                Some(path) => Some(path.clone()),
                None => None,
            },
        }
    }

    pub fn set_preparing(&mut self, preparing: bool)
        ensures
            final(self)@ == (TransferProgressSnapshot { preparing, ..old(self)@ }),
    {
        self.preparing = preparing;
    }

    pub fn add_total(&mut self, items: u64, bytes: u64)
        ensures
            final(self)@ == (TransferProgressSnapshot {
                total_items: counted(old(self)@.total_items, items),
                total_bytes: counted(old(self)@.total_bytes, bytes),
                ..old(self)@
            }),
    {
        self.total_items = self.total_items.wrapping_add(items);
        self.total_bytes = self.total_bytes.wrapping_add(bytes);
    }

    pub fn set_current_path(&mut self, path: Option<PathBuf>)
        ensures
            final(self)@ == (TransferProgressSnapshot { current_path: path, ..old(self)@ }),
    {
        self.current_path = path;
    }

    pub fn complete_item(&mut self)
        ensures
            final(self)@ == (TransferProgressSnapshot {
                completed_items: counted(old(self)@.completed_items, 1),
                ..old(self)@
            }),
    {
        self.completed_items = self.completed_items.wrapping_add(1);
    }

    pub fn complete_bytes(&mut self, bytes: u64)
        ensures
            final(self)@ == (TransferProgressSnapshot {
                completed_bytes: counted(old(self)@.completed_bytes, bytes),
                ..old(self)@
            }),
    {
        self.completed_bytes = self.completed_bytes.wrapping_add(bytes);
    }
}

} // verus!
