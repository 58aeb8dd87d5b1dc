//! Applying a journal record backwards or forwards.
//!
//! Every step validates the recorded identities before its first commit, so a
//! refusal here provably left the disk alone and the record can be retried.
//! Anything past the first commit reports what changed and discards the
//! record; see [`MutationOutcome`].

use vstd::prelude::*;

use crate::fsops::copy::{adopted, all_still_there, published_at};
use crate::fsops::delete::DeleteOutcome;
use crate::fsops::identity::{
    about, message_about, refusal, FileIdentity, Metadata, SnapshotKind,
};
use crate::fsops::journal::{
    copy_moves, copy_replaced, copy_snapshots, copy_trash_records, destinations_of, moves_alike,
    move_destinations, move_sources, nowhere, sources_of, CommittedOperation, MoveRecord,
    MutationOutcome, OperationRecord, PathSnapshot, ReplacedItem,
};
use crate::fsops::carry::CarryAcross;
use crate::fsops::local::{
    at, diagnose_rename, ensure_unoccupied, located, occupied, rename_diagnosis, Lookup,
    RenameError, RenameErrorKind,
};
use crate::fsops::merge::{remove_merged_items, MergeRemoval};
use crate::fsops::moving::{MoveConfirm, MoveFailure};
use crate::fsops::mutations::{
    mode_reversal, rename_reversal, DirectoryToCreate, FileToCreate, ModeChange, ReverseRename,
};
use crate::fsops::quarantine::{restore_replaced_items, Restoring};
use crate::fsops::snapshots::{
    change_reported, outermost, rebase_snapshots, refresh_snapshot_identities, removable,
    remove_snapshotted_tree, special_refusal, top_level_paths, unchanged_since,
    reject_special_entries, validate_snapshot_tree, PartialRemoval, Walked,
};
use crate::fsops::transfer::{completed_from, completed_to, TransferMode, TransferOutcome};
use crate::fsops::tree::{
    lemma_alike_moves_are_taken_back_alike, lemma_without_nothing, put_back, renamed, taken_back,
    undone, unpublished, with_mode, without_trees, Objects,
};
use crate::fsops::trash::{RestoredRecords, TrashMutationFailure, TrashRecord};
use crate::fsops::DirectoryChanges;
use crate::path::PathBuf;

verus! {

/// Whether changes are those that undoing an operation makes.
pub open spec fn reverses(changes: DirectoryChanges, operation: OperationRecord) -> bool {
    changes.removed@ == operation.brings() && changes.upserted@ == operation.takes_away()
}

/// Whether changes are those that an operation makes.
pub open spec fn repeats(changes: DirectoryChanges, operation: OperationRecord) -> bool {
    changes.removed@ == operation.takes_away() && changes.upserted@ == operation.brings()
}

/// What an operation published.
pub open spec fn created_by(operation: OperationRecord) -> Seq<PathSnapshot> {
    match operation {
        OperationRecord::Copy { created, .. } => created@,
        OperationRecord::ArchiveCreate { created, .. } => created@,
        OperationRecord::ArchiveExtract { created, .. } => created@,
        _ => Seq::empty(),
    }
}

/// What an operation folded into a tree that was already there.
pub open spec fn merged_by(operation: OperationRecord) -> Seq<PathSnapshot> {
    match operation {
        OperationRecord::Copy { merged, .. } => merged@,
        OperationRecord::ArchiveExtract { merged, .. } => merged@,
        _ => Seq::empty(),
    }
}

/// Whether an operation published something.
pub open spec fn publishes(operation: OperationRecord) -> bool {
    operation is Copy || operation is ArchiveCreate || operation is ArchiveExtract
}

/// What undoing an operation wants first.
#[derive(Debug)]
pub enum UndoStep {
    /// Look at a created directory.
    CheckDirectory(UndoEntry),
    /// Look at a created file.
    CheckFile(UndoEntry),
    /// Walk the output, before what was merged is taken back.
    ValidateCreated(ValidateCreated),
    /// Walk the output.
    RemoveCreated(RemoveCreated),
    /// Walk what was moved, and look at where it came from.
    ValidateMoves(ValidateMoves),
    /// Put items of the Trash back.
    RestoreTrash(TrashChange),
    /// Put items into the Trash again.
    Retrash(TrashChange),
    /// Look at what was renamed.
    Rename(ReverseRename),
    /// Pin the object whose mode was changed.
    Mode(ModeChange),
}

/// A created entry that is to be removed again.
#[derive(Debug)]
pub struct UndoEntry {
    pub operation: OperationRecord,
    pub path: PathBuf,
    pub identity: FileIdentity,
    pub changes: DirectoryChanges,
}

/// A created entry that may be removed.
#[derive(Debug)]
pub struct RemoveEntry {
    pub operation: OperationRecord,
    pub path: PathBuf,
    pub changes: DirectoryChanges,
}

/// Output that is validated before anything is removed.
#[derive(Debug)]
pub struct ValidateCreated {
    pub operation: OperationRecord,
    pub created: Vec<PathSnapshot>,
    pub merged: Vec<PathSnapshot>,
}

/// A merge that is to be taken back.
#[derive(Debug)]
pub struct RemoveMerged {
    pub operation: OperationRecord,
    pub created: Vec<PathSnapshot>,
    /// Where the merge added something.
    pub paths: Vec<PathBuf>,
}

/// Output that is to be removed.
#[derive(Debug)]
pub struct RemoveCreated {
    pub operation: OperationRecord,
    pub created: Vec<PathSnapshot>,
    /// What was taken back of a merge before.
    pub removed: Vec<PathBuf>,
}

/// Validated output, whose roots are to be deleted.
#[derive(Debug)]
pub struct DeleteRoots {
    pub operation: OperationRecord,
    pub roots: Vec<PathBuf>,
    /// What was taken back of a merge before.
    pub removed: Vec<PathBuf>,
}

/// Output that is gone; what it displaced is to come back.
#[derive(Debug)]
pub struct RestoreDisplaced {
    pub operation: OperationRecord,
}

/// Moves that are to be validated.
#[derive(Debug)]
pub struct ValidateMoves {
    pub transfers: Vec<MoveRecord>,
    pub replaced: Vec<ReplacedItem>,
    pub changes: DirectoryChanges,
}

/// Moves being taken back, the last one first.
#[derive(Debug)]
pub struct UndoMoves {
    /// What is left to move back, the next one last.
    pub left: Vec<MoveRecord>,
    pub undone: Vec<MoveRecord>,
    pub undoable: bool,
    pub replaced: Vec<ReplacedItem>,
    pub changes: DirectoryChanges,
}

/// What taking moves back wants next.
#[derive(Debug)]
pub enum UndoMovesStep {
    /// Rename one entry back.
    Rename(MoveBack),
    /// Everything is back: put back what it displaced.
    Restore(Restoring, MovesRestored),
}

/// An entry that is to be moved back.
#[derive(Debug)]
pub struct MoveBack {
    pub moves: UndoMoves,
    pub transfer: MoveRecord,
}

/// What came of moving an entry back.
#[derive(Debug)]
pub enum MoveBackStep {
    /// It is back, and is to be identified again.
    Confirm(MoveBackConfirm),
    /// It is on another filesystem: carry it back.
    Carry(CarryAcross, MoveBackCarry),
    /// It is not, and nothing more is to be done.
    Stopped(MutationOutcome),
    /// It is not, and what moved before is to return.
    Rollback(RollbackMoves),
}

/// An entry that is being carried back from another filesystem.
#[derive(Debug)]
pub struct MoveBackCarry {
    pub moves: UndoMoves,
    pub transfer: MoveRecord,
}

/// An entry that is back, and whose parts are to be identified again.
#[derive(Debug)]
pub struct MoveBackConfirm {
    pub moves: UndoMoves,
    pub source: PathBuf,
    pub destination: PathBuf,
    pub expected_state: Vec<PathSnapshot>,
}

/// Moves that were taken back and are to be made again, the last one first.
#[derive(Debug)]
pub struct RollbackMoves {
    pub undone: Vec<MoveRecord>,
    /// How many of them are left.
    pub left: usize,
    pub message: String,
}

/// What making moves again wants next.
#[derive(Debug)]
pub enum RollbackMovesStep {
    /// Rename the source to the destination again.
    Rename(RollbackMove),
    Done(MutationOutcome),
}

/// A move that is to be made again.
#[derive(Debug)]
pub struct RollbackMove {
    pub rollback: RollbackMoves,
    pub source: PathBuf,
    pub destination: PathBuf,
}

/// What came of making a move again.
#[derive(Debug)]
pub enum RollbackMoveStep {
    Next(RollbackMoves),
    /// The destination is on another filesystem: carry the entry there.
    Carry(CarryAcross, RollbackMove),
    Failed(MutationOutcome),
}

/// Moves that were taken back; what they displaced is to come back.
#[derive(Debug)]
pub struct MovesRestored {
    pub transfers: Vec<MoveRecord>,
    pub undoable: bool,
    pub replaced_nothing: bool,
    pub changes: DirectoryChanges,
}

/// Which operation of the Trash a record is about.
#[derive(Clone, Copy, Debug, PartialEq, Eq, Structural)]
pub enum TrashDirection {
    Trash,
    Restore,
}

/// Items on their way into the Trash or out of it.
#[derive(Debug)]
pub struct TrashChange {
    pub records: Vec<TrashRecord>,
    pub direction: TrashDirection,
    pub path: PathBuf,
    pub changes: DirectoryChanges,
}

impl UndoStep {
    /// What the disk is once everything the step leads to has been done.
    pub open spec fn leads_to(self, disk: Objects) -> Objects {
        match self {
            UndoStep::CheckDirectory(entry) => disk.remove(entry.path@),
            UndoStep::CheckFile(entry) => disk.remove(entry.path@),
            UndoStep::ValidateCreated(undo) => unpublished(
                disk,
                undo.merged@,
                undo.created@,
                undo.operation.held_aside(),
            ),
            UndoStep::RemoveCreated(undo) => unpublished(
                disk,
                Seq::empty(),
                undo.created@,
                undo.operation.held_aside(),
            ),
            UndoStep::ValidateMoves(undo) => put_back(
                taken_back(disk, undo.transfers@),
                undo.replaced@,
            ),
            UndoStep::Rename(rename) => renamed(disk, rename.destination@, rename.source@),
            UndoStep::Mode(change) => with_mode(disk, change.path@, change.to),
            UndoStep::RestoreTrash(_) | UndoStep::Retrash(_) => disk,
        }
    }
}

impl UndoMoves {
    /// What the disk is once every move that is left was taken back and what
    /// was displaced is back.
    pub open spec fn leads_to(self, disk: Objects) -> Objects {
        put_back(taken_back(disk, self.left@), self.replaced@)
    }

    /// Where each of the moves leads from and to, in the order they were made.
    pub open spec fn ends(self) -> Seq<(PathBuf, PathBuf)> {
        move_ends(self.left@) + move_ends(self.undone@).reverse()
    }
}

/// Where moves lead from and to.
pub open spec fn move_ends(transfers: Seq<MoveRecord>) -> Seq<(PathBuf, PathBuf)> {
    transfers.map_values(|transfer: MoveRecord| (transfer.source, transfer.destination))
}

/// Whether a step is what undoing an operation wants first.
pub open spec fn starts_undo(operation: OperationRecord, step: UndoStep) -> bool {
    match operation {
        OperationRecord::CreateDirectory { path, identity } => step matches
            UndoStep::CheckDirectory(undo) && undo.path == path && undo.identity == identity
            && undo.operation.alike(operation) && reverses(undo.changes, operation),
        OperationRecord::CreateFile { path, identity } => step matches UndoStep::CheckFile(undo)
            && undo.path == path && undo.identity == identity && undo.operation.alike(
            operation,
        ) && reverses(undo.changes, operation),
        OperationRecord::Move { transfers, replaced } => step matches UndoStep::ValidateMoves(
            undo,
        ) && moves_alike(undo.transfers@, transfers@) && undo.replaced@ == replaced@
            && reverses(undo.changes, operation),
        OperationRecord::Trash { records } => step matches UndoStep::RestoreTrash(change)
            && change.records@ == records@ && change.direction is Trash && change.path@
            == operation.result_path() && reverses(change.changes, operation),
        OperationRecord::Restore { records } => step matches UndoStep::Retrash(change)
            && change.records@ == records@ && change.direction is Restore && change.path@
            == operation.result_path() && reverses(change.changes, operation),
        OperationRecord::Rename { .. } => step == UndoStep::Rename(
            rename_reversal(operation).unwrap(),
        ),
        OperationRecord::SetMode { .. } => step == UndoStep::Mode(
            mode_reversal(operation).unwrap(),
        ),
        _ => if merged_by(operation).len() > 0 {
            step matches UndoStep::ValidateCreated(undo) && undo.operation.alike(operation)
                && undo.created@ == created_by(operation) && undo.merged@ == merged_by(
                operation,
            )
        } else {
            step matches UndoStep::RemoveCreated(undo) && undo.operation.alike(operation)
                && undo.created@ == created_by(operation) && undo.removed@.len() == 0
        },
    }
}

/// Starts undoing an operation.
pub fn undo_operation(operation: &OperationRecord) -> (step: UndoStep)
    ensures
        forall|disk: Objects| #[trigger] step.leads_to(disk) == undone(disk, *operation),
        starts_undo(*operation, step),
{
    let step = first_undo_step(operation);
    proof {
        assert forall|disk: Objects| #[trigger] step.leads_to(disk) == undone(
            disk,
            *operation,
        ) by {
            lemma_without_nothing(disk);
            match (step, *operation) {
                (
                    UndoStep::ValidateMoves(undo),
                    OperationRecord::Move { transfers, .. },
                ) => lemma_alike_moves_are_taken_back_alike(
                    disk,
                    undo.transfers@,
                    transfers@,
                ),
                _ => {
                    if merged_by(*operation).len() == 0 {
                        assert(merged_by(*operation) =~= Seq::empty());
                    }
                },
            }
        }
    }
    step
}

fn first_undo_step(operation: &OperationRecord) -> (step: UndoStep)
    ensures
        starts_undo(*operation, step),
{
    match operation {
        OperationRecord::CreateDirectory { path, identity } => UndoStep::CheckDirectory(
            UndoEntry {
                operation: operation.clone(),
                path: path.clone(),
                identity: *identity,
                changes: operation.reverse_directory_changes(),
            },
        ),
        OperationRecord::CreateFile { path, identity } => UndoStep::CheckFile(
            UndoEntry {
                operation: operation.clone(),
                path: path.clone(),
                identity: *identity,
                changes: operation.reverse_directory_changes(),
            },
        ),
        OperationRecord::Move { transfers, replaced } => UndoStep::ValidateMoves(
            ValidateMoves {
                transfers: copy_moves(transfers),
                replaced: copy_replaced(replaced),
                changes: operation.reverse_directory_changes(),
            },
        ),
        OperationRecord::Trash { records } => UndoStep::RestoreTrash(
            TrashChange {
                records: copy_trash_records(records),
                direction: TrashDirection::Trash,
                path: operation.path(),
                changes: operation.reverse_directory_changes(),
            },
        ),
        OperationRecord::Restore { records } => UndoStep::Retrash(
            TrashChange {
                records: copy_trash_records(records),
                direction: TrashDirection::Restore,
                path: operation.path(),
                changes: operation.reverse_directory_changes(),
            },
        ),
        OperationRecord::Rename { source, destination, identity } => UndoStep::Rename(
            ReverseRename {
                source: source.clone(),
                destination: destination.clone(),
                identity: *identity,
            },
        ),
        OperationRecord::SetMode { path, identity, previous, mode } => UndoStep::Mode(
            ModeChange { path: path.clone(), expected: *identity, from: *mode, to: *previous },
        ),
        OperationRecord::Copy { created, merged, .. } => undo_created(operation, created, merged),
        OperationRecord::ArchiveExtract { created, merged, .. } => undo_created(
            operation,
            created,
            merged,
        ),
        OperationRecord::ArchiveCreate { created, .. } => {
            let merged: Vec<PathSnapshot> = Vec::new();
            assert(merged@ =~= Seq::empty());
            undo_created(operation, created, &merged)
        },
    }
}

/// Starts taking back what was published. The removals of a merge commit one
/// at a time, so when a merge contributed, the output is validated first: a
/// stale record must refuse while the disk is still intact, not after the
/// merge's additions are already gone.
fn undo_created(
    operation: &OperationRecord,
    created: &Vec<PathSnapshot>,
    merged: &Vec<PathSnapshot>,
) -> (step: UndoStep)
    ensures
        if merged@.len() > 0 {
            step matches UndoStep::ValidateCreated(undo) && undo.operation.alike(*operation)
                && undo.created@ == created@ && undo.merged@ == merged@
        } else {
            step matches UndoStep::RemoveCreated(undo) && undo.operation.alike(*operation)
                && undo.created@ == created@ && undo.removed@.len() == 0
        },
{
    if merged.len() > 0 {
        UndoStep::ValidateCreated(
            ValidateCreated {
                operation: operation.clone(),
                created: copy_snapshots(created),
                merged: copy_snapshots(merged),
            },
        )
    } else {
        UndoStep::RemoveCreated(
            RemoveCreated {
                operation: operation.clone(),
                created: copy_snapshots(created),
                removed: Vec::new(),
            },
        )
    }
}

/// Why a created entry is not removed, if it is not.
pub open spec fn entry_refusal(
    undo: UndoEntry,
    directory: bool,
    found: Option<Metadata>,
    empty: Option<bool>,
    again: Option<Metadata>,
) -> Option<Seq<char>> {
    match found {
        None => Some(about("Cannot undo: "@, undo.path.text(), " no longer exists"@)),
        Some(metadata) => if directory && !(metadata.kind is Directory) {
            Some(about("Cannot undo: "@, undo.path.text(), " is no longer a directory"@))
        } else if !directory && !(metadata.kind is File) {
            Some(about("Cannot undo: "@, undo.path.text(), " is no longer a regular file"@))
        } else if empty is None {
            Some(located("Cannot inspect"@, undo.path.text()))
        } else if empty == Some(false) {
            Some(about("Cannot undo: "@, undo.path.text(), " is no longer empty"@))
        } else if !(again matches Some(second) && second.identity() == undo.identity) {
            Some(refusal(undo.path.text(), "undo"@, again is Some))
        } else {
            None
        },
    }
}

impl UndoEntry {
    /// What is at the path, whether it holds nothing, and what is there when it
    /// is looked at again.
    ///
    /// Every check runs before the single commit, so a refusal here provably
    /// left the entry in place.
    fn checked(
        self,
        directory: bool,
        found: Option<Metadata>,
        empty: Option<bool>,
        again: Option<Metadata>,
    ) -> (result: Result<RemoveEntry, MutationOutcome>)
        ensures
            match entry_refusal(self, directory, found, empty, again) {
                None => result == Ok::<RemoveEntry, MutationOutcome>(
                    RemoveEntry {
                        operation: self.operation,
                        path: self.path,
                        changes: self.changes,
                    },
                ),
                Some(why) => result matches Err(MutationOutcome::Unchanged(message)) && message@
                    == why,
            },
    {
        let metadata = match found {
            Some(metadata) => metadata,
            None => {
                return Err(
                    MutationOutcome::unchanged(
                        message_about("Cannot undo: ", &self.path, " no longer exists"),
                    ),
                );
            },
        };
        if directory && metadata.kind != SnapshotKind::Directory {
            return Err(
                MutationOutcome::unchanged(
                    message_about("Cannot undo: ", &self.path, " is no longer a directory"),
                ),
            );
        }
        if !directory && metadata.kind != SnapshotKind::File {
            return Err(
                MutationOutcome::unchanged(
                    message_about("Cannot undo: ", &self.path, " is no longer a regular file"),
                ),
            );
        }
        match empty {
            None => {
                return Err(MutationOutcome::unchanged(at("Cannot inspect", &self.path)));
            },
            Some(empty) => {
                if !empty {
                    return Err(
                        MutationOutcome::unchanged(
                            message_about("Cannot undo: ", &self.path, " is no longer empty"),
                        ),
                    );
                }
            },
        }
        match self.identity.validate(&self.path, "undo", again) {
            Ok(_) => Ok(
                RemoveEntry {
                    operation: self.operation,
                    path: self.path,
                    changes: self.changes,
                },
            ),
            Err(message) => Err(MutationOutcome::unchanged(message)),
        }
    }

    /// What comes of what is at the path of a created directory.
    pub open spec fn directory_passes(
        self,
        found: Option<Metadata>,
        empty: Option<bool>,
        again: Option<Metadata>,
        result: Result<RemoveEntry, MutationOutcome>,
    ) -> bool {
        match entry_refusal(self, true, found, empty, again) {
            None => result == Ok::<RemoveEntry, MutationOutcome>(
                RemoveEntry {
                    operation: self.operation,
                    path: self.path,
                    changes: self.changes,
                },
            ),
            Some(why) => result matches Err(MutationOutcome::Unchanged(message)) && message@
                == why,
        }
    }

    /// What is at the path of a created directory, whether it is empty where
    /// that could be read, and what is there when it is looked at again.
    pub fn directory_checked(
        self,
        found: Option<Metadata>,
        empty: Option<bool>,
        again: Option<Metadata>,
    ) -> (result: Result<RemoveEntry, MutationOutcome>)
        ensures
            self.directory_passes(found, empty, again, result),
    {
        self.checked(true, found, empty, again)
    }

    /// What comes of what is at the path of a created file.
    pub open spec fn file_passes(
        self,
        found: Option<Metadata>,
        again: Option<Metadata>,
        result: Result<RemoveEntry, MutationOutcome>,
    ) -> bool {
        match entry_refusal(
            self,
            false,
            found,
            match found {
                Some(metadata) => Some(metadata.len == 0),
                None => None,
            },
            again,
        ) {
            None => result == Ok::<RemoveEntry, MutationOutcome>(
                RemoveEntry {
                    operation: self.operation,
                    path: self.path,
                    changes: self.changes,
                },
            ),
            Some(why) => result matches Err(MutationOutcome::Unchanged(message)) && message@
                == why,
        }
    }

    /// What is at the path of a created file, and what is there when it is
    /// looked at again. Once the user has written into the file it is theirs.
    pub fn file_checked(self, found: Option<Metadata>, again: Option<Metadata>) -> (result: Result<
        RemoveEntry,
        MutationOutcome,
    >)
        ensures
            self.file_passes(found, again, result),
    {
        let empty = match found {
            Some(metadata) => Some(metadata.len == 0),
            None => None,
        };
        self.checked(false, found, empty, again)
    }
}

impl RemoveEntry {
    /// What comes of whether the entry was removed.
    pub open spec fn settles(self, gone: bool, outcome: MutationOutcome) -> bool {
        if gone {
            outcome == MutationOutcome::Committed(
                CommittedOperation {
                    path: self.path,
                    changes: self.changes,
                    record: Some(self.operation),
                },
            )
        } else {
            outcome matches MutationOutcome::Unchanged(message) && message@ == located(
                "Could not remove"@,
                self.path.text(),
            )
        }
    }

    /// Whether the entry was removed.
    pub fn removed(self, gone: bool) -> (outcome: MutationOutcome)
        ensures
            self.settles(gone, outcome),
    {
        if gone {
            MutationOutcome::Committed(
                CommittedOperation::new(self.path, self.changes, Some(self.operation)),
            )
        } else {
            MutationOutcome::unchanged(at("Could not remove", &self.path))
        }
    }
}

fn paths_of(snapshots: &Vec<PathSnapshot>) -> (paths: Vec<PathBuf>)
    ensures
        paths@ == snapshots@.map_values(|snapshot: PathSnapshot| snapshot.path),
{
    let mut paths: Vec<PathBuf> = Vec::new();
    let ghost all = snapshots@.map_values(|snapshot: PathSnapshot| snapshot.path);
    let mut i: usize = 0;
    while i < snapshots.len()
        invariant
            i <= snapshots@.len(),
            all == snapshots@.map_values(|snapshot: PathSnapshot| snapshot.path),
            paths@ == all.take(i as int),
        decreases snapshots.len() - i,
    {
        paths.push(snapshots[i].path.clone());
        assert(all.take(i + 1) =~= all.take(i as int).push(snapshots@[i as int].path));
        i += 1;
    }
    assert(all.take(i as int) =~= all);
    paths
}

impl ValidateCreated {
    /// What comes of walking the output.
    pub open spec fn passes(
        self,
        walked: Walked,
        result: Result<(MergeRemoval, RemoveMerged), MutationOutcome>,
    ) -> bool {
        match result {
            Ok((removal, rest)) => removable(self.created@, walked) && removal.left
                == self.merged && removal.removed@.len() == 0 && rest.operation
                == self.operation && rest.created == self.created && rest.paths@
                == self.merged@.map_values(|snapshot: PathSnapshot| snapshot.path),
            Err(outcome) => !removable(self.created@, walked) && (outcome matches
                MutationOutcome::Unchanged(message) && (if unchanged_since(
                self.created@,
                walked,
            ) {
                special_refusal(self.created@) == Some(message@)
            } else {
                change_reported(self.created@, walked, message@)
            })),
        }
    }

    /// What walking the output gave.
    ///
    /// What was folded into an existing tree is taken back first, while the
    /// copy's own output is still whole and nothing has been removed.
    pub fn walked(self, walked: &Walked) -> (result: Result<
        (MergeRemoval, RemoveMerged),
        MutationOutcome,
    >)
        ensures
            self.passes(*walked, result),
    {
        match validate_snapshot_tree(&self.created, walked) {
            Ok(_) => {},
            Err(error) => {
                return Err(MutationOutcome::unchanged(error));
            },
        }
        match reject_special_entries(self.created.as_slice()) {
            Ok(_) => {},
            Err(error) => {
                return Err(MutationOutcome::unchanged(error));
            },
        }
        let paths = paths_of(&self.merged);
        let ValidateCreated { operation, created, merged } = self;
        Ok((remove_merged_items(merged), RemoveMerged { operation, created, paths }))
    }
}

/// What is reported of a removal that stopped: nothing happened, or the record
/// no longer describes the disk. `touched` says whether something left its
/// path, even if it came back.
pub open spec fn stopped_after(
    outcome: MutationOutcome,
    touched: bool,
    removed: Seq<PathBuf>,
    error: Seq<char>,
) -> bool {
    if !touched && removed.len() == 0 {
        outcome matches MutationOutcome::Unchanged(message) && message@ == error
    } else {
        outcome matches MutationOutcome::Discarded { changes, error: message }
            && changes.removed@ == removed && changes.upserted@.len() == 0 && message@ == error
    }
}

fn stopped(touched: bool, removed: Vec<PathBuf>, error: String) -> (outcome: MutationOutcome)
    ensures
        stopped_after(outcome, touched, removed@, error@),
{
    if !touched && removed.len() == 0 {
        MutationOutcome::unchanged(error)
    } else {
        MutationOutcome::discarded(DirectoryChanges::removed(removed), error)
    }
}

impl RemoveMerged {
    /// What comes of taking back what was merged.
    pub open spec fn settles(
        self,
        result: Result<(), PartialRemoval>,
        next: Result<RemoveCreated, MutationOutcome>,
    ) -> bool {
        match (result, next) {
            (Ok(_), Ok(rest)) => rest == (RemoveCreated {
                operation: self.operation,
                created: self.created,
                removed: self.paths,
            }),
            (Err(failure), Err(outcome)) => stopped_after(
                outcome,
                false,
                failure.removed@,
                failure.error@,
            ),
            _ => false,
        }
    }

    /// Whether what was merged is gone, or where its removal stopped. Nothing
    /// is moved aside for it: an item is removed, or it stays as it is.
    pub fn removed(self, result: Result<(), PartialRemoval>) -> (next: Result<
        RemoveCreated,
        MutationOutcome,
    >)
        ensures
            self.settles(result, next),
    {
        match result {
            Ok(_) => Ok(
                RemoveCreated {
                    operation: self.operation,
                    created: self.created,
                    removed: self.paths,
                },
            ),
            Err(failure) => Err(stopped(false, failure.removed, failure.error)),
        }
    }
}

impl RemoveCreated {
    /// What comes of walking the output.
    pub open spec fn passes(
        self,
        walked: Walked,
        next: Result<DeleteRoots, MutationOutcome>,
    ) -> bool {
        match next {
            Ok(delete) => removable(self.created@, walked) && delete.operation
                == self.operation && delete.roots@ == outermost(self.created@, self.created@)
                && delete.removed == self.removed,
            Err(outcome) => !removable(self.created@, walked) && exists|error: Seq<char>|
                {
                    &&& #[trigger] stopped_after(outcome, false, self.removed@, error)
                    &&& if unchanged_since(self.created@, walked) {
                        special_refusal(self.created@) == Some(error)
                    } else {
                        change_reported(self.created@, walked, error)
                    }
                },
        }
    }

    /// What walking the output gave.
    pub fn walked(self, walked: &Walked) -> (next: Result<DeleteRoots, MutationOutcome>)
        ensures
            self.passes(*walked, next),
    {
        match remove_snapshotted_tree(&self.created, walked) {
            Ok(roots) => Ok(
                DeleteRoots { operation: self.operation, roots, removed: self.removed },
            ),
            Err(refused) => Err(stopped(false, self.removed, refused.error)),
        }
    }
}

impl DeleteRoots {
    /// What comes of deleting the roots.
    pub open spec fn settles(
        self,
        outcome: DeleteOutcome,
        next: Result<(Restoring, RestoreDisplaced), MutationOutcome>,
    ) -> bool {
        match next {
            Ok((restoring, rest)) => outcome.failures@.len() == 0 && restoring.left@
                == self.operation.held_aside() && rest.operation == self.operation,
            Err(result) => outcome.failures@.len() > 0 && stopped_after(
                result,
                outcome.touched,
                self.removed@ + outcome.completed@,
                outcome.failures@[0].message@,
            ),
        }
    }

    /// What deleting the roots gave.
    ///
    /// The output is gone, so whatever it displaced can come back.
    pub fn deleted(self, outcome: DeleteOutcome) -> (next: Result<
        (Restoring, RestoreDisplaced),
        MutationOutcome,
    >)
        ensures
            self.settles(outcome, next),
    {
        if outcome.failures.len() > 0 {
            let error = outcome.failures[0].message.clone();
            let mut removed = self.removed;
            let mut completed = outcome.completed;
            let ghost all = removed@ + completed@;
            removed.append(&mut completed);
            assert(removed@ =~= all);
            return Err(stopped(outcome.touched, removed, error));
        }
        let nothing: Vec<ReplacedItem> = Vec::new();
        assert(nothing@ =~= Seq::empty());
        let replaced = match &self.operation {
            OperationRecord::Copy { replaced, .. } => copy_replaced(replaced),
            OperationRecord::Move { replaced, .. } => copy_replaced(replaced),
            OperationRecord::ArchiveExtract { replaced, .. } => copy_replaced(replaced),
            _ => nothing,
        };
        Ok((restore_replaced_items(replaced), RestoreDisplaced { operation: self.operation }))
    }
}

impl RestoreDisplaced {
    /// What comes of putting back what was displaced.
    pub open spec fn settles(self, result: Result<(), String>, outcome: MutationOutcome) -> bool {
        match result {
            Err(error) => outcome matches MutationOutcome::Discarded { changes, error: message }
                && reverses(changes, self.operation) && message == error,
            Ok(_) => outcome matches MutationOutcome::Committed(committed) && committed.path@
                == self.operation.result_path() && reverses(committed.changes, self.operation)
                && committed.record == (if self.operation.held_aside().len() == 0 {
                Some(self.operation)
            } else {
                None
            }),
        }
    }

    /// Whether everything displaced is back, or what was said of what is not.
    ///
    /// A failure here leaves the output removed, so it cannot be reported as
    /// though nothing happened. A replacement is undoable but not redoable:
    /// redoing would displace the restored items again, which is a decision the
    /// user has not made a second time.
    pub fn restored(self, result: Result<(), String>) -> (outcome: MutationOutcome)
        ensures
            self.settles(result, outcome),
    {
        let changes = self.operation.reverse_directory_changes();
        match result {
            Err(error) => MutationOutcome::discarded(changes, error),
            Ok(_) => {
                let path = self.operation.path();
                let held = self.operation.replaced_items().len();
                let record = if held == 0 { Some(self.operation) } else { None };
                MutationOutcome::Committed(CommittedOperation::new(path, changes, record))
            },
        }
    }
}

/// Whether a move may be taken back: what was moved is as recorded, and
/// nothing is where it came from.
pub open spec fn may_return(transfer: MoveRecord, walked: Walked, found: Lookup) -> bool {
    unchanged_since(transfer.expected_state@, walked) && occupied(
        transfer.source.text(),
        found,
    ) is None
}

/// Whether `message` says why a move may not be taken back.
pub open spec fn return_refused(
    transfer: MoveRecord,
    walked: Walked,
    found: Lookup,
    message: Seq<char>,
) -> bool {
    if unchanged_since(transfer.expected_state@, walked) {
        occupied(transfer.source.text(), found) == Some(message)
    } else {
        change_reported(transfer.expected_state@, walked, message)
    }
}

impl ValidateMoves {
    /// What comes of walking the moved trees and looking at where they came from.
    pub open spec fn passes(
        self,
        walked: Seq<Walked>,
        found: Seq<Lookup>,
        next: Result<UndoMoves, MutationOutcome>,
    ) -> bool {
        match next {
            Ok(moves) => {
                &&& forall|i: int|
                    0 <= i < self.transfers@.len() ==> may_return(
                        #[trigger] self.transfers@[i],
                        walked[i],
                        found[i],
                    )
                &&& moves.left == self.transfers
                &&& moves.undone@.len() == 0
                &&& moves.undoable
                &&& moves.replaced == self.replaced
                &&& moves.changes == self.changes
            },
            Err(outcome) => outcome matches MutationOutcome::Unchanged(message) && exists|
                i: int,
            |
                {
                    &&& 0 <= i < self.transfers@.len()
                    &&& !may_return(#[trigger] self.transfers@[i], walked[i], found[i])
                    &&& forall|j: int|
                        0 <= j < i ==> may_return(
                            #[trigger] self.transfers@[j],
                            walked[j],
                            found[j],
                        )
                    &&& return_refused(self.transfers@[i], walked[i], found[i], message@)
                },
        }
    }

    /// What walking each of the moved trees gave, and what is where each came
    /// from.
    pub fn validated(self, walked: &Vec<Walked>, found: &Vec<Lookup>) -> (next: Result<
        UndoMoves,
        MutationOutcome,
    >)
        requires
            walked@.len() == self.transfers@.len(),
            found@.len() == self.transfers@.len(),
        ensures
            self.passes(walked@, found@, next),
    {
        let mut i: usize = 0;
        while i < self.transfers.len()
            invariant
                i <= self.transfers@.len(),
                walked@.len() == self.transfers@.len(),
                found@.len() == self.transfers@.len(),
                forall|j: int|
                    0 <= j < i ==> may_return(
                        #[trigger] self.transfers@[j],
                        walked@[j],
                        found@[j],
                    ),
            decreases self.transfers.len() - i,
        {
            match validate_snapshot_tree(&self.transfers[i].expected_state, &walked[i]) {
                Ok(_) => {},
                Err(error) => {
                    assert(!may_return(
                        self.transfers@[i as int],
                        walked@[i as int],
                        found@[i as int],
                    ));
                    return Err(MutationOutcome::unchanged(error));
                },
            }
            match ensure_unoccupied(&self.transfers[i].source, &found[i]) {
                Ok(_) => {},
                Err(error) => {
                    assert(!may_return(
                        self.transfers@[i as int],
                        walked@[i as int],
                        found@[i as int],
                    ));
                    return Err(MutationOutcome::unchanged(error));
                },
            }
            i += 1;
        }
        Ok(
            UndoMoves {
                left: self.transfers,
                undone: Vec::new(),
                undoable: true,
                replaced: self.replaced,
                changes: self.changes,
            },
        )
    }
}

impl UndoMoves {
    /// What comes next while moves are taken back.
    pub open spec fn wants(self, step: UndoMovesStep) -> bool {
        match step {
            UndoMovesStep::Rename(back) => self.left@.len() > 0 && back.transfer
                == self.left@.last() && back.moves.left@ == self.left@.drop_last()
                && back.moves.undone == self.undone && back.moves.undoable == self.undoable
                && back.moves.replaced == self.replaced && back.moves.changes == self.changes
                && self.ends() == move_ends(back.moves.left@).push(
                (back.transfer.source, back.transfer.destination),
            ) + move_ends(self.undone@).reverse() && forall|disk: Objects| #[trigger]
                self.leads_to(disk) == back.moves.leads_to(
                    renamed(disk, back.transfer.destination@, back.transfer.source@),
                ),
            UndoMovesStep::Restore(restoring, rest) => self.left@.len() == 0 && restoring.left
                == self.replaced && rest.transfers@ == self.undone@.reverse() && rest.undoable
                == self.undoable && rest.replaced_nothing == (self.replaced@.len() == 0)
                && rest.changes == self.changes && move_ends(rest.transfers@) == self.ends()
                && forall|disk: Objects| #[trigger]
                self.leads_to(disk) == put_back(disk, restoring.left@),
        }
    }

    pub fn next(self) -> (step: UndoMovesStep)
        ensures
            self.wants(step),
    {
        let ghost before = self;
        proof {
            let all = before.left@;
            if all.len() > 0 {
                assert(move_ends(all) =~= move_ends(all.drop_last()).push(
                    (all.last().source, all.last().destination),
                ));
            } else {
                assert(before.ends() =~= move_ends(before.undone@.reverse()));
            }
        }
        let UndoMoves { left, undone, undoable, replaced, changes } = self;
        let mut left = left;
        match left.pop() {
            Some(transfer) => UndoMovesStep::Rename(
                MoveBack {
                    moves: UndoMoves { left, undone, undoable, replaced, changes },
                    transfer,
                },
            ),
            None => {
                let transfers = reversed(undone);
                let replaced_nothing = replaced.len() == 0;
                UndoMovesStep::Restore(
                    restore_replaced_items(replaced),
                    MovesRestored { transfers, undoable, replaced_nothing, changes },
                )
            },
        }
    }
}

fn reversed(items: Vec<MoveRecord>) -> (backwards: Vec<MoveRecord>)
    ensures
        backwards@ == items@.reverse(),
{
    let ghost all = items@;
    let mut items = items;
    let mut backwards: Vec<MoveRecord> = Vec::new();
    assert(backwards@ =~= all.skip(all.len() as int).reverse());
    while items.len() > 0
        invariant
            items@.len() <= all.len(),
            items@ == all.take(items@.len() as int),
            backwards@ == all.skip(items@.len() as int).reverse(),
        decreases items.len(),
    {
        match items.pop() {
            Some(item) => {
                backwards.push(item);
                proof {
                    assert(items@ =~= all.take(items@.len() as int));
                    assert(backwards@ =~= all.skip(items@.len() as int).reverse());
                }
            },
            None => {},
        }
    }
    assert(all.skip(0) =~= all);
    backwards
}

/// What a move that could not be taken back is reported as.
pub open spec fn move_back_failure(
    why: Seq<char>,
    source: Seq<u8>,
    destination: Seq<u8>,
) -> Seq<char> {
    about("Could not move "@, destination, about(" back to "@, source, ": "@ + why))
}

/// What comes next when an entry could not be moved back. Where nothing moved
/// before it, the record still describes the disk exactly.
pub open spec fn stays_moved(
    moves: UndoMoves,
    source: Seq<u8>,
    destination: Seq<u8>,
    why: Seq<char>,
    step: MoveBackStep,
) -> bool {
    let failure = move_back_failure(why, source, destination);
    if moves.undone@.len() == 0 {
        step matches MoveBackStep::Stopped(MutationOutcome::Unchanged(message)) && message@
            == failure
    } else {
        step matches MoveBackStep::Rollback(rollback) && rollback.undone == moves.undone
            && rollback.left == moves.undone@.len() && rollback.message@ == failure
    }
}

fn stay_moved(moves: UndoMoves, source: &PathBuf, destination: &PathBuf, why: &str) -> (step:
    MoveBackStep)
    ensures
        stays_moved(moves, source.text(), destination.text(), why@, step),
{
    let mut reason = ": ".to_owned();
    reason.append(why);
    let rest = message_about(" back to ", source, reason.as_str());
    let message = message_about("Could not move ", destination, rest.as_str());
    if moves.undone.len() == 0 {
        return MoveBackStep::Stopped(MutationOutcome::unchanged(message));
    }
    let left: usize = moves.undone.len();
    MoveBackStep::Rollback(RollbackMoves { undone: moves.undone, left, message })
}

impl MoveBack {
    /// What comes of renaming the entry back.
    pub open spec fn settles(self, renamed: Result<(), RenameError>, step: MoveBackStep) -> bool {
        match renamed {
            Ok(_) => {
                &&& step matches MoveBackStep::Confirm(confirm)
                &&& confirm.moves == self.moves
                &&& confirm.source == self.transfer.source
                &&& confirm.destination == self.transfer.destination
                &&& published_at(
                    self.transfer.expected_state@,
                    confirm.expected_state@,
                    self.transfer.destination@,
                    self.transfer.source@,
                )
            },
            Err(error) => if error.kind is CrossesDevices {
                step == MoveBackStep::Carry(
                    CarryAcross {
                        source: self.transfer.destination,
                        destination: self.transfer.source,
                        limit: usize::MAX,
                    },
                    MoveBackCarry { moves: self.moves, transfer: self.transfer },
                )
            } else {
                stays_moved(
                    self.moves,
                    self.transfer.source.text(),
                    self.transfer.destination.text(),
                    rename_diagnosis(error, self.transfer.source.text()),
                    step,
                )
            },
        }
    }

    /// Whether the entry was renamed back.
    pub fn renamed(self, renamed: Result<(), RenameError>) -> (step: MoveBackStep)
        ensures
            self.settles(renamed, step),
    {
        let MoveBack { moves, transfer } = self;
        match &renamed {
            Err(error) => {
                if error.kind == RenameErrorKind::CrossesDevices {
                    let carry = CarryAcross {
                        source: transfer.destination.clone(),
                        destination: transfer.source.clone(),
                        limit: usize::MAX,
                    };
                    return MoveBackStep::Carry(carry, MoveBackCarry { moves, transfer });
                }
            },
            Ok(_) => {},
        }
        let MoveRecord { source, destination, expected_state } = transfer;
        match renamed {
            Ok(_) => {
                let mut expected_state = expected_state;
                rebase_snapshots(&mut expected_state, &destination, &source);
                MoveBackStep::Confirm(
                    MoveBackConfirm { moves, source, destination, expected_state },
                )
            },
            Err(error) => {
                let diagnosis = diagnose_rename(&error, &source);
                stay_moved(moves, &source, &destination, diagnosis.as_str())
            },
        }
    }
}

impl MoveBackCarry {
    /// Whether `step` is what carrying the entry back comes to.
    pub open spec fn settles(
        self,
        result: Result<MoveConfirm, MoveFailure>,
        step: MoveBackStep,
    ) -> bool {
        match result {
            Ok(carried) => {
                &&& step matches MoveBackStep::Confirm(confirm)
                &&& confirm.source == self.transfer.source
                &&& confirm.destination == self.transfer.destination
                &&& match carried.expected_state {
                    Some(state) => confirm.expected_state == state && confirm.moves
                        == self.moves,
                    None => confirm.expected_state@.len() == 0 && confirm.moves == (
                    UndoMoves { undoable: false, ..self.moves }),
                }
            },
            Err(failure) => if failure.published {
                &&& step matches MoveBackStep::Stopped(
                    MutationOutcome::Discarded { changes, error },
                )
                &&& changes.removed@ == move_destinations(self.moves.undone@)
                &&& changes.upserted@ == move_sources(self.moves.undone@).push(
                    self.transfer.source,
                )
                &&& error == failure.message
            } else {
                stays_moved(
                    self.moves,
                    self.transfer.source.text(),
                    self.transfer.destination.text(),
                    failure.message@,
                    step,
                )
            },
        }
    }

    /// Whether the entry was carried back.
    ///
    /// Where the copy is back and only what it was copied from could not be
    /// removed, the disk has changed, and the record no longer describes it.
    pub fn carried(self, result: Result<MoveConfirm, MoveFailure>) -> (step: MoveBackStep)
        ensures
            self.settles(result, step),
    {
        let MoveBackCarry { moves, transfer } = self;
        let MoveRecord { source, destination, .. } = transfer;
        match result {
            Ok(carried) => match carried.expected_state {
                Some(expected_state) => MoveBackStep::Confirm(
                    MoveBackConfirm { moves, source, destination, expected_state },
                ),
                None => {
                    let mut moves = moves;
                    moves.undoable = false;
                    MoveBackStep::Confirm(
                        MoveBackConfirm { moves, source, destination, expected_state: Vec::new() },
                    )
                },
            },
            Err(failure) => {
                if failure.published {
                    let mut changes = partial_undo_changes(&moves.undone);
                    changes.upserted.push(source);
                    return MoveBackStep::Stopped(
                        MutationOutcome::discarded(changes, failure.message),
                    );
                }
                stay_moved(moves, &source, &destination, failure.message.as_str())
            },
        }
    }
}

impl MoveBackConfirm {
    /// Whether `moves` is what the undo goes on with, given what is at the
    /// paths that were moved back.
    pub open spec fn settles(
        self,
        found: Seq<Option<Metadata>>,
        moves: UndoMoves,
    ) -> bool {
        &&& moves.left == self.moves.left
        &&& moves.replaced == self.moves.replaced
        &&& moves.changes == self.moves.changes
        &&& moves.undoable == (self.moves.undoable && all_still_there(
            self.expected_state@,
            found,
        ))
        &&& moves.undone@.len() == self.moves.undone@.len() + 1
        &&& moves.undone@.drop_last() == self.moves.undone@
        &&& moves.undone@.last().source == self.source
        &&& moves.undone@.last().destination == self.destination
        &&& moves.ends() == move_ends(self.moves.left@).push((self.source, self.destination))
            + move_ends(self.moves.undone@).reverse()
        &&& adopted(self.expected_state@, moves.undone@.last().expected_state@, found)
    }

    /// What is now at each of the paths.
    pub fn found(self, found: &Vec<Option<Metadata>>) -> (moves: UndoMoves)
        ensures
            self.settles(found@, moves),
    {
        let MoveBackConfirm { moves, source, destination, expected_state } = self;
        let mut expected_state = expected_state;
        let complete = refresh_snapshot_identities(&mut expected_state, found);
        let UndoMoves { left, undone, undoable, replaced, changes } = moves;
        let ghost before = undone@;
        let mut undone = undone;
        undone.push(MoveRecord { source, destination, expected_state });
        assert(undone@.drop_last() =~= before);
        proof {
            let here = (source, destination);
            assert(move_ends(undone@) =~= move_ends(before).push(here));
            assert(move_ends(undone@).reverse() =~= seq![here] + move_ends(before).reverse());
            assert(move_ends(left@) + move_ends(undone@).reverse() =~= move_ends(left@).push(here)
                + move_ends(before).reverse());
        }
        UndoMoves { left, undone, undoable: undoable && complete, replaced, changes }
    }
}

/// The visible effect of an undo whose compensation could not put everything
/// back: the transfers that were reversed are now at their sources.
pub fn partial_undo_changes(undone: &Vec<MoveRecord>) -> (changes: DirectoryChanges)
    ensures
        changes.removed@ == move_destinations(undone@),
        changes.upserted@ == move_sources(undone@),
{
    DirectoryChanges { removed: destinations_of(undone), upserted: sources_of(undone) }
}

impl RollbackMoves {
    /// Whether `step` is what rolling back goes on with.
    pub open spec fn goes_on(self, step: RollbackMovesStep) -> bool {
        if 0 < self.left <= self.undone@.len() {
            let transfer = self.undone@[self.left - 1];
            step == RollbackMovesStep::Rename(
                RollbackMove {
                    rollback: RollbackMoves { left: (self.left - 1) as usize, ..self },
                    source: transfer.source,
                    destination: transfer.destination,
                },
            )
        } else {
            step matches RollbackMovesStep::Done(
                MutationOutcome::Discarded { changes, error },
            ) && changes.removed@.len() == 0 && changes.upserted@.len() == 0 && error@
                == self.message@ + "; earlier moves were rolled back"@
        }
    }

    /// What making moves again wants next.
    ///
    /// Whether or not compensation restores the paths, those roots have been
    /// renamed twice and their recorded times of last change are stale, so the
    /// record can never validate again.
    pub fn rollback_undone_moves(self) -> (step: RollbackMovesStep)
        ensures
            self.goes_on(step),
    {
        if self.left > 0 && self.left <= self.undone.len() {
            let source = self.undone[self.left - 1].source.clone();
            let destination = self.undone[self.left - 1].destination.clone();
            let mut rollback = self;
            rollback.left = rollback.left - 1;
            return RollbackMovesStep::Rename(RollbackMove { rollback, source, destination });
        }
        let mut message = self.message;
        message.append("; earlier moves were rolled back");
        RollbackMovesStep::Done(MutationOutcome::discarded(DirectoryChanges::default(), message))
    }
}

/// Whether an outcome says that a move could not be made again.
pub open spec fn not_rolled_back(wanted: RollbackMove, outcome: MutationOutcome) -> bool {
    outcome matches MutationOutcome::Discarded { changes, error } && changes.removed@
        == move_destinations(wanted.rollback.undone@) && changes.upserted@ == move_sources(
        wanted.rollback.undone@,
    ) && error@ == wanted.rollback.message@ + "; rollback also failed: "@ + about(
        "Could not restore "@,
        wanted.source.text(),
        about(" to "@, wanted.destination.text(), ""@),
    )
}

impl RollbackMove {
    /// Whether `step` is what moving the entry again comes to.
    pub open spec fn settles(
        self,
        renamed: Result<(), RenameErrorKind>,
        step: RollbackMoveStep,
    ) -> bool {
        match renamed {
            Ok(_) => step == RollbackMoveStep::Next(self.rollback),
            Err(RenameErrorKind::CrossesDevices) => step == RollbackMoveStep::Carry(
                CarryAcross {
                    source: self.source,
                    destination: self.destination,
                    limit: usize::MAX,
                },
                self,
            ),
            Err(_) => step matches RollbackMoveStep::Failed(outcome) && not_rolled_back(
                self,
                outcome,
            ),
        }
    }

    /// Whether the entry was moved again.
    pub fn renamed(self, renamed: Result<(), RenameErrorKind>) -> (step: RollbackMoveStep)
        ensures
            self.settles(renamed, step),
    {
        match renamed {
            Ok(_) => RollbackMoveStep::Next(self.rollback),
            Err(RenameErrorKind::CrossesDevices) => {
                let carry = CarryAcross {
                    source: self.source.clone(),
                    destination: self.destination.clone(),
                    limit: usize::MAX,
                };
                RollbackMoveStep::Carry(carry, self)
            },
            Err(_) => RollbackMoveStep::Failed(self.give_up()),
        }
    }

    /// Whether the entry was carried to where it had been moved.
    pub fn carried(self, result: Result<MoveConfirm, MoveFailure>) -> (next: Result<
        RollbackMoves,
        MutationOutcome,
    >)
        ensures
            match next {
                Ok(rollback) => result is Ok && rollback == self.rollback,
                Err(outcome) => result is Err && not_rolled_back(self, outcome),
            },
    {
        match result {
            Ok(_) => Ok(self.rollback),
            Err(_) => Err(self.give_up()),
        }
    }

    fn give_up(self) -> (outcome: MutationOutcome)
        ensures
            not_rolled_back(self, outcome),
    {
        let changes = partial_undo_changes(&self.rollback.undone);
        let mut message = self.rollback.message;
        message.append("; rollback also failed: ");
        let rest = message_about(" to ", &self.destination, "");
        let why = message_about("Could not restore ", &self.source, rest.as_str());
        message.append(why.as_str());
        MutationOutcome::discarded(changes, message)
    }
}

impl MovesRestored {
    /// What comes of putting back what was displaced.
    pub open spec fn settles(self, result: Result<(), String>, outcome: MutationOutcome) -> bool {
        match result {
            Err(why) => outcome matches MutationOutcome::Discarded { changes, error } && changes
                == self.changes && error == why,
            Ok(_) => {
                &&& outcome matches MutationOutcome::Committed(committed)
                &&& committed.path@ == (if self.transfers@.len() > 0 {
                    self.transfers@[0].source@
                } else {
                    nowhere()
                })
                &&& committed.changes == self.changes
                &&& if self.undoable && self.replaced_nothing {
                    committed.record matches Some(
                        OperationRecord::Move { transfers, replaced },
                    ) && transfers == self.transfers && replaced@.len() == 0
                } else {
                    committed.record is None
                }
            },
        }
    }

    /// Whether everything displaced is back, or what was said of what is not.
    pub fn restored(self, result: Result<(), String>) -> (outcome: MutationOutcome)
        ensures
            self.settles(result, outcome),
    {
        match result {
            Err(error) => MutationOutcome::discarded(self.changes, error),
            Ok(_) => {
                let path = if self.transfers.len() > 0 {
                    self.transfers[0].source.clone()
                } else {
                    PathBuf::new()
                };
                assert(self.transfers@.len() == 0 ==> path@ == nowhere());
                let record = if self.undoable && self.replaced_nothing {
                    Some(OperationRecord::Move { transfers: self.transfers, replaced: Vec::new() })
                } else {
                    None
                };
                MutationOutcome::Committed(CommittedOperation::new(path, self.changes, record))
            },
        }
    }
}

/// What a failed change to the Trash is reported as.
pub open spec fn trash_failed(outcome: MutationOutcome, failure: TrashMutationFailure) -> bool {
    if failure.committed {
        outcome matches MutationOutcome::Discarded { changes, error } && changes.removed@.len() == 0
            && changes.upserted@.len() == 0 && error == failure.error
    } else {
        outcome == MutationOutcome::Unchanged(failure.error)
    }
}

/// Trash placement and restoration move payloads between the Trash and the
/// user's directories, and the Trash view is reconciled from the operation
/// record rather than from `DirectoryChanges`, so there is no browser effect to
/// report here — only whether the record survives.
pub fn trash_failure(failure: TrashMutationFailure) -> (outcome: MutationOutcome)
    ensures
        trash_failed(outcome, failure),
{
    if failure.committed {
        MutationOutcome::discarded(DirectoryChanges::default(), failure.error)
    } else {
        MutationOutcome::unchanged(failure.error)
    }
}

/// Whether a record is about these items of the Trash.
pub open spec fn records_trash(
    record: OperationRecord,
    direction: TrashDirection,
    items: Vec<TrashRecord>,
) -> bool {
    match direction {
        TrashDirection::Trash => record == (OperationRecord::Trash { records: items }),
        TrashDirection::Restore => record == (OperationRecord::Restore { records: items }),
    }
}

impl TrashChange {
    fn record(direction: TrashDirection, records: Vec<TrashRecord>) -> (record: OperationRecord)
        ensures
            records_trash(record, direction, records),
    {
        match direction {
            TrashDirection::Trash => OperationRecord::Trash { records },
            TrashDirection::Restore => OperationRecord::Restore { records },
        }
    }

    /// Whether `outcome` is what taking entries out of the trash comes to.
    pub open spec fn settles_restored(
        self,
        result: Result<RestoredRecords, TrashMutationFailure>,
        outcome: MutationOutcome,
    ) -> bool {
        match result {
            Ok(restored) => outcome matches MutationOutcome::Committed(committed)
                && committed.path == self.path && committed.changes == self.changes && (
            if restored.undoable {
                committed.record matches Some(record) && records_trash(
                    record,
                    self.direction,
                    restored.records,
                )
            } else {
                committed.record is None
            }),
            Err(failure) => trash_failed(outcome, failure),
        }
    }

    /// What came of putting the items back where they lived.
    pub fn restored(self, result: Result<RestoredRecords, TrashMutationFailure>) -> (outcome:
        MutationOutcome)
        ensures
            self.settles_restored(result, outcome),
    {
        match result {
            Ok(restored) => {
                let record = if restored.undoable {
                    Some(TrashChange::record(self.direction, restored.records))
                } else {
                    None
                };
                MutationOutcome::Committed(CommittedOperation::new(self.path, self.changes, record))
            },
            Err(failure) => trash_failure(failure),
        }
    }

    /// Whether `outcome` is what putting entries into the trash comes to.
    pub open spec fn settles_retrashed(
        self,
        result: Result<Vec<TrashRecord>, TrashMutationFailure>,
        outcome: MutationOutcome,
    ) -> bool {
        match result {
            Ok(records) => outcome matches MutationOutcome::Committed(committed)
                && committed.path == self.path && committed.changes == self.changes && (
            committed.record matches Some(record) && records_trash(
                record,
                self.direction,
                records,
            )),
            Err(failure) => trash_failed(outcome, failure),
        }
    }

    /// What came of putting the items into the Trash again.
    pub fn retrashed(self, result: Result<Vec<TrashRecord>, TrashMutationFailure>) -> (outcome:
        MutationOutcome)
        ensures
            self.settles_retrashed(result, outcome),
    {
        match result {
            Ok(records) => {
                let record = TrashChange::record(self.direction, records);
                MutationOutcome::Committed(
                    CommittedOperation::new(self.path, self.changes, Some(record)),
                )
            },
            Err(failure) => trash_failure(failure),
        }
    }
}

/// What redoing an operation wants first.
#[derive(Debug)]
pub enum RedoStep {
    CreateDirectory(DirectoryToCreate),
    CreateFile(FileToCreate),
    /// Walk what was copied.
    ValidateCopy(RedoCopy),
    /// Walk what was moved.
    ValidateMoves(RedoMoves),
    /// Put items into the Trash again.
    Retrash(TrashChange),
    /// Put items of the Trash back again.
    RestoreTrash(TrashChange),
    /// Look at what was renamed.
    Rename(ReverseRename),
    /// Pin the object whose mode was changed.
    Mode(ModeChange),
    /// Walk what was compressed.
    ValidateZip(RedoZip),
    /// Look at the archive.
    ValidateExtract(RedoExtract),
}

/// A copy that is to be made again.
#[derive(Debug)]
pub struct RedoCopy {
    pub sources: Vec<PathSnapshot>,
    pub destination: PathBuf,
}

/// Moves that are to be made again.
#[derive(Debug)]
pub struct RedoMoves {
    pub transfers: Vec<MoveRecord>,
}

/// An archive that is to be created again.
#[derive(Debug)]
pub struct RedoZip {
    pub sources: Vec<PathSnapshot>,
    pub destination: PathBuf,
}

/// An archive that is to be extracted again.
#[derive(Debug)]
pub struct RedoExtract {
    pub source: Vec<PathSnapshot>,
}

/// A transfer that is to be repeated.
#[derive(Debug)]
pub struct RedoTransfer {
    pub sources: Vec<PathBuf>,
    pub destination: PathBuf,
    pub mode: TransferMode,
}

/// What came of repeating a transfer.
#[derive(Debug)]
pub enum RedoTransferStep {
    Done(MutationOutcome),
    /// Some of it failed: take back what landed.
    Undo(RedoRollback),
}

/// A repeated transfer of which a part is to be undone.
#[derive(Debug)]
pub struct RedoRollback {
    pub partial: OperationRecord,
    pub failure: String,
    pub changes: DirectoryChanges,
}

/// Whether `step` is how redoing an operation begins.
pub open spec fn starts_redo(
    operation: OperationRecord,
    step: RedoStep,
) -> bool {
    match operation {
        OperationRecord::CreateDirectory { path, .. } => step == RedoStep::CreateDirectory(
            DirectoryToCreate { path },
        ),
        OperationRecord::CreateFile { path, .. } => step == RedoStep::CreateFile(
            FileToCreate { path },
        ),
        OperationRecord::Copy { sources, destination, .. } => step matches
            RedoStep::ValidateCopy(redo) && redo.sources@ == sources@ && redo.destination
            == destination,
        OperationRecord::Move { transfers, .. } => step matches RedoStep::ValidateMoves(redo)
            && moves_alike(redo.transfers@, transfers@),
        OperationRecord::Trash { records } => step matches RedoStep::Retrash(change)
            && change.records@ == records@ && change.direction is Trash && change.path@
            == operation.result_path() && repeats(change.changes, operation),
        OperationRecord::Restore { records } => step matches RedoStep::RestoreTrash(change)
            && change.records@ == records@ && change.direction is Restore && change.path@
            == operation.result_path() && repeats(change.changes, operation),
        OperationRecord::Rename { .. } => step == RedoStep::Rename(
            rename_reversal(operation).unwrap(),
        ),
        OperationRecord::SetMode { .. } => step == RedoStep::Mode(
            mode_reversal(operation).unwrap(),
        ),
        OperationRecord::ArchiveCreate { sources, destination, .. } => step matches
            RedoStep::ValidateZip(redo) && redo.sources@ == sources@ && redo.destination
            == destination,
        OperationRecord::ArchiveExtract { source, .. } => step matches
            RedoStep::ValidateExtract(redo) && redo.source@ == source@,
    }
}

/// Starts redoing an operation.
pub fn redo_operation(operation: &OperationRecord) -> (step: RedoStep)
    ensures
        starts_redo(*operation, step),
{
    match operation {
        OperationRecord::CreateDirectory { path, .. } => RedoStep::CreateDirectory(
            DirectoryToCreate { path: path.clone() },
        ),
        OperationRecord::CreateFile { path, .. } => RedoStep::CreateFile(
            FileToCreate { path: path.clone() },
        ),
        OperationRecord::Copy { sources, destination, .. } => RedoStep::ValidateCopy(
            RedoCopy { sources: copy_snapshots(sources), destination: destination.clone() },
        ),
        OperationRecord::Move { transfers, .. } => RedoStep::ValidateMoves(
            RedoMoves { transfers: copy_moves(transfers) },
        ),
        OperationRecord::Trash { records } => RedoStep::Retrash(
            TrashChange {
                records: copy_trash_records(records),
                direction: TrashDirection::Trash,
                path: operation.path(),
                changes: operation.forward_directory_changes(),
            },
        ),
        OperationRecord::Restore { records } => RedoStep::RestoreTrash(
            TrashChange {
                records: copy_trash_records(records),
                direction: TrashDirection::Restore,
                path: operation.path(),
                changes: operation.forward_directory_changes(),
            },
        ),
        OperationRecord::Rename { source, destination, identity } => RedoStep::Rename(
            ReverseRename {
                source: source.clone(),
                destination: destination.clone(),
                identity: *identity,
            },
        ),
        OperationRecord::SetMode { path, identity, previous, mode } => RedoStep::Mode(
            ModeChange { path: path.clone(), expected: *identity, from: *mode, to: *previous },
        ),
        OperationRecord::ArchiveCreate { sources, destination, .. } => RedoStep::ValidateZip(
            RedoZip { sources: copy_snapshots(sources), destination: destination.clone() },
        ),
        OperationRecord::ArchiveExtract { source, .. } => RedoStep::ValidateExtract(
            RedoExtract { source: copy_snapshots(source) },
        ),
    }
}

/// Whether `outcome` says that a recorded tree changed, and nothing happened.
pub open spec fn changed_since(
    outcome: MutationOutcome,
    snapshots: Seq<PathSnapshot>,
    walked: Walked,
) -> bool {
    outcome matches MutationOutcome::Unchanged(message) && change_reported(
        snapshots,
        walked,
        message@,
    )
}

impl RedoCopy {
    /// What comes of walking the sources.
    pub open spec fn passes(
        self,
        walked: Walked,
        next: Result<RedoTransfer, MutationOutcome>,
    ) -> bool {
        match next {
            Ok(redo) => unchanged_since(self.sources@, walked) && redo.sources@ == outermost(
                self.sources@,
                self.sources@,
            ) && redo.destination == self.destination && redo.mode is Copy,
            Err(outcome) => !unchanged_since(self.sources@, walked) && changed_since(
                outcome,
                self.sources@,
                walked,
            ),
        }
    }

    /// What walking the sources gave.
    pub fn walked(self, walked: &Walked) -> (next: Result<RedoTransfer, MutationOutcome>)
        ensures
            self.passes(*walked, next),
    {
        match validate_snapshot_tree(&self.sources, walked) {
            Ok(_) => Ok(
                RedoTransfer {
                    sources: top_level_paths(&self.sources),
                    destination: self.destination,
                    mode: TransferMode::Copy,
                },
            ),
            Err(error) => Err(MutationOutcome::unchanged(error)),
        }
    }
}

impl RedoMoves {
    /// What comes of walking the trees.
    pub open spec fn passes(
        self,
        walked: Seq<Walked>,
        next: Result<RedoTransfer, MutationOutcome>,
    ) -> bool {
        match next {
            Ok(redo) => {
                &&& forall|i: int|
                    0 <= i < self.transfers@.len() ==> unchanged_since(
                        (#[trigger] self.transfers@[i]).expected_state@,
                        walked[i],
                    )
                &&& self.transfers@.len() > 0
                &&& self.transfers@[0].destination@.parent() == Some(redo.destination@)
                &&& redo.sources@ == move_sources(self.transfers@)
                &&& redo.mode is Move
            },
            Err(outcome) => if forall|i: int|
                0 <= i < self.transfers@.len() ==> unchanged_since(
                    (#[trigger] self.transfers@[i]).expected_state@,
                    walked[i],
                ) {
                (self.transfers@.len() == 0 || self.transfers@[0].destination@.parent() is None)
                    && (outcome matches MutationOutcome::Unchanged(message) && message@
                    == "Move record has no destination directory"@)
            } else {
                exists|i: int|
                    {
                        &&& 0 <= i < self.transfers@.len()
                        &&& !unchanged_since(
                            (#[trigger] self.transfers@[i]).expected_state@,
                            walked[i],
                        )
                        &&& forall|j: int|
                            0 <= j < i ==> unchanged_since(
                                (#[trigger] self.transfers@[j]).expected_state@,
                                walked[j],
                            )
                        &&& changed_since(
                            outcome,
                            self.transfers@[i].expected_state@,
                            walked[i],
                        )
                    }
            },
        }
    }

    /// What walking each of the trees gave.
    pub fn validated(self, walked: &Vec<Walked>) -> (next: Result<RedoTransfer, MutationOutcome>)
        requires
            walked@.len() == self.transfers@.len(),
        ensures
            self.passes(walked@, next),
    {
        let mut i: usize = 0;
        while i < self.transfers.len()
            invariant
                i <= self.transfers@.len(),
                walked@.len() == self.transfers@.len(),
                forall|j: int|
                    0 <= j < i ==> unchanged_since(
                        (#[trigger] self.transfers@[j]).expected_state@,
                        walked@[j],
                    ),
            decreases self.transfers.len() - i,
        {
            match validate_snapshot_tree(&self.transfers[i].expected_state, &walked[i]) {
                Ok(_) => {},
                Err(error) => {
                    assert(!unchanged_since(
                        self.transfers@[i as int].expected_state@,
                        walked@[i as int],
                    ));
                    return Err(MutationOutcome::unchanged(error));
                },
            }
            i += 1;
        }
        let sources = sources_of(&self.transfers);
        if self.transfers.len() > 0 {
            match self.transfers[0].destination.parent() {
                Some(destination) => {
                    return Ok(RedoTransfer { sources, destination, mode: TransferMode::Move });
                },
                None => {},
            }
        }
        Err(MutationOutcome::unchanged("Move record has no destination directory".to_owned()))
    }
}

/// What repeating a transfer comes to.
pub open spec fn repeated(
    redo: RedoTransfer,
    outcome: TransferOutcome,
    step: RedoTransferStep,
) -> bool {
    let removed = if redo.mode is Move {
        completed_from(outcome.completed@)
    } else {
        Seq::empty()
    };
    let upserted = completed_to(outcome.completed@);
    if outcome.failures@.len() == 0 {
        &&& step matches RedoTransferStep::Done(MutationOutcome::Committed(committed))
        &&& committed.path == (if outcome.completed@.len() > 0 {
            outcome.completed@[0].destination
        } else {
            redo.destination
        })
        &&& committed.changes.removed@ == removed
        &&& committed.changes.upserted@ == upserted
        &&& committed.record == outcome.operation
    } else if outcome.completed@.len() == 0 && outcome.operation is None && !outcome.touched {
        step matches RedoTransferStep::Done(MutationOutcome::Unchanged(message)) && message@
            == outcome.failure_text()
    } else {
        match outcome.operation {
            None => step matches RedoTransferStep::Done(
                MutationOutcome::Discarded { changes, error },
            ) && changes.removed@ == removed && changes.upserted@ == upserted && error@
                == outcome.failure_text() + "; completed items could not be rolled back"@,
            Some(partial) => step matches RedoTransferStep::Undo(rollback) && rollback.partial
                == partial && rollback.failure@ == outcome.failure_text()
                && rollback.changes.removed@ == removed && rollback.changes.upserted@ == upserted,
        }
    }
}

impl RedoTransfer {
    /// What repeating the transfer did.
    ///
    /// A missing operation means undo bookkeeping was lost, not that the redo
    /// failed. Whatever landed is taken back if any part of it failed. Only a
    /// transfer that left the disk as it was keeps its record.
    pub fn redo_transfer(self, outcome: TransferOutcome) -> (step: RedoTransferStep)
        ensures
            repeated(self, outcome, step),
    {
        let changes = outcome.changes(self.mode);
        if outcome.failures.len() == 0 {
            let path = if outcome.completed.len() > 0 {
                outcome.completed[0].destination.clone()
            } else {
                self.destination
            };
            return RedoTransferStep::Done(
                MutationOutcome::Committed(
                    CommittedOperation::new(path, changes, outcome.operation),
                ),
            );
        }
        let failure = outcome.summarize_failures();
        if outcome.completed.len() == 0 && outcome.operation.is_none() && !outcome.touched {
            return RedoTransferStep::Done(MutationOutcome::unchanged(failure));
        }
        match outcome.operation {
            None => {
                let mut message = failure;
                message.append("; completed items could not be rolled back");
                RedoTransferStep::Done(MutationOutcome::discarded(changes, message))
            },
            Some(partial) => RedoTransferStep::Undo(RedoRollback { partial, failure, changes }),
        }
    }
}

impl RedoRollback {
    /// Whether `result` is what is reported once the rollback came to `outcome`.
    pub open spec fn reports(self, outcome: MutationOutcome, result: MutationOutcome) -> bool {
        match outcome {
            MutationOutcome::Committed(_) => result matches MutationOutcome::Discarded {
                changes,
                error,
            } && changes.removed@.len() == 0 && changes.upserted@.len() == 0 && error@
                == self.failure@ + "; completed items were rolled back"@,
            MutationOutcome::Unchanged(why) => result matches MutationOutcome::Discarded {
                changes,
                error,
            } && changes == self.changes && error@ == self.failure@
                + "; rollback also failed: "@ + why@,
            MutationOutcome::Discarded { error: why, .. } => result matches
                MutationOutcome::Discarded { changes, error } && changes == self.changes
                && error@ == self.failure@ + "; rollback also failed: "@ + why@,
        }
    }

    /// What undoing the part that landed did.
    pub fn undone(self, outcome: MutationOutcome) -> (result: MutationOutcome)
        ensures
            self.reports(outcome, result),
    {
        let mut message = self.failure;
        let why = match outcome {
            MutationOutcome::Committed(_) => {
                message.append("; completed items were rolled back");
                return MutationOutcome::discarded(DirectoryChanges::default(), message);
            },
            MutationOutcome::Unchanged(why) => why,
            MutationOutcome::Discarded { error, .. } => error,
        };
        message.append("; rollback also failed: ");
        message.append(why.as_str());
        MutationOutcome::discarded(self.changes, message)
    }
}

/// A selection that is to be compressed again.
#[derive(Debug)]
pub struct ZipAgain {
    pub sources: Vec<PathBuf>,
    pub destination: PathBuf,
}

impl RedoZip {
    /// What comes of walking the sources.
    pub open spec fn passes(self, walked: Walked, next: Result<ZipAgain, MutationOutcome>) -> bool {
        match next {
            Ok(zip) => unchanged_since(self.sources@, walked) && zip.sources@ == outermost(
                self.sources@,
                self.sources@,
            ) && zip.destination == self.destination,
            Err(outcome) => !unchanged_since(self.sources@, walked) && changed_since(
                outcome,
                self.sources@,
                walked,
            ),
        }
    }

    /// What walking the sources gave. The archive is published atomically, so a
    /// failure leaves the destination untouched.
    pub fn walked(self, walked: &Walked) -> (next: Result<ZipAgain, MutationOutcome>)
        ensures
            self.passes(*walked, next),
    {
        match validate_snapshot_tree(&self.sources, walked) {
            Ok(_) => Ok(
                ZipAgain {
                    sources: top_level_paths(&self.sources),
                    destination: self.destination,
                },
            ),
            Err(error) => Err(MutationOutcome::unchanged(error)),
        }
    }
}

impl RedoExtract {
    /// What comes of walking the archive.
    pub open spec fn passes(self, walked: Walked, next: Result<PathBuf, MutationOutcome>) -> bool {
        match next {
            Ok(archive) => unchanged_since(self.source@, walked) && outermost(
                self.source@,
                self.source@,
            ).len() > 0 && archive == outermost(self.source@, self.source@)[0],
            Err(outcome) => if unchanged_since(self.source@, walked) {
                outermost(self.source@, self.source@).len() == 0 && (outcome matches
                    MutationOutcome::Unchanged(message) && message@
                    == "Archive operation has no source"@)
            } else {
                changed_since(outcome, self.source@, walked)
            },
        }
    }

    /// What walking the archive gave: the archive to extract again.
    pub fn walked(self, walked: &Walked) -> (next: Result<PathBuf, MutationOutcome>)
        ensures
            self.passes(*walked, next),
    {
        match validate_snapshot_tree(&self.source, walked) {
            Ok(_) => {},
            Err(error) => {
                return Err(MutationOutcome::unchanged(error));
            },
        }
        let roots = top_level_paths(&self.source);
        if roots.len() == 0 {
            return Err(MutationOutcome::unchanged("Archive operation has no source".to_owned()));
        }
        Ok(roots[0].clone())
    }
}

/// An undo whose removal stopped keeps its record exactly when nothing was
/// removed and nothing left its path on the way.
pub proof fn lemma_refused_undo_keeps_history(
    outcome: MutationOutcome,
    touched: bool,
    removed: Seq<PathBuf>,
    error: Seq<char>,
)
    requires
        stopped_after(outcome, touched, removed, error),
    ensures
        outcome is Unchanged <==> !touched && removed.len() == 0,
{
}

/// A removal that reports that nothing changed removed nothing.
pub proof fn lemma_unchanged_removal_removed_nothing(
    disk: Objects,
    outcome: MutationOutcome,
    touched: bool,
    removed: Seq<PathBuf>,
    error: Seq<char>,
)
    requires
        stopped_after(outcome, touched, removed, error),
        outcome is Unchanged,
    ensures
        !touched,
        without_trees(disk, removed) == disk,
{
    assert(without_trees(disk, removed) =~= disk);
}

/// An undo of moves that reports that nothing changed moved nothing.
pub proof fn lemma_unchanged_undo_moved_nothing(
    disk: Objects,
    moves: UndoMoves,
    source: Seq<u8>,
    destination: Seq<u8>,
    why: Seq<char>,
    step: MoveBackStep,
)
    requires
        stays_moved(moves, source, destination, why, step),
        step matches MoveBackStep::Stopped(outcome) && outcome is Unchanged,
    ensures
        moves.undone@.len() == 0,
        taken_back(disk, moves.undone@) == disk,
{
}

/// A redo of a transfer that reports that nothing changed completed nothing,
/// left nothing to take back and published nothing.
pub proof fn lemma_unchanged_redo_transferred_nothing(
    redo: RedoTransfer,
    outcome: TransferOutcome,
    step: RedoTransferStep,
)
    requires
        repeated(redo, outcome, step),
        step matches RedoTransferStep::Done(result) && result is Unchanged,
    ensures
        outcome.completed@.len() == 0,
        outcome.operation is None,
        !outcome.touched,
{
}

} // verus!
