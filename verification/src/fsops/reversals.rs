//! What is written down of an operation, and how undo and redo begin from it.

use vstd::prelude::*;

use crate::fsops::conflict::ConflictDecision;
use crate::fsops::copy::AttributeError;
use crate::fsops::delete::DeleteOutcome;
use crate::fsops::dropped::{has_no_room, Dropped};
use crate::fsops::history::{
    starts_redo, starts_undo, DeleteRoots, MoveBack, MoveBackCarry, MoveBackConfirm, MoveBackStep,
    MovesRestored, RedoRollback, RedoStep, RemoveCreated, RemoveMerged, RestoreDisplaced,
    RollbackMove, RollbackMoveStep, RollbackMoves, RollbackMovesStep, TrashChange, UndoMoves,
    UndoMovesStep, UndoStep,
};
use crate::fsops::identity::{FileIdentity, Metadata};
use crate::fsops::journal::{
    displaced, pushed, CommittedOperation, MutationOutcome, OperationRecord,
};
use crate::fsops::local::{RenameError, RenameErrorKind};
use crate::fsops::moving::{MoveConfirm, MoveFailure};
use crate::fsops::mutations::{DirectoryToCreate, FileToCreate, ModeReady, RenameReady};
use crate::fsops::quarantine::Restoring;
use crate::fsops::snapshots::PartialRemoval;
use crate::fsops::trash::{RestoredRecords, TrashMutationFailure, TrashRecord};

verus! {

/// Whether an identity is that of what was found.
pub open spec fn identifies(identity: FileIdentity, found: Metadata) -> bool {
    &&& identity.key.device == found.device
    &&& identity.key.inode == found.inode
    &&& identity.changed_seconds == found.changed_seconds
    &&& identity.changed_nanoseconds == found.changed_nanoseconds
}

/// A folder that was made is reported as made, and can be taken back only
/// where it is a folder that is there.
pub proof fn lemma_a_made_folder_is_recorded(
    wanted: DirectoryToCreate,
    created: bool,
    found: Option<Metadata>,
    result: Result<CommittedOperation, String>,
)
    requires
        wanted.comes_to(created, found, result),
    ensures
        created <==> result is Ok,
        result matches Ok(committed) ==> {
            &&& committed.path == wanted.path
            &&& committed.record is Some <==> (found matches Some(now) && now.kind is Directory)
            &&& committed.record matches Some(record) ==> (record matches
                OperationRecord::CreateDirectory { path, identity } && path == wanted.path
                && identifies(identity, found.unwrap()))
        },
{
}

/// The same of a file.
pub proof fn lemma_a_made_file_is_recorded(
    wanted: FileToCreate,
    created: bool,
    opened: Option<Metadata>,
    result: Result<CommittedOperation, String>,
)
    requires
        wanted.comes_to(created, opened, result),
    ensures
        created <==> result is Ok,
        result matches Ok(committed) ==> {
            &&& committed.path == wanted.path
            &&& committed.record is Some <==> (opened matches Some(now) && now.kind is File)
            &&& committed.record matches Some(record) ==> (record matches
                OperationRecord::CreateFile { path, identity } && path == wanted.path
                && identifies(identity, opened.unwrap()))
        },
{
}

/// A rename is recorded from where the entry was to where it is, as it is now.
pub proof fn lemma_a_rename_is_recorded(
    ready: RenameReady,
    renamed: bool,
    found: Option<Metadata>,
    result: Result<CommittedOperation, String>,
)
    requires
        ready.comes_to(renamed, found, result),
    ensures
        renamed <==> result is Ok,
        result matches Ok(committed) ==> {
            &&& committed.path == ready.to
            &&& committed.changes.removed@ == seq![ready.from]
            &&& committed.changes.upserted@ == seq![ready.to]
            &&& committed.record is Some <==> found is Some
            &&& committed.record matches Some(record) ==> (record matches OperationRecord::Rename {
                source,
                destination,
                identity,
            } && source == ready.from && destination == ready.to && identifies(
                identity,
                found.unwrap(),
            ))
        },
{
}

/// A change of mode is recorded with the mode before it and the mode after it.
pub proof fn lemma_a_mode_change_is_recorded(
    ready: ModeReady,
    done: bool,
    found: Option<Metadata>,
    result: Result<CommittedOperation, String>,
)
    requires
        ready.comes_to(done, found, result),
    ensures
        done <==> result is Ok,
        result matches Ok(committed) ==> {
            &&& committed.path == ready.path
            &&& committed.record is Some <==> found is Some
            &&& committed.record matches Some(record) ==> (record matches OperationRecord::SetMode {
                path,
                identity,
                previous,
                mode,
            } && path == ready.path && previous == ready.from && mode == ready.to && identifies(
                identity,
                found.unwrap(),
            ))
        },
{
}

/// Undo begins with what was recorded: it looks for what was made under the
/// identity it was made with, renames back what was renamed, puts back the mode
/// that was there before, and turns what went into the Trash, or came out of
/// it, around.
pub proof fn lemma_undo_begins_from_the_record(operation: OperationRecord, step: UndoStep)
    requires
        starts_undo(operation, step),
    ensures
        operation matches OperationRecord::CreateDirectory { path, identity } ==> (step matches
            UndoStep::CheckDirectory(undo) && undo.path == path && undo.identity == identity),
        operation matches OperationRecord::CreateFile { path, identity } ==> (step matches
            UndoStep::CheckFile(undo) && undo.path == path && undo.identity == identity),
        operation matches OperationRecord::Rename { source, destination, identity } ==> (
        step matches UndoStep::Rename(undo) && undo.source == source && undo.destination
            == destination && undo.identity == identity),
        operation matches OperationRecord::SetMode { path, identity, previous, mode } ==> (
        step matches UndoStep::Mode(undo) && undo.path == path && undo.expected == identity
            && undo.from == mode && undo.to == previous),
        operation matches OperationRecord::Trash { records } ==> (step matches
            UndoStep::RestoreTrash(change) && change.records@ == records@),
        operation matches OperationRecord::Restore { records } ==> (step matches UndoStep::Retrash(
            change,
        ) && change.records@ == records@),
        operation matches OperationRecord::Move { replaced, .. } ==> (step matches
            UndoStep::ValidateMoves(undo) && undo.replaced@ == replaced@),
        operation matches OperationRecord::Copy { created, merged, .. } ==> match step {
            UndoStep::ValidateCreated(undo) => merged@.len() > 0 && undo.created@ == created@
                && undo.merged@ == merged@,
            UndoStep::RemoveCreated(undo) => merged@.len() == 0 && undo.created@ == created@,
            _ => false,
        },
        operation matches OperationRecord::ArchiveCreate { created, .. } ==> (step matches
            UndoStep::RemoveCreated(undo) && undo.created@ == created@),
        operation matches OperationRecord::ArchiveExtract { created, merged, .. } ==> match step {
            UndoStep::ValidateCreated(undo) => merged@.len() > 0 && undo.created@ == created@
                && undo.merged@ == merged@,
            UndoStep::RemoveCreated(undo) => merged@.len() == 0 && undo.created@ == created@,
            _ => false,
        },
{
}

/// Redo begins with the same record and does what the operation did; what undo
/// renamed back or changed back is turned around once more.
pub proof fn lemma_redo_begins_from_the_record(operation: OperationRecord, step: RedoStep)
    requires
        starts_redo(operation, step),
    ensures
        operation matches OperationRecord::CreateDirectory { path, .. } ==> (step matches
            RedoStep::CreateDirectory(redo) && redo.path == path),
        operation matches OperationRecord::CreateFile { path, .. } ==> (step matches
            RedoStep::CreateFile(redo) && redo.path == path),
        operation matches OperationRecord::Copy { sources, destination, .. } ==> (step matches
            RedoStep::ValidateCopy(redo) && redo.sources@ == sources@ && redo.destination
            == destination),
        operation matches OperationRecord::Move { transfers, .. } ==> (step matches
            RedoStep::ValidateMoves(redo) && redo.transfers@.len() == transfers@.len()),
        operation matches OperationRecord::Trash { records } ==> (step matches RedoStep::Retrash(
            change,
        ) && change.records@ == records@),
        operation matches OperationRecord::Restore { records } ==> (step matches
            RedoStep::RestoreTrash(change) && change.records@ == records@),
        operation matches OperationRecord::Rename { source, destination, identity } ==> (
        step matches RedoStep::Rename(redo) && redo.source == source && redo.destination
            == destination && redo.identity == identity),
        operation matches OperationRecord::SetMode { path, identity, previous, mode } ==> (
        step matches RedoStep::Mode(redo) && redo.path == path && redo.expected == identity
            && redo.from == mode && redo.to == previous),
        operation matches OperationRecord::ArchiveCreate { sources, destination, .. } ==> (
        step matches RedoStep::ValidateZip(redo) && redo.sources@ == sources@ && redo.destination
            == destination),
        operation matches OperationRecord::ArchiveExtract { source, .. } ==> (step matches
            RedoStep::ValidateExtract(redo) && redo.source@ == source@),
{
}

/// What the listings of directories lose and gain by an operation.
pub proof fn lemma_operations_change_what_is_listed(operation: OperationRecord)
    ensures
        operation matches OperationRecord::CreateDirectory { path, .. } ==> operation.brings()
            == seq![path] && operation.takes_away().len() == 0,
        operation matches OperationRecord::CreateFile { path, .. } ==> operation.brings() == seq![
            path,
        ] && operation.takes_away().len() == 0,
        operation matches OperationRecord::Rename { source, destination, .. }
            ==> operation.takes_away() == seq![source] && operation.brings() == seq![destination],
        operation matches OperationRecord::SetMode { path, .. } ==> operation.brings() == seq![path]
            && operation.takes_away().len() == 0,
        operation matches OperationRecord::Move { transfers, .. } ==> operation.takes_away().len()
            == transfers@.len() && operation.brings().len() == transfers@.len() && forall|i: int|
            #![trigger transfers@[i]]
            0 <= i < transfers@.len() ==> operation.takes_away()[i] == transfers@[i].source
                && operation.brings()[i] == transfers@[i].destination,
        operation matches OperationRecord::Trash { records } ==> operation.brings().len() == 0
            && operation.takes_away().len() == records@.len() && forall|i: int|
            #![trigger records@[i]]
            0 <= i < records@.len() ==> operation.takes_away()[i] == records@[i].original,
        operation matches OperationRecord::Restore { records } ==> operation.takes_away().len() == 0
            && operation.brings().len() == records@.len() && forall|i: int|
            #![trigger records@[i]]
            0 <= i < records@.len() ==> operation.brings()[i] == records@[i].original,
        operation matches OperationRecord::ArchiveCreate { destination, .. } ==> operation.brings()
            == seq![destination] && operation.takes_away().len() == 0,
        operation matches OperationRecord::ArchiveExtract { output, .. } ==> operation.brings()
            == seq![output] && operation.takes_away().len() == 0,
        operation is Copy ==> operation.takes_away().len() == 0,
{
}

/// What was displaced is held by whatever displaced it, and by nothing else.
pub proof fn lemma_records_hold_what_they_displaced(operation: OperationRecord)
    ensures
        operation matches OperationRecord::Copy { replaced, .. } ==> operation.held_aside()
            == replaced@,
        operation matches OperationRecord::Move { replaced, .. } ==> operation.held_aside()
            == replaced@,
        operation matches OperationRecord::ArchiveExtract { replaced, .. }
            ==> operation.held_aside() == replaced@,
        !(operation is Copy || operation is Move || operation is ArchiveExtract)
            ==> operation.held_aside().len() == 0,
{
}

/// The newest operation is the one to be taken back next, and an older one
/// makes room only where there is none.
pub proof fn lemma_only_the_oldest_make_room(
    stack: Seq<OperationRecord>,
    operation: OperationRecord,
    limit: nat,
)
    requires
        0 < limit,
        stack.len() <= limit,
    ensures
        pushed(stack, operation, limit).last() == operation,
        stack.len() < limit ==> displaced(stack, operation, limit).len() == 0 && pushed(
            stack,
            operation,
            limit,
        ) == stack.push(operation),
        stack.len() == limit ==> displaced(stack, operation, limit) == seq![stack[0]] && pushed(
            stack,
            operation,
            limit,
        ) == stack.drop_first().push(operation),
{
    assert(stack.skip(0) =~= stack);
    assert(stack.take(0) =~= Seq::empty());
    if stack.len() == limit {
        assert(stack.take(1) =~= seq![stack[0]]);
        assert(stack.skip(1) =~= stack.drop_first());
    }
}

/// An answer serves for later conflicts exactly where it was meant to; giving
/// up always does, and a name never.
pub proof fn lemma_only_standing_answers_are_repeated(decision: ConflictDecision)
    ensures
        decision.response is Cancel ==> (decision.standing() matches Some(answer) && answer.says()
            is Cancel),
        decision.response is Rename ==> decision.standing() is None,
        !(decision.response is Cancel || decision.response is Rename) ==> (decision.standing()
            is Some <==> decision.for_the_rest),
        decision.standing() matches Some(answer) ==> answer.says() == decision.response,
{
}

/// What could not be kept by either part could not be kept by the whole, and
/// nothing else.
pub proof fn lemma_losses_add_up(left: Dropped, right: Dropped)
    ensures
        left.with(right).permissions <==> left.permissions || right.permissions,
        left.with(right).attributes <==> left.attributes || right.attributes,
        left.with(right).links <==> left.links || right.links,
        left.with(right).is_nothing() <==> left.is_nothing() && right.is_nothing(),
{
}

/// What a filesystem cannot keep: it says so itself, does not permit it, does
/// not know the call, or does not support it.
pub proof fn lemma_what_cannot_be_kept(error: AttributeError)
    ensures
        has_no_room(error) <==> error.unsupported || (error.code matches Some(code) && (code == 1
            || code == 38 || code == 95)),
{
}

/// Moves that were taken back are made again the last one first, each to where
/// it was, and nothing else is said to have changed once all are.
pub proof fn lemma_moves_are_made_again_in_turn(rollback: RollbackMoves, step: RollbackMovesStep)
    requires
        rollback.goes_on(step),
        rollback.left <= rollback.undone@.len(),
    ensures
        rollback.left > 0 ==> (step matches RollbackMovesStep::Rename(wanted) && wanted.source
            == rollback.undone@[rollback.left - 1].source && wanted.destination
            == rollback.undone@[rollback.left - 1].destination && wanted.rollback.left
            == rollback.left - 1 && wanted.rollback.undone == rollback.undone),
        rollback.left == 0 ==> (step matches RollbackMovesStep::Done(MutationOutcome::Discarded {
            changes,
            ..
        }) && changes.removed@.len() == 0 && changes.upserted@.len() == 0),
{
}

/// An entry that could not be made to move again ends the rollback, but for
/// one on another filesystem, which is carried there.
pub proof fn lemma_a_rollback_stops_where_it_fails(
    wanted: RollbackMove,
    renamed: Result<(), RenameErrorKind>,
    step: RollbackMoveStep,
)
    requires
        wanted.settles(renamed, step),
    ensures
        renamed is Ok <==> step is Next,
        step matches RollbackMoveStep::Next(rollback) ==> rollback == wanted.rollback,
        renamed matches Err(kind) ==> (kind is CrossesDevices <==> step is Carry),
        step matches RollbackMoveStep::Carry(carry, kept) ==> carry.source == wanted.source
            && carry.destination == wanted.destination && kept == wanted,
{
}

/// An entry that was carried back is to be identified again; one whose copy is
/// back while the other stayed ends the undo; one that is not back at all lets
/// what came back before it return.
pub proof fn lemma_carried_entries_are_taken_back(
    carry: MoveBackCarry,
    result: Result<MoveConfirm, MoveFailure>,
    step: MoveBackStep,
)
    requires
        carry.settles(result, step),
    ensures
        result is Ok <==> step is Confirm,
        step matches MoveBackStep::Confirm(confirm) ==> confirm.source == carry.transfer.source
            && confirm.destination == carry.transfer.destination,
        result matches Err(failure) ==> (failure.published ==> (step matches MoveBackStep::Stopped(
            MutationOutcome::Discarded { changes, .. },
        ) && changes.upserted@.last() == carry.transfer.source)),
        result matches Err(failure) ==> (!failure.published ==> (if carry.moves.undone@.len() == 0 {
            step matches MoveBackStep::Stopped(MutationOutcome::Unchanged(_))
        } else {
            step matches MoveBackStep::Rollback(rollback) && rollback.undone == carry.moves.undone
                && rollback.left == carry.moves.undone@.len()
        })),
{
}

/// A move that was taken back is the newest of those, and the undo stays one
/// that can itself be taken back only where everything is still there.
pub proof fn lemma_a_move_taken_back_is_kept(
    confirm: MoveBackConfirm,
    found: Seq<Option<Metadata>>,
    moves: UndoMoves,
)
    requires
        confirm.settles(found, moves),
    ensures
        moves.left == confirm.moves.left,
        moves.undone@.len() == confirm.moves.undone@.len() + 1,
        moves.undone@.last().source == confirm.source,
        moves.undone@.last().destination == confirm.destination,
        moves.undoable ==> confirm.moves.undoable,
        moves.replaced == confirm.moves.replaced,
{
}

/// What came out of the Trash can go back only as it was written down, and what
/// failed without effect changed nothing.
pub proof fn lemma_the_trash_is_turned_around(
    change: TrashChange,
    restored: Result<RestoredRecords, TrashMutationFailure>,
    outcome: MutationOutcome,
    trashed: Result<Vec<TrashRecord>, TrashMutationFailure>,
    other: MutationOutcome,
)
    requires
        change.settles_restored(restored, outcome),
        change.settles_retrashed(trashed, other),
    ensures
        restored is Ok <==> outcome is Committed,
        trashed is Ok <==> other is Committed,
        restored matches Ok(records) ==> (outcome matches MutationOutcome::Committed(committed)
            && committed.path == change.path && (committed.record is Some <==> records.undoable)),
        trashed matches Ok(records) ==> (other matches MutationOutcome::Committed(committed)
            && committed.path == change.path && committed.record is Some),
        restored matches Err(failure) ==> (!failure.committed ==> outcome is Unchanged),
        trashed matches Err(failure) ==> (!failure.committed ==> other is Unchanged),
{
}

/// A redo that failed is never reported as done, and is said to have changed
/// nothing exactly where what it did was taken back.
pub proof fn lemma_a_failed_redo_is_not_done(
    rollback: RedoRollback,
    outcome: MutationOutcome,
    result: MutationOutcome,
)
    requires
        rollback.reports(outcome, result),
    ensures
        result matches MutationOutcome::Discarded { changes, .. } && (if outcome is Committed {
            changes.removed@.len() == 0 && changes.upserted@.len() == 0
        } else {
            changes == rollback.changes
        }),
{
}

/// What an operation displaced comes back only once everything it published is
/// gone, and all of it does.
pub proof fn lemma_displaced_items_come_back_last(
    roots: DeleteRoots,
    outcome: DeleteOutcome,
    next: Result<(Restoring, RestoreDisplaced), MutationOutcome>,
)
    requires
        roots.settles(outcome, next),
    ensures
        next is Ok <==> outcome.failures@.len() == 0,
        next matches Ok((restoring, rest)) ==> restoring.left@ == roots.operation.held_aside()
            && rest.operation == roots.operation,
        next matches Err(result) ==> !(result is Committed),
{
}

/// What was published is looked at only once what was merged is taken back.
pub proof fn lemma_a_merge_is_taken_back_first(
    removal: RemoveMerged,
    result: Result<(), PartialRemoval>,
    next: Result<RemoveCreated, MutationOutcome>,
)
    requires
        removal.settles(result, next),
    ensures
        next is Ok <==> result is Ok,
        next matches Ok(rest) ==> rest.operation == removal.operation && rest.created
            == removal.created && rest.removed == removal.paths,
        next matches Err(outcome) ==> !(outcome is Committed),
{
}

/// An operation that was undone can be redone exactly where it displaced
/// nothing; where what it displaced did not come back, it is not undone.
pub proof fn lemma_what_was_undone_can_be_redone(
    rest: RestoreDisplaced,
    result: Result<(), String>,
    outcome: MutationOutcome,
)
    requires
        rest.settles(result, outcome),
    ensures
        result is Ok <==> outcome is Committed,
        result is Err ==> outcome is Discarded,
        outcome matches MutationOutcome::Committed(committed) ==> (committed.record is Some
            <==> rest.operation.held_aside().len() == 0),
        outcome matches MutationOutcome::Committed(committed) ==> (committed.record matches Some(
            record,
        ) ==> record == rest.operation),
        outcome matches MutationOutcome::Committed(committed) ==> committed.changes.removed@
            == rest.operation.brings() && committed.changes.upserted@
            == rest.operation.takes_away(),
{
}

/// Moves are taken back the last one first, and what they displaced comes back
/// once all are.
pub proof fn lemma_moves_are_taken_back_in_turn(moves: UndoMoves, step: UndoMovesStep)
    requires
        moves.wants(step),
    ensures
        step is Rename <==> moves.left@.len() > 0,
        step matches UndoMovesStep::Rename(back) ==> back.transfer == moves.left@.last()
            && back.moves.left@ == moves.left@.drop_last() && back.moves.undone == moves.undone
            && back.moves.replaced == moves.replaced,
        step matches UndoMovesStep::Restore(restoring, rest) ==> restoring.left == moves.replaced
            && rest.transfers@.len() == moves.undone@.len() && rest.replaced_nothing == (
        moves.replaced@.len() == 0) && rest.undoable == moves.undoable,
{
}

/// An entry goes back from where it was moved to, to where it was; where it
/// does not, everything that went back before it returns.
pub proof fn lemma_an_entry_goes_back_where_it_was(
    back: MoveBack,
    renamed: Result<(), RenameError>,
    step: MoveBackStep,
)
    requires
        back.settles(renamed, step),
    ensures
        renamed is Ok <==> step is Confirm,
        step matches MoveBackStep::Confirm(confirm) ==> confirm.moves == back.moves
            && confirm.source == back.transfer.source && confirm.destination
            == back.transfer.destination && confirm.expected_state@.len()
            == back.transfer.expected_state@.len(),
        renamed matches Err(error) ==> (error.kind is CrossesDevices <==> step is Carry),
        step matches MoveBackStep::Carry(carry, kept) ==> carry.source == back.transfer.destination
            && carry.destination == back.transfer.source && kept.moves == back.moves
            && kept.transfer == back.transfer,
        renamed matches Err(error) ==> (!(error.kind is CrossesDevices) ==> (
        if back.moves.undone@.len() == 0 {
            step matches MoveBackStep::Stopped(MutationOutcome::Unchanged(_))
        } else {
            step matches MoveBackStep::Rollback(rollback) && rollback.undone == back.moves.undone
                && rollback.left == back.moves.undone@.len()
        })),
{
}

/// Moves that were taken back can be made again exactly where all of them could
/// be described and they had displaced nothing.
pub proof fn lemma_moves_taken_back_can_be_made_again(
    rest: MovesRestored,
    result: Result<(), String>,
    outcome: MutationOutcome,
)
    requires
        rest.settles(result, outcome),
    ensures
        result is Ok <==> outcome is Committed,
        outcome matches MutationOutcome::Committed(committed) ==> (committed.record is Some
            <==> rest.undoable && rest.replaced_nothing),
        outcome matches MutationOutcome::Committed(committed) ==> (committed.record matches Some(
            record,
        ) ==> (record matches OperationRecord::Move { transfers, replaced } && transfers
            == rest.transfers && replaced@.len() == 0)),
        outcome matches MutationOutcome::Committed(committed) ==> committed.changes == rest.changes,
{
}

} // verus!
