//! What is checked before something is touched.
//!
//! Undoing and redoing act only on what is still exactly what was recorded.
//! Here that is said in terms of what the filesystem reports: device, inode,
//! time of last change and kind.

use vstd::prelude::*;

use crate::fsops::history::{
    DeleteRoots, RedoCopy, RedoExtract, RedoMoves, RedoTransfer, RedoZip, RemoveCreated,
    RemoveEntry, RemoveMerged, UndoEntry, UndoMoves, ValidateCreated, ValidateMoves, ZipAgain,
};
use crate::fsops::identity::{FileIdentity, Metadata};
use crate::fsops::journal::{MutationOutcome, PathSnapshot, ReplacedItem};
use crate::fsops::local::Lookup;
use crate::fsops::merge::MergeRemoval;
use crate::fsops::mutations::{
    asks_for_mode, ModeChange, ModeReady, Pinned, RenameCheck, RenameReady, ReverseRename,
};
use crate::fsops::quarantine::{
    AsideConfirm, CandidateStep, CandidateWanted, PutBackWanted, QuarantineCheck, UnrestoredItems,
};
use crate::fsops::snapshots::{
    as_recorded, lemma_special_refusal, outermost, snapshot_paths, unchanged_since, Walked,
};
use crate::fsops::staging::{
    ReserveStep, ReserveWanted, Reserving, StageInspect, StageReady, StageRename, StageVerify,
    TrashCheck, VerifyStep,
};
use crate::fsops::sweep::{CheckStep, EraseCheck, OwnerStep, OwnerWanted, ScanStep, ScanWanted};
use crate::fsops::transfer::TransferMode;
use crate::index::is_last_position;
use crate::path::{PathBuf, PathModel};

verus! {

/// Whether what is found is the object that was recorded, unchanged since.
pub open spec fn is_still(identity: FileIdentity, found: Metadata) -> bool {
    &&& found.device == identity.key.device
    &&& found.inode == identity.key.inode
    &&& found.changed_seconds == identity.changed_seconds
    &&& found.changed_nanoseconds == identity.changed_nanoseconds
}

/// Whether two records are of the same object at the same path, unchanged from
/// one to the other.
pub open spec fn same_record(left: PathSnapshot, right: PathSnapshot) -> bool {
    &&& left.path@ == right.path@
    &&& left.kind == right.kind
    &&& left.identity.key.device == right.identity.key.device
    &&& left.identity.key.inode == right.identity.key.inode
    &&& left.identity.changed_seconds == right.identity.changed_seconds
    &&& left.identity.changed_nanoseconds == right.identity.changed_nanoseconds
}

/// Whether what was met on a walk is what was recorded: as much of it, and
/// each thing as it was.
pub open spec fn met_as_recorded(recorded: Seq<PathSnapshot>, walked: Walked) -> bool {
    walked matches Walked::Seen(met) && met@.len() == recorded.len() && forall|i: int|
        0 <= i < met@.len() ==> was_recorded(recorded, #[trigger] met@[i])
}

/// Whether something that was met was recorded.
pub open spec fn was_recorded(recorded: Seq<PathSnapshot>, met: PathSnapshot) -> bool {
    exists|k: int| 0 <= k < recorded.len() && same_record(#[trigger] recorded[k], met)
}

/// Whether every path was recorded once.
pub open spec fn recorded_once(recorded: Seq<PathSnapshot>) -> bool {
    forall|i: int, j: int|
        0 <= i < recorded.len() && 0 <= j < recorded.len() && i != j ==> (
        #[trigger] recorded[i]).path@ != (#[trigger] recorded[j]).path@
}

/// Whether nothing that was recorded is of a kind that cannot be put back.
pub open spec fn all_ordinary(recorded: Seq<PathSnapshot>) -> bool {
    forall|i: int|
        0 <= i < recorded.len() ==> (#[trigger] recorded[i]).kind is Directory
            || recorded[i].kind is File || recorded[i].kind is Symlink
}

/// What is recorded of an object is what the filesystem reports of it.
pub proof fn lemma_record_says_what_was_found(
    snapshot: PathSnapshot,
    path: PathModel,
    found: Metadata,
)
    requires
        snapshot.describes(path, found),
    ensures
        snapshot.path@ == path,
        snapshot.kind == found.kind,
        is_still(snapshot.identity, found),
{
}

/// A tree counts as unchanged only where everything met on a walk is what was
/// recorded of its path, and nothing is missing or new. And where every path
/// was recorded once, it then does.
pub proof fn lemma_unchanged_is_as_recorded(recorded: Seq<PathSnapshot>, walked: Walked)
    ensures
        unchanged_since(recorded, walked) ==> met_as_recorded(recorded, walked),
        recorded_once(recorded) && met_as_recorded(recorded, walked) ==> unchanged_since(
            recorded,
            walked,
        ),
{
    let paths = snapshot_paths(recorded);
    if unchanged_since(recorded, walked) {
        let met = walked->Seen_0@;
        assert forall|i: int| 0 <= i < met.len() implies was_recorded(recorded, #[trigger] met[i]) by {
            assert(as_recorded(recorded, met[i]));
            let k = choose|k: int| #[trigger]
                is_last_position(paths, met[i].path@, k) && recorded[k].identity
                    == met[i].identity && recorded[k].kind == met[i].kind;
            assert(same_record(recorded[k], met[i]));
        }
    }
    if recorded_once(recorded) && met_as_recorded(recorded, walked) {
        let met = walked->Seen_0@;
        assert forall|i: int| 0 <= i < met.len() implies as_recorded(recorded, #[trigger] met[i]) by {
            assert(was_recorded(recorded, met[i]));
            let k = choose|k: int|
                0 <= k < recorded.len() && same_record(#[trigger] recorded[k], met[i]);
            assert(paths[k] == met[i].path@);
            assert forall|j: int| k < j < paths.len() implies #[trigger] paths[j]
                != met[i].path@ by {
                assert(recorded[j].path@ != recorded[k].path@);
            }
            assert(is_last_position(paths, met[i].path@, k));
            assert(recorded[k].identity == met[i].identity);
        }
    }
}

/// Undoing the creation of a folder removes it exactly where it is still the
/// folder that was made, and empty.
pub proof fn lemma_only_the_empty_folder_is_removed(
    undo: UndoEntry,
    found: Option<Metadata>,
    empty: Option<bool>,
    again: Option<Metadata>,
    result: Result<RemoveEntry, MutationOutcome>,
)
    requires
        undo.directory_passes(found, empty, again, result),
    ensures
        result is Ok <==> (found matches Some(metadata) && metadata.kind is Directory) && empty
            == Some(true) && (again matches Some(now) && is_still(undo.identity, now)),
        result matches Ok(remove) ==> remove.path == undo.path && remove.operation
            == undo.operation && remove.changes == undo.changes,
        result matches Err(outcome) ==> outcome is Unchanged,
{
    match empty {
        Some(true) => {},
        _ => {},
    }
}

/// Undoing the creation of a file removes it exactly where it is still the
/// file that was made, and nothing was written to it.
pub proof fn lemma_only_the_empty_file_is_removed(
    undo: UndoEntry,
    found: Option<Metadata>,
    again: Option<Metadata>,
    result: Result<RemoveEntry, MutationOutcome>,
)
    requires
        undo.file_passes(found, again, result),
    ensures
        result is Ok <==> (found matches Some(metadata) && metadata.kind is File && metadata.len
            == 0) && (again matches Some(now) && is_still(undo.identity, now)),
        result matches Ok(remove) ==> remove.path == undo.path && remove.operation
            == undo.operation && remove.changes == undo.changes,
        result matches Err(outcome) ==> outcome is Unchanged,
{
}

/// An entry that is gone is reported as gone, with a record to make it again,
/// and one that is not leaves the history as it was.
pub proof fn lemma_removed_entry_can_be_made_again(
    remove: RemoveEntry,
    gone: bool,
    outcome: MutationOutcome,
)
    requires
        remove.settles(gone, outcome),
    ensures
        gone ==> (outcome matches MutationOutcome::Committed(committed) && committed.path
            == remove.path && committed.changes == remove.changes && committed.record == Some(
            remove.operation,
        )),
        !gone ==> outcome is Unchanged,
{
}

/// Undoing a copy, a compression or an extraction deletes what it published
/// exactly where all of that is still as it was recorded, and of a kind that
/// can be put back. It then deletes the outermost of it, and nothing else.
pub proof fn lemma_only_unchanged_output_is_removed(
    undo: RemoveCreated,
    walked: Walked,
    next: Result<DeleteRoots, MutationOutcome>,
)
    requires
        undo.passes(walked, next),
    ensures
        next matches Ok(delete) ==> met_as_recorded(undo.created@, walked) && all_ordinary(
            undo.created@,
        ) && delete.operation == undo.operation && delete.removed == undo.removed
            && delete.roots@ == outermost(undo.created@, undo.created@),
        recorded_once(undo.created@) && all_ordinary(undo.created@) && met_as_recorded(
            undo.created@,
            walked,
        ) ==> next is Ok,
        undo.removed@.len() == 0 ==> (next matches Err(outcome) ==> outcome is Unchanged),
{
    lemma_unchanged_is_as_recorded(undo.created@, walked);
    lemma_special_refusal(undo.created@);
    if undo.passes(walked, next) && next is Ok {
        assert forall|i: int| 0 <= i < undo.created@.len() implies (
        #[trigger] undo.created@[i]).kind is Directory || undo.created@[i].kind is File
            || undo.created@[i].kind is Symlink by {
            assert(!undo.created@[i].kind.special());
        }
    }
}

/// Before what a merge added is taken back, everything published beside it is
/// checked: nothing at all is removed unless that is as it was recorded.
pub proof fn lemma_output_is_checked_before_a_merge_is_taken_back(
    undo: ValidateCreated,
    walked: Walked,
    result: Result<(MergeRemoval, RemoveMerged), MutationOutcome>,
)
    requires
        undo.passes(walked, result),
    ensures
        result matches Ok((removal, rest)) ==> met_as_recorded(undo.created@, walked)
            && all_ordinary(undo.created@) && removal.left == undo.merged && removal.removed@.len()
            == 0 && rest.created == undo.created && rest.operation == undo.operation,
        recorded_once(undo.created@) && all_ordinary(undo.created@) && met_as_recorded(
            undo.created@,
            walked,
        ) ==> result is Ok,
        result matches Err(outcome) ==> outcome is Unchanged,
{
    lemma_unchanged_is_as_recorded(undo.created@, walked);
    lemma_special_refusal(undo.created@);
    if result is Ok {
        assert forall|i: int| 0 <= i < undo.created@.len() implies (
        #[trigger] undo.created@[i]).kind is Directory || undo.created@[i].kind is File
            || undo.created@[i].kind is Symlink by {
            assert(!undo.created@[i].kind.special());
        }
    }
}

/// Undoing moves begins exactly where everything moved is still as it was
/// recorded and nothing is where any of it came from; else nothing is moved.
pub proof fn lemma_only_unchanged_moves_are_taken_back(
    undo: ValidateMoves,
    walked: Seq<Walked>,
    found: Seq<Lookup>,
    next: Result<UndoMoves, MutationOutcome>,
)
    requires
        undo.passes(walked, found, next),
        walked.len() == undo.transfers@.len(),
        found.len() == undo.transfers@.len(),
    ensures
        next matches Ok(moves) ==> moves.left == undo.transfers && moves.replaced == undo.replaced
            && forall|i: int|
            0 <= i < undo.transfers@.len() ==> met_as_recorded(
                (#[trigger] undo.transfers@[i]).expected_state@,
                walked[i],
            ) && found[i] is Missing,
        (forall|i: int|
            0 <= i < undo.transfers@.len() ==> recorded_once(
                (#[trigger] undo.transfers@[i]).expected_state@,
            ) && met_as_recorded(undo.transfers@[i].expected_state@, walked[i])
                && found[i] is Missing) ==> next is Ok,
        next matches Err(outcome) ==> outcome is Unchanged,
{
    assert forall|i: int| 0 <= i < undo.transfers@.len() && next is Ok implies met_as_recorded(
        (#[trigger] undo.transfers@[i]).expected_state@,
        walked[i],
    ) && found[i] is Missing by {
        lemma_unchanged_is_as_recorded(undo.transfers@[i].expected_state@, walked[i]);
    }
    if forall|i: int|
        0 <= i < undo.transfers@.len() ==> recorded_once(
            (#[trigger] undo.transfers@[i]).expected_state@,
        ) && met_as_recorded(undo.transfers@[i].expected_state@, walked[i]) && found[i] is Missing {
        assert forall|i: int| 0 <= i < undo.transfers@.len() implies unchanged_since(
            (#[trigger] undo.transfers@[i]).expected_state@,
            walked[i],
        ) by {
            lemma_unchanged_is_as_recorded(undo.transfers@[i].expected_state@, walked[i]);
        }
    }
}

/// Undoing a rename renames back exactly where the renamed entry is still the
/// recorded one and nothing has its old name.
pub proof fn lemma_only_the_renamed_entry_is_renamed_back(
    undo: ReverseRename,
    renamed: Option<Metadata>,
    before: Lookup,
    result: Result<RenameReady, String>,
)
    requires
        undo.passes(renamed, before, result),
    ensures
        result is Ok <==> (renamed matches Some(now) && is_still(undo.identity, now)) && before
            is Missing,
        result matches Ok(ready) ==> ready.from == undo.destination && ready.to == undo.source,
{
}

/// An entry is renamed only where nothing has the new name and it did not
/// change between two looks.
pub proof fn lemma_rename_overwrites_nothing(
    check: RenameCheck,
    destination: Lookup,
    source: Lookup,
    again: Option<Metadata>,
    result: Result<RenameReady, String>,
)
    requires
        check.passes(destination, source, again, result),
    ensures
        result is Ok <==> destination is Missing && (source matches Lookup::Found(first) && (
        again matches Some(second) && is_still(first.identity(), second))),
        result matches Ok(ready) ==> ready.from == check.source && ready.to == check.destination,
{
}

/// Permission bits are changed exactly on the object they were to be changed
/// on, unchanged since, and never through a link.
pub proof fn lemma_only_the_pinned_object_changes_mode(
    change: ModeChange,
    pinned: Pinned,
    result: Result<ModeReady, String>,
)
    requires
        change.passes(pinned, result),
    ensures
        result is Ok <==> (pinned matches Pinned::As(found) && !(found.kind is Symlink)
            && is_still(change.expected, found)),
        result matches Ok(ready) ==> ready.path == change.path && ready.from == change.from
            && ready.to == change.to,
{
}

/// A change of permissions remembers the bits the object had, and is asked for
/// only where it would change them.
pub proof fn lemma_mode_change_remembers_the_bits(
    path: PathBuf,
    mode: u32,
    found: Lookup,
    result: Result<ModeChange, String>,
)
    requires
        asks_for_mode(path, mode, found, result),
    ensures
        result is Ok <==> (found matches Lookup::Found(now) && !(now.kind is Symlink) && now.mode
            & 0o7777u32 != mode & 0o7777u32),
        result matches Ok(change) ==> change.path == path && change.to == mode && (found matches
            Lookup::Found(now) && change.from == now.mode & 0o7777u32 && is_still(
            change.expected,
            now,
        )),
{
}

/// Redoing a copy copies again exactly where everything copied is still as it
/// was recorded.
pub proof fn lemma_only_unchanged_sources_are_copied_again(
    redo: RedoCopy,
    walked: Walked,
    next: Result<RedoTransfer, MutationOutcome>,
)
    requires
        redo.passes(walked, next),
    ensures
        next matches Ok(transfer) ==> met_as_recorded(redo.sources@, walked) && transfer.mode
            == TransferMode::Copy && transfer.destination == redo.destination && transfer.sources@
            == outermost(redo.sources@, redo.sources@),
        recorded_once(redo.sources@) && met_as_recorded(redo.sources@, walked) ==> next is Ok,
        next matches Err(outcome) ==> outcome is Unchanged,
{
    lemma_unchanged_is_as_recorded(redo.sources@, walked);
}

/// Redoing moves moves again exactly where everything to be moved is still as
/// it was recorded, and into the folder it was moved into.
pub proof fn lemma_only_unchanged_sources_are_moved_again(
    redo: RedoMoves,
    walked: Seq<Walked>,
    next: Result<RedoTransfer, MutationOutcome>,
)
    requires
        redo.passes(walked, next),
        walked.len() == redo.transfers@.len(),
    ensures
        next matches Ok(transfer) ==> {
            &&& transfer.mode == TransferMode::Move
            &&& redo.transfers@[0].destination@.parent() == Some(transfer.destination@)
            &&& transfer.sources@.len() == redo.transfers@.len()
            &&& forall|i: int|
                0 <= i < redo.transfers@.len() ==> transfer.sources@[i] == (
                #[trigger] redo.transfers@[i]).source && met_as_recorded(
                    redo.transfers@[i].expected_state@,
                    walked[i],
                )
        },
        redo.transfers@.len() > 0 && redo.transfers@[0].destination@.parent() is Some && (forall|
            i: int,
        |
            0 <= i < redo.transfers@.len() ==> recorded_once(
                (#[trigger] redo.transfers@[i]).expected_state@,
            ) && met_as_recorded(redo.transfers@[i].expected_state@, walked[i])) ==> next is Ok,
        next matches Err(outcome) ==> outcome is Unchanged,
{
    assert forall|i: int| 0 <= i < redo.transfers@.len() && next is Ok implies met_as_recorded(
        (#[trigger] redo.transfers@[i]).expected_state@,
        walked[i],
    ) by {
        lemma_unchanged_is_as_recorded(redo.transfers@[i].expected_state@, walked[i]);
    }
    if forall|i: int|
        0 <= i < redo.transfers@.len() ==> recorded_once(
            (#[trigger] redo.transfers@[i]).expected_state@,
        ) && met_as_recorded(redo.transfers@[i].expected_state@, walked[i]) {
        assert forall|i: int| 0 <= i < redo.transfers@.len() implies unchanged_since(
            (#[trigger] redo.transfers@[i]).expected_state@,
            walked[i],
        ) by {
            lemma_unchanged_is_as_recorded(redo.transfers@[i].expected_state@, walked[i]);
        }
    }
}

/// Redoing a compression compresses again exactly where everything compressed
/// is still as it was recorded, to the same archive.
pub proof fn lemma_only_unchanged_sources_are_compressed_again(
    redo: RedoZip,
    walked: Walked,
    next: Result<ZipAgain, MutationOutcome>,
)
    requires
        redo.passes(walked, next),
    ensures
        next matches Ok(zip) ==> met_as_recorded(redo.sources@, walked) && zip.destination
            == redo.destination && zip.sources@ == outermost(redo.sources@, redo.sources@),
        recorded_once(redo.sources@) && met_as_recorded(redo.sources@, walked) ==> next is Ok,
        next matches Err(outcome) ==> outcome is Unchanged,
{
    lemma_unchanged_is_as_recorded(redo.sources@, walked);
}

/// Redoing an extraction extracts again only where the archive is still the
/// recorded one.
pub proof fn lemma_only_the_unchanged_archive_is_extracted_again(
    redo: RedoExtract,
    walked: Walked,
    next: Result<PathBuf, MutationOutcome>,
)
    requires
        redo.passes(walked, next),
    ensures
        next is Ok ==> met_as_recorded(redo.source@, walked),
        redo.source@.len() == 1 && met_as_recorded(redo.source@, walked) ==> next == Ok::<
            PathBuf,
            MutationOutcome,
        >(redo.source@[0].path),
        next matches Err(outcome) ==> outcome is Unchanged,
{
    lemma_unchanged_is_as_recorded(redo.source@, walked);
    if redo.source@.len() == 1 {
        let all = redo.source@;
        assert(all.drop_last() =~= Seq::empty());
        assert(outermost(all.drop_last(), all) =~= Seq::empty());
        assert(outermost(all, all) =~= seq![all[0].path]);
    }
}

/// An object that was moved aside is held with where it was, where it is, and
/// what it is now, and only where it is the one that was to be moved.
pub proof fn lemma_held_aside_is_what_was_moved(
    confirm: AsideConfirm,
    found: Option<Metadata>,
    result: Result<ReplacedItem, String>,
)
    requires
        confirm.comes_to(found, result),
    ensures
        result is Ok <==> (found matches Some(now) && now.device == confirm.expected.device
            && now.inode == confirm.expected.inode),
        result matches Ok(item) ==> item.path == confirm.path && item.quarantine
            == confirm.candidate && (found matches Some(now) && is_still(item.identity, now)),
{
}

/// An object is moved aside only to a name that is free.
pub proof fn lemma_moving_aside_overwrites_nothing(
    wanted: CandidateWanted,
    found: Lookup,
    step: CandidateStep,
)
    requires
        wanted.follows(found, step),
    ensures
        step is Rename <==> found is Missing,
        step matches CandidateStep::Rename(aside) ==> aside.path == wanted.quarantining.path
            && aside.candidate == wanted.candidate && aside.expected
            == wanted.quarantining.expected,
        found is Found ==> step is Again,
{
}

/// A displaced object is put back exactly where what is held is still what was
/// moved aside. Where it cannot be, it and everything not yet put back are
/// still held.
pub proof fn lemma_only_what_was_held_is_put_back(
    check: QuarantineCheck,
    found: Option<Metadata>,
    result: Result<PutBackWanted, UnrestoredItems>,
)
    requires
        check.comes_to(found, result),
    ensures
        result is Ok <==> (found matches Some(now) && is_still(check.item.identity, now)),
        result matches Ok(wanted) ==> wanted.item == check.item && wanted.left == check.left,
        result matches Err(stopped) ==> stopped.remaining@ == check.left@.push(check.item),
{
}

/// A root is moved aside to be deleted only where it is not a filesystem root,
/// and is the object that was approved, where one was.
pub proof fn lemma_only_the_approved_root_is_staged(
    inspect: StageInspect,
    found: Result<Metadata, String>,
    process: u32,
    result: Result<Reserving, String>,
)
    requires
        inspect.passes(found, process, result),
    ensures
        result is Ok <==> (found matches Ok(now) && (inspect.root.expected matches Some(approved)
            ==> now.device == approved.device && now.inode == approved.inode))
            && inspect.root.original@.file_name() is Some,
        result matches Ok(reserving) ==> reserving.original == inspect.root.original && (
        found matches Ok(now) && reserving.key.device == now.device && reserving.key.inode
            == now.inode),
{
}

/// Nothing that overlaps a Trash is deleted as if it were the user's.
pub proof fn lemma_the_trash_is_not_deleted(
    check: TrashCheck,
    overlaps: Result<bool, String>,
    result: Result<StageInspect, String>,
)
    requires
        check.passes(overlaps, result),
    ensures
        result is Ok <==> overlaps == Ok::<bool, String>(false),
        result matches Ok(inspect) ==> inspect.root == check.root,
{
    match overlaps {
        Ok(true) => {},
        Ok(false) => {},
        Err(_) => {},
    }
}

/// A root leaves its path only while it is the object that was looked at, for a
/// name that is free, and counts as moved aside only where it is that object
/// that arrived there. Anything else goes back.
pub proof fn lemma_staging_moves_what_was_looked_at(
    ready: StageReady,
    found: Result<Metadata, String>,
    result: Result<StageRename, String>,
)
    requires
        ready.passes(found, result),
    ensures
        result is Ok <==> (found matches Ok(now) && now.device == ready.key.device && now.inode
            == ready.key.inode),
        result matches Ok(rename) ==> rename.original == ready.original && rename.quarantine
            == ready.quarantine && rename.key == ready.key,
{
}

/// What arrived aside is staged exactly where it is the object that was moved.
pub proof fn lemma_staged_is_what_was_moved(
    verify: StageVerify,
    found: Result<Metadata, String>,
    step: VerifyStep,
)
    requires
        verify.follows(found, step),
    ensures
        step is Staged <==> (found matches Ok(now) && now.device == verify.key.device && now.inode
            == verify.key.inode),
        step matches VerifyStep::Staged(path) ==> path == verify.quarantine,
        step matches VerifyStep::PutBack(back) ==> back.original == verify.original
            && back.quarantine == verify.quarantine,
{
}

/// A root is staged only at a name that is free.
pub proof fn lemma_staging_overwrites_nothing(
    wanted: ReserveWanted,
    found: Lookup,
    step: ReserveStep,
)
    requires
        wanted.follows(found, step),
    ensures
        step is Ready <==> found is Missing,
        step matches ReserveStep::Ready(ready) ==> ready.original == wanted.reserving.original
            && ready.key == wanted.reserving.key && ready.quarantine == wanted.candidate,
        found is Found ==> step is Again,
{
}

/// Working state is swept exactly where nothing can want it: in the boot it
/// was made in, once its process is gone, and from another boot only where it
/// holds no displaced original.
pub proof fn lemma_only_dead_work_is_swept(wanted: OwnerWanted, running: bool, step: OwnerStep)
    requires
        wanted.follows(running, step),
    ensures
        wanted.owner.boot@ == wanted.sweep.boot@ ==> (step is Scan <==> wanted.owner.process
            != wanted.sweep.process && !running),
        wanted.owner.boot@ != wanted.sweep.boot@ ==> (step is Scan <==> wanted.owner.kind is Copy
            || wanted.owner.kind is Archive),
        step matches OwnerStep::Scan(scan) ==> scan.path == wanted.path && scan.sweep
            == wanted.sweep,
{
}

/// What a sweep erases is what it scanned, unchanged since, and a folder goes
/// as a folder.
pub proof fn lemma_only_what_was_scanned_is_swept(
    scan: ScanWanted,
    scanned: Metadata,
    check: EraseCheck,
    found: Option<Metadata>,
    step: CheckStep,
)
    requires
        scan.follows(Some(scanned), ScanStep::Check(check)),
        check.follows(found, step),
    ensures
        step is Erase <==> (found matches Some(now) && now.device == scanned.device && now.inode
            == scanned.inode && now.changed_seconds == scanned.changed_seconds
            && now.changed_nanoseconds == scanned.changed_nanoseconds),
        step matches CheckStep::Erase(entry) ==> entry.path == scan.path && (found matches Some(now)
            && entry.tree == (now.kind is Directory)),
{
}

} // verus!
