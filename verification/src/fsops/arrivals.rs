//! What a move may leave behind, and what a copy may not be put into.

use vstd::prelude::*;

use crate::fsops::carry::{mirrors, CarryPublish, CarryRemoval, CarryStaging};
use crate::fsops::containment::{
    begins_search, ends_at_root, Ancestor, AncestorWanted, ContainmentStep,
};
use crate::fsops::copier::StagedCopy;
use crate::fsops::copy::PublishWanted;
use crate::fsops::delete::DeleteOutcome;
use crate::fsops::identity::{Metadata, ObjectKey};
use crate::fsops::journal::PathSnapshot;
use crate::fsops::local::{Lookup, RenameError};
use crate::fsops::moving::{
    MeasureStep, MeasureWanted, MoveConfirm, MoveFailure, MoveReady, MoveStep, Moved,
};
use crate::fsops::snapshots::{rebased, Walked};
use crate::fsops::transfer::TransferMode;
use crate::fsops::TransferProgressSnapshot;
use crate::path::{PathBuf, PathModel};

verus! {

/// Only a folder can hold its own destination, so a search is made for folders
/// alone, for the device and inode that were found, and from the folder that
/// the destination is in.
pub proof fn lemma_folders_are_searched_for(
    source: PathBuf,
    destination: PathBuf,
    mode: TransferMode,
    found: Lookup,
    step: ContainmentStep,
)
    requires
        begins_search(source, destination, mode, found, step),
    ensures
        step is Clear <==> (found matches Lookup::Found(metadata) && !(metadata.kind is Directory)),
        step matches ContainmentStep::Hold(wanted) ==> (found matches Lookup::Found(metadata)
            && metadata.kind is Directory && wanted.source_key.device == metadata.device
            && wanted.source_key.inode == metadata.inode && destination@.parent() == Some(
            wanted.parent@,
        ) && wanted.below is None),
        !(found is Found) ==> step is Refused,
        (found matches Lookup::Found(metadata) && metadata.kind is Directory)
            && destination@.parent() is Some ==> step is Hold,
{
}

/// Whether a search met the first directories of `chain`, one after another.
pub open spec fn searched(states: Seq<AncestorWanted>, chain: Seq<ObjectKey>) -> bool {
    &&& 0 < states.len() <= chain.len()
    &&& states[0].below is None
    &&& forall|i: int| 0 <= i < states.len() - 1 ==> #[trigger] went_up(states, chain, i)
}

/// Whether the search went on from the `i`th directory to the one it is in.
pub open spec fn went_up(states: Seq<AncestorWanted>, chain: Seq<ObjectKey>, i: int) -> bool {
    states[i].follows(Ancestor::Met(chain[i]), ContainmentStep::Hold(states[i + 1]))
}

proof fn lemma_search_so_far(states: Seq<AncestorWanted>, chain: Seq<ObjectKey>, n: int)
    requires
        searched(states, chain),
        0 <= n < states.len(),
    ensures
        states[n].source_key == states[0].source_key,
        n > 0 ==> states[n].below == Some(chain[n - 1]),
        forall|j: int| 0 <= j < n ==> #[trigger] chain[j] != states[0].source_key,
    decreases n,
{
    if n > 0 {
        lemma_search_so_far(states, chain, n - 1);
        assert(went_up(states, chain, n - 1));
    }
}

/// A search that walks from a destination up to the root refuses the transfer
/// exactly where the source is one of the directories that it met, and clears
/// it exactly where it is none of them.
pub proof fn lemma_nothing_is_put_into_itself(
    states: Seq<AncestorWanted>,
    chain: Seq<ObjectKey>,
    verdict: ContainmentStep,
)
    requires
        ends_at_root(chain),
        searched(states, chain),
        states.last().follows(Ancestor::Met(chain[states.len() - 1]), verdict),
        !(verdict is Hold),
    ensures
        verdict is Refused <==> chain.contains(states[0].source_key),
        verdict is Clear <==> !chain.contains(states[0].source_key),
{
    let n = states.len() - 1;
    lemma_search_so_far(states, chain, n);
    if verdict is Clear {
        assert(n > 0);
        assert(chain[n - 1] == chain[n]);
        if n - 1 < chain.len() - 2 {
            assert(chain[n - 1] != chain[n - 1 + 1]);
        }
        assert(n == chain.len() - 1);
        assert(chain[n - 1] != states[0].source_key);
        assert forall|j: int| 0 <= j < chain.len() implies chain[j] != states[0].source_key by {
            if j == n {
                assert(chain[j] == chain[n - 1]);
            }
        }
    } else {
        assert(chain[n] == states[0].source_key);
    }
}

/// Where a directory above a destination cannot be told, the transfer is
/// refused.
pub proof fn lemma_an_unknown_ancestor_refuses(
    wanted: AncestorWanted,
    ancestor: Ancestor,
    step: ContainmentStep,
)
    requires
        wanted.follows(ancestor, step),
    ensures
        !(ancestor is Met) ==> step is Refused,
        ancestor matches Ancestor::Met(key) && wanted.below is None ==> !(step is Clear),
{
}

proof fn lemma_mirrored(
    originals: Seq<PathSnapshot>,
    copies: Seq<PathSnapshot>,
    from: PathModel,
    to: PathModel,
    without_links: bool,
)
    requires
        mirrors(originals, copies, from, to, without_links),
    ensures
        forall|i: int| 0 <= i < originals.len() ==> has_copy(
            #[trigger] originals[i],
            copies,
            from,
            to,
            without_links,
        ),
        copies.len() <= originals.len(),
        !without_links ==> copies.len() == originals.len(),
    decreases originals.len(),
{
    if originals.len() > 0 {
        let left_out = without_links && originals.last().kind is Symlink;
        let fewer = if left_out {
            copies
        } else {
            copies.drop_last()
        };
        lemma_mirrored(originals.drop_last(), fewer, from, to, without_links);
        assert forall|i: int| 0 <= i < originals.len() implies has_copy(
            #[trigger] originals[i],
            copies,
            from,
            to,
            without_links,
        ) by {
            if i == originals.len() - 1 {
                if !left_out {
                    assert(is_copy(originals[i], copies[copies.len() - 1], from, to));
                }
            } else {
                assert(originals.drop_last()[i] == originals[i]);
                if !(without_links && originals[i].kind is Symlink) {
                    let j = choose|j: int|
                        0 <= j < fewer.len() && is_copy(originals[i], #[trigger] fewer[j], from, to);
                    assert(copies[j] == fewer[j]);
                }
            }
        }
    }
}

/// Whether a snapshot is of the same kind as another, at the same place under
/// another root.
pub open spec fn is_copy(
    original: PathSnapshot,
    copied: PathSnapshot,
    from: PathModel,
    to: PathModel,
) -> bool {
    copied.kind == original.kind && copied.path@ == rebased(original.path@, from, to)
}

/// Whether an entry was copied, or is a link where there can be none.
pub open spec fn has_copy(
    original: PathSnapshot,
    copies: Seq<PathSnapshot>,
    from: PathModel,
    to: PathModel,
    without_links: bool,
) -> bool {
    (without_links && original.kind is Symlink) || exists|j: int|
        0 <= j < copies.len() && is_copy(original, #[trigger] copies[j], from, to)
}

/// A copy that is to take its original's place holds everything the original
/// holds, but for links that there can be none of, and both are still as they
/// were when they were recorded. What is to be removed in the end is the
/// device and inode that was copied.
pub proof fn lemma_only_a_whole_copy_takes_the_place(
    staging: CarryStaging,
    publish: PublishWanted,
    staged: StagedCopy,
    original_now: Walked,
    copy_now: Walked,
    result: Result<CarryPublish, String>,
)
    requires
        staging.passes(publish, staged, original_now, copy_now, result),
    ensures
        result matches Ok(next) ==> {
            &&& !staged.sources.overflowed && !staged.created.overflowed
            &&& staged.sources.snapshots@.len() > 0 && staged.created.snapshots@.len() > 0
            &&& forall|i: int| 0 <= i < staged.sources.snapshots@.len() ==> has_copy(
                #[trigger] staged.sources.snapshots@[i],
                staged.created.snapshots@,
                staging.source@,
                publish.staged@,
                staged.dropped.links,
            )
            &&& original_now matches Walked::Seen(met)
            &&& met@.len() == staged.sources.snapshots@.len()
            &&& copy_now matches Walked::Seen(made)
            &&& made@.len() == staged.created.snapshots@.len()
            &&& next.source == staging.source
            &&& next.key.device == staged.sources.snapshots@[0].identity.key.device
            &&& next.key.inode == staged.sources.snapshots@[0].identity.key.inode
            &&& staged.sources.snapshots@[0].path@ == staging.source@
        },
        original_now is Lost ==> result is Err,
        copy_now is Lost ==> result is Err,
        staged.sources.overflowed || staged.created.overflowed ==> result is Err,
{
    if result is Ok {
        lemma_mirrored(
            staged.sources.snapshots@,
            staged.created.snapshots@,
            staging.source@,
            publish.staged@,
            staged.dropped.links,
        );
    }
}

/// The original is removed exactly where its copy was published, and it is the
/// recorded original.
pub proof fn lemma_an_original_stays_until_its_copy_is_there(
    carry: CarryPublish,
    renamed: bool,
    result: Result<CarryRemoval, MoveFailure>,
)
    requires
        carry.passes(renamed, result),
    ensures
        renamed <==> result is Ok,
        result matches Ok(removal) ==> removal.source == carry.source && removal.key == carry.key
            && removal.destination@ == carry.publish.destination@,
        result matches Err(failure) ==> !failure.published,
{
}

/// Where the original could not be removed, the copy is said to be there; where
/// it was removed, the move happened.
pub proof fn lemma_a_carried_entry_is_reported_as_it_is(
    removal: CarryRemoval,
    outcome: DeleteOutcome,
    result: Result<MoveConfirm, MoveFailure>,
)
    requires
        removal.settles(outcome, result),
    ensures
        outcome.failures@.len() == 0 <==> result is Ok,
        result matches Err(failure) ==> failure.published,
        result matches Ok(confirm) ==> confirm.source == removal.source && confirm.destination
            == removal.destination,
        result matches Ok(confirm) ==> (confirm.expected_state matches Some(state) ==> state
            == removal.created && state@.len() <= removal.limit),
{
}

/// A rename that happened is a move; one that met another filesystem is carried
/// out by a copy of the same source to the same destination; any other failure
/// moved nothing.
pub proof fn lemma_a_rename_is_a_move(
    ready: MoveReady,
    prepared: Option<Vec<PathSnapshot>>,
    renamed: Result<(), RenameError>,
    step: MoveStep,
)
    requires
        ready.follows(prepared, renamed, step),
    ensures
        renamed is Ok <==> step is Confirm,
        step matches MoveStep::Confirm(confirm) ==> confirm.source == ready.source
            && confirm.destination == ready.destination,
        renamed matches Err(error) ==> (error.kind is CrossesDevices <==> step is Carry),
        step matches MoveStep::Carry(carry) ==> carry.source == ready.source && carry.destination
            == ready.destination,
        step matches MoveStep::Failed(failure) ==> !failure.published,
{
}

/// What a move may be undone by: everything that was moved is still the object
/// it was, of the same kind, and is recorded with the time at which it last
/// changed, which the move itself may have set.
pub proof fn lemma_moves_are_recorded_as_they_are_now(
    confirm: MoveConfirm,
    found: Seq<Option<Metadata>>,
    moved: Moved,
)
    requires
        confirm.settles(found, moved),
        confirm.expected_state is Some,
        found.len() == confirm.expected_state.unwrap()@.len(),
    ensures
        moved.record matches Some(record) ==> {
            let before = confirm.expected_state.unwrap()@;
            &&& record.source == confirm.source
            &&& record.destination == confirm.destination
            &&& record.expected_state@.len() == before.len()
            &&& forall|i: int| #![trigger record.expected_state@[i]]
                0 <= i < before.len() ==> (found[i] matches Some(now) && {
                    let kept = record.expected_state@[i];
                    &&& kept.path == before[i].path
                    &&& kept.kind == now.kind && before[i].kind == now.kind
                    &&& kept.identity.key.device == now.device
                    &&& kept.identity.key.inode == now.inode
                    &&& before[i].identity.key.device == now.device
                    &&& before[i].identity.key.inode == now.inode
                    &&& kept.identity.changed_seconds == now.changed_seconds
                    &&& kept.identity.changed_nanoseconds == now.changed_nanoseconds
                })
        },
        (forall|i: int| #![trigger found[i]]
            0 <= i < found.len() ==> (found[i] matches Some(now) && now.kind
                == confirm.expected_state.unwrap()@[i].kind && now.device
                == confirm.expected_state.unwrap()@[i].identity.key.device && now.inode
                == confirm.expected_state.unwrap()@[i].identity.key.inode)) ==> moved.record
            is Some,
{
    let before = confirm.expected_state.unwrap()@;
    if let Some(record) = moved.record {
        assert forall|i: int| #![trigger record.expected_state@[i]] 0 <= i < before.len() implies (
        found[i] matches Some(now) && record.expected_state@[i].identity == now.identity()
            && now.kind == before[i].kind && now.key() == before[i].identity.key) by {
            assert(crate::fsops::snapshots::still_the_object(
                before[i],
                crate::fsops::snapshots::found_at(found, i),
            ));
        }
    }
}

/// Every entry that is there counts as one, and as its bytes where it is a
/// file; a folder is looked into, and nothing else is.
pub proof fn lemma_everything_there_is_counted(
    wanted: MeasureWanted,
    found: Option<Metadata>,
    before: TransferProgressSnapshot,
    after: TransferProgressSnapshot,
    step: MeasureStep,
)
    requires
        wanted.counts(found, before, after, step),
        before.total_items < u64::MAX,
    ensures
        found matches Some(metadata) ==> after.total_items == before.total_items + 1,
        found matches Some(metadata) ==> (before.total_bytes + metadata.len <= u64::MAX ==> (
        if metadata.kind is File {
            after.total_bytes == before.total_bytes + metadata.len
        } else {
            after.total_bytes == before.total_bytes
        })),
        found is None ==> after == before,
        step is List <==> (found matches Some(metadata) && metadata.kind is Directory),
        step matches MeasureStep::List(list) ==> list.path == wanted.path && list.measuring
            == wanted.measuring,
        after.completed_items == before.completed_items,
{
}

} // verus!
