//! What becomes of one source of a transfer, whatever is in its way.

use vstd::prelude::*;

use crate::fsops::conflict::{extension_start, numbered, ConflictResponse};
use crate::fsops::copy::CopiedItem;
use crate::fsops::identity::Metadata;
use crate::fsops::journal::{MoveRecord, OperationRecord, ReplacedItem};
use crate::fsops::local::Lookup;
use crate::fsops::merge::MergeOutcome;
use crate::fsops::mutations::name_refusal;
use crate::fsops::plan::{begins_plan, AnswerWanted, NameWanted, PlanStep, SourcePlan, TargetWanted};
use crate::fsops::transfer::{
    fails_with, reports, CompletedTransfer, FailStep, FinishedTransfer, PlanWanted, TransferMode,
    TransferModel, WorkStep,
};
use crate::fsops::PathFailure;
use crate::text::decimal_bytes;

verus! {

/// Whether two descriptions are of one object.
pub open spec fn one_object(left: Metadata, right: Metadata) -> bool {
    left.device == right.device && left.inode == right.inode
}

/// A source goes straight to its destination exactly where nothing is there.
pub proof fn lemma_only_a_free_destination_is_taken(
    wanted: TargetWanted,
    found: Lookup,
    step: PlanStep,
)
    requires
        wanted.follows(found, step),
    ensures
        found is Missing ==> step == PlanStep::Done(SourcePlan::Transfer(wanted.target)),
        step matches PlanStep::Done(SourcePlan::Transfer(_)) ==> found is Missing,
        !(step matches PlanStep::Done(SourcePlan::Replace(_))),
        !(step matches PlanStep::Done(SourcePlan::Merge(_))),
        found is Failed ==> step matches PlanStep::Done(SourcePlan::Failed(_)),
{
}

/// Where something else is at the destination, somebody is asked, with both
/// named, or, where nobody can be asked, the source is refused.
pub proof fn lemma_a_taken_destination_is_asked_about(
    wanted: TargetWanted,
    occupant: Metadata,
    step: PlanStep,
)
    requires
        wanted.follows(Lookup::Found(occupant), step),
        !one_object(occupant, wanted.planner.metadata),
    ensures
        wanted.planner.interactive ==> (step matches PlanStep::Ask(answer) && answer.planner
            == wanted.planner && answer.request.source == wanted.planner.source
            && answer.request.destination == wanted.target && answer.request.source_is_directory
            == (wanted.planner.metadata.kind is Directory)
            && answer.request.destination_is_directory == (occupant.kind is Directory)),
        !wanted.planner.interactive ==> step matches PlanStep::Done(SourcePlan::Failed(_)),
{
}

/// Where the destination is the source itself, a copy is made beside it under
/// another name, and a move changes nothing.
pub proof fn lemma_a_source_is_never_put_over_itself(
    wanted: TargetWanted,
    occupant: Metadata,
    step: PlanStep,
)
    requires
        wanted.follows(Lookup::Found(occupant), step),
        one_object(occupant, wanted.planner.metadata),
    ensures
        wanted.planner.mode == TransferMode::Copy ==> match wanted.target@.file_name() {
            Some(name) => step matches PlanStep::FindName(search) && search.planner
                == wanted.planner && search.name@ == name && search.number == 2,
            None => step matches PlanStep::Done(SourcePlan::Failed(_)),
        },
        wanted.planner.mode == TransferMode::Move ==> if wanted.target@
            == wanted.planner.source@ {
            step == PlanStep::Done(SourcePlan::AlreadyInPlace)
        } else {
            step matches PlanStep::Done(SourcePlan::Failed(_))
        },
{
}

/// What was answered is what happens: a source that was declined is skipped, a
/// folder joins a folder only when it is copied, anything else that may be
/// replaced is, and another name is looked at before it is used.
pub proof fn lemma_the_answer_is_what_happens(
    wanted: AnswerWanted,
    response: ConflictResponse,
    step: PlanStep,
)
    requires
        wanted.follows(response, step),
    ensures
        response is Skip ==> step == PlanStep::Done(SourcePlan::Skip),
        response is Cancel ==> step == PlanStep::Done(SourcePlan::Cancel),
        response is Replace ==> {
            let folders = wanted.request.source_is_directory
                && wanted.request.destination_is_directory;
            &&& !folders ==> step == PlanStep::Done(
                SourcePlan::Replace(wanted.request.destination),
            )
            &&& folders && wanted.planner.mode == TransferMode::Copy ==> step == PlanStep::Done(
                SourcePlan::Merge(wanted.request.destination),
            )
            &&& folders && wanted.planner.mode == TransferMode::Move ==> (step matches
                PlanStep::Done(SourcePlan::Failed(_)))
        },
        response is AutoRename ==> match wanted.request.destination@.file_name() {
            Some(name) => step matches PlanStep::FindName(search) && search.planner
                == wanted.planner && search.name@ == name && search.number == 2,
            None => step matches PlanStep::Done(SourcePlan::Failed(_)),
        },
        response matches ConflictResponse::Rename(name) ==> {
            &&& (step matches PlanStep::Inspect(next) ==> next.planner == wanted.planner
                && next.target@ == wanted.planner.destination_dir@.join(name@))
            &&& (step is Inspect || (step matches PlanStep::Done(SourcePlan::Failed(_))))
            &&& (name_refusal(name@) is None && wanted.attempts == 0 ==> step is Inspect)
            &&& (name_refusal(name@) is Some ==> (step matches PlanStep::Done(
                SourcePlan::Failed(_),
            )))
        },
{
}

/// A name that is tried is in the destination, and is used exactly where
/// nothing has it.
pub proof fn lemma_only_a_free_name_is_used(wanted: NameWanted, found: Lookup, step: PlanStep)
    requires
        wanted.follows(found, step),
    ensures
        found is Missing <==> step matches PlanStep::Done(SourcePlan::Transfer(_)),
        step matches PlanStep::Done(SourcePlan::Transfer(target)) ==> target@
            == wanted.planner.destination_dir@.join(
            numbered(
                wanted.name@,
                wanted.number as nat,
                wanted.planner.metadata.kind is Directory,
            ),
        ),
        step matches PlanStep::FindName(next) ==> next.number == wanted.number + 1 && next.name
            == wanted.name && next.planner == wanted.planner,
{
}

proof fn lemma_extension_begins_at_the_last_dot(stem: Seq<u8>, extension: Seq<u8>, end: int)
    requires
        stem.len() > 0,
        extension.len() > 0,
        extension[0] == 46,
        forall|i: int| 0 < i < extension.len() ==> #[trigger] extension[i] != 46,
        stem.len() < end <= stem.len() + extension.len(),
    ensures
        extension_start(stem + extension, end) == stem.len(),
    decreases end,
{
    let name = stem + extension;
    assert(name[end - 1] == extension[end - 1 - stem.len()]);
    if end - 1 > stem.len() {
        lemma_extension_begins_at_the_last_dot(stem, extension, end - 1);
    }
}

proof fn lemma_no_extension(name: Seq<u8>, end: int)
    requires
        forall|i: int| 0 < i < name.len() ==> #[trigger] name[i] != 46,
        end <= name.len(),
    ensures
        extension_start(name, end) == name.len(),
    decreases end,
{
    if end > 1 {
        lemma_no_extension(name, end - 1);
    }
}

/// `{stem} ({number}){extension}`: a number goes before what follows the last
/// dot of a file's name, so that the file keeps its type.
pub proof fn lemma_numbered_files_keep_their_extension(
    stem: Seq<u8>,
    extension: Seq<u8>,
    number: nat,
)
    requires
        stem.len() > 0,
        extension.len() > 0,
        extension[0] == 46,
        forall|i: int| 0 < i < extension.len() ==> #[trigger] extension[i] != 46,
    ensures
        numbered(stem + extension, number, false) == stem + seq![32u8, 40] + decimal_bytes(number)
            + seq![41u8] + extension,
{
    let name = stem + extension;
    lemma_extension_begins_at_the_last_dot(stem, extension, name.len() as int);
    assert(name.take(stem.len() as int) =~= stem);
    assert(name.skip(stem.len() as int) =~= extension);
}

/// `{name} ({number})`: folders, and files without an extension, get a number
/// at the end.
pub proof fn lemma_other_numbers_come_last(name: Seq<u8>, number: nat, is_directory: bool)
    requires
        is_directory || forall|i: int| 0 < i < name.len() ==> #[trigger] name[i] != 46,
    ensures
        numbered(name, number, is_directory) == name + seq![32u8, 40] + decimal_bytes(number)
            + seq![41u8],
{
    if !is_directory {
        lemma_no_extension(name, name.len() as int);
    }
    assert(name.take(name.len() as int) =~= name);
    assert(name.skip(name.len() as int) =~= Seq::empty());
    assert(numbered(name, number, is_directory) =~= name + seq![32u8, 40] + decimal_bytes(number)
        + seq![41u8]);
}

/// A plan is carried out as it was made: a source is copied by a copy and moved
/// by a move, what is to be replaced is moved aside first, and everything else
/// is written down as what it is and touches nothing.
pub proof fn lemma_the_plan_is_carried_out(wanted: PlanWanted, plan: SourcePlan, step: WorkStep)
    requires
        wanted.follows(plan, step),
    ensures
        plan matches SourcePlan::Transfer(target) ==> match wanted.transfer().mode {
            TransferMode::Copy => step matches WorkStep::Copy(work) && work.to() == target
                && work.aside() is None && work.transfer() == wanted.transfer(),
            TransferMode::Move => step matches WorkStep::Move(work) && work.to() == target
                && work.aside() is None && work.transfer() == wanted.transfer(),
        },
        plan matches SourcePlan::Replace(target) ==> step matches WorkStep::Quarantine(work)
            && work.to() == target && work.transfer() == wanted.transfer(),
        plan matches SourcePlan::Merge(target) ==> step matches WorkStep::Merge(work) && work.to()
            == target && work.transfer() == wanted.transfer(),
        plan is Skip || plan is Cancel || plan is AlreadyInPlace || plan is Failed
            ==> step is Next,
        plan is Skip ==> (step matches WorkStep::Next(next) && next@.skipped
            == wanted.transfer().skipped.push(wanted.transfer().current()) && next@.completed
            == wanted.transfer().completed && next@.failures == wanted.transfer().failures),
        plan is AlreadyInPlace ==> (step matches WorkStep::Next(next) && next@.already_in_place
            == wanted.transfer().already_in_place.push(wanted.transfer().current())
            && next@.completed == wanted.transfer().completed && next@.failures
            == wanted.transfer().failures),
        plan is Cancel ==> (step matches WorkStep::Next(next) && next@.cancelled
            == wanted.transfer().cancelled + wanted.transfer().sources.skip(
            wanted.transfer().index as int,
        ) && next@.completed == wanted.transfer().completed),
        plan matches SourcePlan::Failed(message) ==> (step matches WorkStep::Next(next)
            && next@.failures == wanted.transfer().failures.push(
            PathFailure { path: wanted.transfer().current(), message },
        ) && next@.completed == wanted.transfer().completed),
{
}

/// A source that arrived is written down with where it went, and everything
/// completed before stays written down.
pub proof fn lemma_what_arrived_is_written_down(
    before: TransferModel,
    copied: CopiedItem,
    record: Option<MoveRecord>,
    displaced: Option<ReplacedItem>,
    bytes: u64,
    to: crate::path::PathBuf,
)
    ensures
        before.settling_copy(copied, displaced, bytes).dropping(copied.dropped).completing(
            to,
        ).completed == before.completed.push(
            CompletedTransfer { source: before.current(), destination: to },
        ),
        before.settling_move(record, displaced, bytes).completing(to).completed
            == before.completed.push(
            CompletedTransfer { source: before.current(), destination: to },
        ),
        before.settling_copy(copied, displaced, bytes).failures == before.failures,
        before.settling_move(record, displaced, bytes).failures == before.failures,
        !copied.overflowed && copied.undoable && !before.copied_created.unavailable
            ==> before.settling_copy(copied, displaced, bytes).copied_created.entries
            == before.copied_created.entries + copied.created@,
        !copied.overflowed && copied.undoable && !before.copied_sources.unavailable
            ==> before.settling_copy(copied, displaced, bytes).copied_sources.entries
            == before.copied_sources.entries + copied.sources@,
        record matches Some(moved) ==> before.settling_move(record, displaced, bytes).moved
            == before.moved.push(moved),
{
}

/// What a copy displaced is either held, to be put back, or released, never
/// both and never neither; and nothing held before is lost on the way.
pub proof fn lemma_nothing_displaced_by_a_copy_is_lost(
    before: TransferModel,
    copied: CopiedItem,
    displaced: Option<ReplacedItem>,
    bytes: u64,
)
    ensures
        before.settling_copy(copied, displaced, bytes).replaced.to_multiset().add(
            before.released_by_copy(copied, displaced, bytes).to_multiset(),
        ) == before.replaced.to_multiset().add(
            match displaced {
                Some(item) => seq![item].to_multiset(),
                None => Seq::<ReplacedItem>::empty().to_multiset(),
            },
        ),
        !copied.overflowed && copied.undoable && !before.copied_created.unavailable
            && before.replaced_bytes + bytes <= before.budget.replacement_undo_byte_limit ==> (
        displaced matches Some(item) ==> before.settling_copy(
            copied,
            displaced,
            bytes,
        ).replaced == before.replaced.push(item)),
{
    broadcast use vstd::seq_lib::group_to_multiset_ensures;

    let held = before.settling_copy(copied, displaced, bytes).replaced;
    let released = before.released_by_copy(copied, displaced, bytes);
    let nothing = Seq::<ReplacedItem>::empty();
    match displaced {
        Some(item) => {
            assert(nothing.push(item) =~= seq![item]);
            assert(held.to_multiset().add(released.to_multiset())
                =~= before.replaced.to_multiset().add(seq![item].to_multiset()));
        },
        None => {
            assert(held.to_multiset().add(released.to_multiset())
                =~= before.replaced.to_multiset().add(nothing.to_multiset()));
        },
    }
}

/// The same of a move.
pub proof fn lemma_nothing_displaced_by_a_move_is_lost(
    before: TransferModel,
    record: Option<MoveRecord>,
    displaced: Option<ReplacedItem>,
    bytes: u64,
)
    ensures
        before.settling_move(record, displaced, bytes).replaced.to_multiset().add(
            before.released_by_move(record, displaced, bytes).to_multiset(),
        ) == before.replaced.to_multiset().add(
            match displaced {
                Some(item) => seq![item].to_multiset(),
                None => Seq::<ReplacedItem>::empty().to_multiset(),
            },
        ),
        record is Some && before.replaced_bytes + bytes
            <= before.budget.replacement_undo_byte_limit ==> (displaced matches Some(item)
            ==> before.settling_move(record, displaced, bytes).replaced == before.replaced.push(
            item,
        )),
{
    broadcast use vstd::seq_lib::group_to_multiset_ensures;

    let held = before.settling_move(record, displaced, bytes).replaced;
    let released = before.released_by_move(record, displaced, bytes);
    let nothing = Seq::<ReplacedItem>::empty();
    match displaced {
        Some(item) => {
            assert(nothing.push(item) =~= seq![item]);
            assert(held.to_multiset().add(released.to_multiset())
                =~= before.replaced.to_multiset().add(seq![item].to_multiset()));
        },
        None => {
            assert(held.to_multiset().add(released.to_multiset())
                =~= before.replaced.to_multiset().add(nothing.to_multiset()));
        },
    }
}

/// Where a source did not arrive, what was moved aside for it is to go back,
/// and the failure is written down.
pub proof fn lemma_a_failed_source_gives_back_what_it_displaced(
    before: TransferModel,
    displaced: Option<ReplacedItem>,
    error: String,
    step: FailStep,
)
    requires
        fails_with(before, displaced, error, step),
    ensures
        displaced matches Some(item) ==> (step matches FailStep::Restore(wanted) && wanted.aside()
            == item && wanted.transfer() == before),
        displaced is None ==> (step matches FailStep::Next(next) && next@.failures
            == before.failures.push(PathFailure { path: before.current(), message: error })
            && next@.completed == before.completed && next@.index == before.index + 1),
{
}

/// A source goes into the destination under its own name, and is looked at
/// there first.
pub proof fn lemma_sources_keep_their_names(
    books: TransferModel,
    wanted: PlanWanted,
    destination_dir: crate::path::PathBuf,
    found: Result<Metadata, String>,
    step: PlanStep,
)
    requires
        books.plans(wanted),
        begins_plan(
            books.current(),
            destination_dir,
            wanted.to(),
            books.mode,
            books.interactive,
            found,
            step,
        ),
    ensures
        books.current()@.file_name() matches Some(name) && wanted.to()@ == books.destination@.join(
            name,
        ),
        found is Ok <==> step is Inspect,
        step matches PlanStep::Inspect(target) ==> target.target == wanted.to()
            && target.planner.source == books.current() && target.planner.mode == books.mode
            && target.planner.interactive == books.interactive && target.planner.destination_dir
            == destination_dir && found == Ok::<Metadata, String>(target.planner.metadata),
        found is Err ==> step matches PlanStep::Done(SourcePlan::Failed(_)),
{
}

/// A finished transfer says everything it did, and holds what it displaced in
/// its record or lets go of it, never both and never neither.
pub proof fn lemma_a_finished_transfer_says_what_it_did(
    finished: FinishedTransfer,
    books: TransferModel,
)
    requires
        reports(finished, books),
    ensures
        finished.outcome.completed@ == books.completed,
        finished.outcome.failures@ == books.failures,
        finished.outcome.skipped@ == books.skipped,
        finished.outcome.already_in_place@ == books.already_in_place,
        finished.outcome.cancelled@ == books.cancelled,
        finished.outcome.touched == books.touched,
        finished.outcome.dropped == books.dropped,
        finished.outcome.operation is None ==> finished.release@ == books.replaced,
        finished.outcome.operation is Some ==> finished.release@.len() == 0,
        books.mode is Move ==> (finished.outcome.operation is Some <==> books.moved.len() > 0),
        books.mode is Copy ==> (finished.outcome.operation is Some <==> books.copied_created.entries.len()
            > 0 || books.merged_created.entries.len() > 0),
        finished.outcome.operation matches Some(operation) ==> match operation {
            OperationRecord::Copy { sources, destination, created, replaced, merged } => {
                &&& books.mode is Copy
                &&& sources@ == books.copied_sources.entries
                &&& destination == books.destination
                &&& created@ == books.copied_created.entries
                &&& replaced@ == books.replaced
                &&& merged@ == books.merged_created.entries
            },
            OperationRecord::Move { transfers, replaced } => {
                &&& books.mode is Move
                &&& transfers@ == books.moved
                &&& replaced@ == books.replaced
            },
            _ => false,
        },
        finished.outcome.undo_unavailable <==> books.copied_created.unavailable
            || books.merged_created.unavailable || books.move_undo_unavailable
            || books.replacement_undo_unavailable,
{
}

/// Giving up leaves the current source and everything after it undone, and
/// nothing before it.
pub proof fn lemma_giving_up_leaves_the_rest(books: TransferModel)
    requires
        books.index <= books.sources.len(),
    ensures
        books.cancelling().cancelled.len() == books.cancelled.len() + books.sources.len()
            - books.index,
        forall|i: int| #![trigger books.sources[i]]
            books.index <= i < books.sources.len() ==> books.cancelling().cancelled[i - books.index
                + books.cancelled.len()] == books.sources[i],
        books.cancelling().completed == books.completed,
        books.cancelling().failures == books.failures,
        books.cancelling().replaced == books.replaced,
{
}

/// What a merge added is kept to be taken back, all of it or none.
pub proof fn lemma_what_a_merge_added_is_kept(books: TransferModel, outcome: MergeOutcome)
    ensures
        outcome.undoable && !books.merged_created.unavailable ==> books.merging(
            outcome,
        ).merged_created.entries == books.merged_created.entries + outcome.created@,
        !outcome.undoable ==> books.merging(outcome).merged_created.unavailable && books.merging(
            outcome,
        ).merged_created.entries.len() == 0,
        books.merging(outcome).completed == books.completed,
        books.merging(outcome).replaced == books.replaced,
        outcome.created@.len() > 0 ==> books.merging(outcome).touched,
{
}

} // verus!
