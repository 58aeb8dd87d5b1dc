//! Redoing what was undone.
//!
//! An undo hands back a record, and redoing that record on a disk nobody has
//! touched meanwhile commits, shows the same path, and leaves the same names,
//! kinds, contents and permission bits as before the undo.

use vstd::prelude::*;

use crate::fsops::copy::{published_at, CopiedItem};
use crate::fsops::history::{move_ends, repeated, RedoTransfer, RedoTransferStep};
use crate::fsops::identity::Metadata;
use crate::fsops::journal::{
    move_sources, CommittedOperation, MoveRecord, MutationOutcome, OperationRecord, PathSnapshot,
};
use crate::fsops::local::{is_entry_name, Lookup};
use crate::fsops::moving::Moved;
use crate::fsops::mutations::{
    mode_record, mode_reversal, rename_record, rename_reversal, DirectoryToCreate, FileToCreate,
    ModeReady, Pinned, RenameReady,
};
use crate::fsops::plan::{begins_plan, PlanStep, SourcePlan, TargetWanted};
use crate::fsops::replica::{
    copied_in, lemma_finished_copy_is_a_replica, lemma_finished_copy_is_whole,
    lemma_finished_copy_records_root_first, lemma_published_replica, lemma_rebased_keeps_names,
    origin, published, recorded, replica, sound, unbegun, CopyState,
};
use crate::fsops::snapshots::{inside_recorded, outermost, rebased, strictly_inside};
use crate::fsops::transfer::{
    fresh, reports, FinishedTransfer, PlanWanted, Transfer, TransferMode, TransferModel, WorkStep,
};
use crate::fsops::tree::{
    can_move, can_rename, lemma_above_one_path, lemma_from_is_vacant, lemma_moves_are_taken_back,
    lemma_rename_back, looks_like, moved, renamed, taken_back, undone, without_tree, Objects, Thing,
};
use crate::fsops::union::{below, looked, rest_of, tree_at};
use crate::path::{lemma_join_then_file_name, PathBuf, PathModel};

verus! {

/// Where a source goes in a directory when it keeps its name.
pub open spec fn target_in(directory: PathModel, source: PathModel) -> PathModel {
    directory.join(source.file_name().unwrap())
}

/// A disk after sources were moved into a directory, in order.
pub open spec fn moved_into(
    objects: Objects,
    sources: Seq<PathBuf>,
    directory: PathModel,
) -> Objects
    decreases sources.len(),
{
    if sources.len() == 0 {
        objects
    } else {
        renamed(
            moved_into(objects, sources.drop_last(), directory),
            sources.last()@,
            target_in(directory, sources.last()@),
        )
    }
}

/// Whether everything moved keeps its name in one directory.
pub open spec fn keeps_names(transfers: Seq<MoveRecord>, directory: PathModel) -> bool {
    forall|i: int|
        0 <= i < transfers.len() ==> (#[trigger] transfers[i]).destination@ == target_in(
            directory,
            transfers[i].source@,
        )
}

proof fn lemma_moved_into_is_moved(
    objects: Objects,
    transfers: Seq<MoveRecord>,
    sources: Seq<PathBuf>,
    directory: PathModel,
)
    requires
        keeps_names(transfers, directory),
        sources.len() == transfers.len(),
        forall|i: int| 0 <= i < sources.len() ==> #[trigger] sources[i] == transfers[i].source,
    ensures
        moved_into(objects, sources, directory) == moved(objects, transfers),
    decreases transfers.len(),
{
    if transfers.len() > 0 {
        let rest = transfers.drop_last();
        assert forall|i: int| 0 <= i < rest.len() implies (#[trigger] rest[i]).destination@
            == target_in(directory, rest[i].source@) by {
            assert(rest[i] == transfers[i]);
        }
        assert forall|i: int| 0 <= i < rest.len() implies #[trigger] sources.drop_last()[i]
            == rest[i].source by {
            assert(sources[i] == transfers[i].source);
        }
        lemma_moved_into_is_moved(objects, rest, sources.drop_last(), directory);
        assert(sources[sources.len() - 1] == transfers[transfers.len() - 1].source);
        assert(transfers[transfers.len() - 1].destination@ == target_in(
            directory,
            transfers.last().source@,
        ));
    }
}

/// Redoing moves that were undone leaves the disk as it was before the undo:
/// `before` is the disk the moves were made on, `record` holds the moves as
/// the undo recorded them, and `redo` is what redoing that record asks for.
pub proof fn lemma_moves_are_redone(
    before: Objects,
    transfers: Seq<MoveRecord>,
    record: Seq<MoveRecord>,
    redo: RedoTransfer,
)
    requires
        can_move(before, transfers),
        keeps_names(transfers, redo.destination@),
        move_ends(record) == move_ends(transfers),
        redo.sources@ == move_sources(record),
    ensures
        taken_back(moved(before, transfers), transfers) == before,
        moved_into(
            taken_back(moved(before, transfers), transfers),
            redo.sources@,
            redo.destination@,
        ) == moved(before, transfers),
{
    lemma_moves_are_taken_back(before, transfers);
    assert(record.len() == move_ends(record).len());
    assert(transfers.len() == move_ends(transfers).len());
    assert forall|i: int| 0 <= i < redo.sources@.len() implies #[trigger] redo.sources@[i]
        == transfers[i].source by {
        assert(move_ends(record)[i] == (record[i].source, record[i].destination));
        assert(move_ends(transfers)[i] == (transfers[i].source, transfers[i].destination));
    }
    lemma_moved_into_is_moved(before, transfers, redo.sources@, redo.destination@);
}

/// Whether what a transfer asked for was done, and where it is then. Only work
/// that was asked for is done; a source that cannot be transferred is not.
pub open spec fn works(work: WorkStep, next: Transfer) -> bool {
    match work {
        WorkStep::Move(wanted) => exists|moved: Moved, bytes: u64| #[trigger]
            wanted.settles(moved, bytes, next),
        WorkStep::Copy(wanted) => exists|copied: CopiedItem, bytes: u64| #[trigger]
            wanted.settles(copied, bytes, next),
        WorkStep::Next(other) => other == next,
        WorkStep::Quarantine(_) | WorkStep::Merge(_) => true,
    }
}

/// Whether a transfer went on by one source, told what is on the disk, with the
/// work it asked for done.
pub open spec fn takes_turn(
    disk: Objects,
    before: TransferModel,
    after: TransferModel,
    wanted: PlanWanted,
    metadata: Metadata,
    inspect: TargetWanted,
    found: Lookup,
    plan: SourcePlan,
    work: WorkStep,
    next: Transfer,
) -> bool {
    &&& before.plans(wanted)
    &&& begins_plan(
        before.current(),
        before.destination,
        wanted.to(),
        before.mode,
        before.interactive,
        Ok::<Metadata, String>(metadata),
        PlanStep::Inspect(inspect),
    )
    &&& looked(disk, inspect.target@, found)
    &&& inspect.follows(found, PlanStep::Done(plan))
    &&& wanted.follows(plan, work)
    &&& works(work, next)
    &&& next@ == after
}

/// Whether a transfer went on from one state to the next.
pub open spec fn turns(disk: Objects, run: Seq<TransferModel>, at: int) -> bool {
    exists|
        wanted: PlanWanted,
        metadata: Metadata,
        inspect: TargetWanted,
        found: Lookup,
        plan: SourcePlan,
        work: WorkStep,
        next: Transfer,
    | #[trigger]
        takes_turn(
            disk,
            run[at],
            run[at + 1],
            wanted,
            metadata,
            inspect,
            found,
            plan,
            work,
            next,
        )
}

/// Whether the current source of a transfer was moved to where it was to go.
pub open spec fn moves_on(
    before: TransferModel,
    after: TransferModel,
    to: PathBuf,
    moved: Moved,
    bytes: u64,
) -> bool {
    &&& before.mode is Move
    &&& after == before.settling_move(moved.record, None, bytes).dropping(
        moved.dropped,
    ).completing(to)
}

/// Whether the current source of a transfer was copied to where it was to go.
pub open spec fn copies_on(
    before: TransferModel,
    after: TransferModel,
    to: PathBuf,
    copied: CopiedItem,
    bytes: u64,
) -> bool {
    &&& before.mode is Copy
    &&& after == before.settling_copy(copied, None, bytes).dropping(copied.dropped).completing(to)
}

/// Whether a transfer has gone on by one source, which nothing was in the way
/// of and which arrived.
pub open spec fn goes_well(before: TransferModel, after: TransferModel) -> bool {
    &&& before.index < before.sources.len()
    &&& before.current()@.file_name() is Some
    &&& exists|to: PathBuf|
        {
            &&& #[trigger] to@ == target_in(before.destination@, before.current()@)
            &&& {
                ||| exists|moved: Moved, bytes: u64| moves_on(before, after, to, moved, bytes)
                ||| exists|copied: CopiedItem, bytes: u64|
                    copies_on(before, after, to, copied, bytes)
            }
        }
}

/// A source whose destination is free is transferred there.
pub proof fn lemma_free_destination_is_taken(disk: Objects, run: Seq<TransferModel>, at: int)
    requires
        turns(disk, run, at),
        !disk.dom().contains(target_in(run[at].destination@, run[at].current()@)),
    ensures
        goes_well(run[at], run[at + 1]),
{
    let before = run[at];
    let after = run[at + 1];
    let (wanted, metadata, inspect, found, plan, work, next) = choose|
        wanted: PlanWanted,
        metadata: Metadata,
        inspect: TargetWanted,
        found: Lookup,
        plan: SourcePlan,
        work: WorkStep,
        next: Transfer,
    | #[trigger]
        takes_turn(
            disk,
            before,
            after,
            wanted,
            metadata,
            inspect,
            found,
            plan,
            work,
            next,
        );
    let to = wanted.to();
    assert(inspect.target == to);
    assert(found is Missing);
    assert(plan == SourcePlan::Transfer(to));
    assert(to@ == target_in(before.destination@, before.current()@));
    match work {
        WorkStep::Move(working) => {
            let (moved, bytes) = choose|moved: Moved, bytes: u64| #[trigger]
                working.settles(moved, bytes, next);
            assert(moves_on(before, after, to, moved, bytes));
        },
        WorkStep::Copy(working) => {
            let (copied, bytes) = choose|copied: CopiedItem, bytes: u64| #[trigger]
                working.settles(copied, bytes, next);
            assert(copies_on(before, after, to, copied, bytes));
        },
        _ => {},
    }
}

/// Whether a transfer went through these states, one source after another,
/// with nothing in its way.
pub open spec fn goes_through(
    run: Seq<TransferModel>,
    sources: Seq<PathBuf>,
    destination: PathBuf,
    mode: TransferMode,
) -> bool {
    &&& run.len() == sources.len() + 1
    &&& run[0] == fresh(sources, destination, mode, false)
    &&& forall|i: int| 0 <= i < sources.len() ==> #[trigger] well_at(run, i)
}

/// Whether a transfer went well from one state to the next.
pub open spec fn well_at(run: Seq<TransferModel>, at: int) -> bool {
    goes_well(run[at], run[at + 1])
}

/// Where a transfer is once the sources before one went well.
proof fn lemma_state_so_far(
    run: Seq<TransferModel>,
    sources: Seq<PathBuf>,
    destination: PathBuf,
    mode: TransferMode,
    at: int,
)
    requires
        run.len() == sources.len() + 1,
        run[0] == fresh(sources, destination, mode, false),
        0 <= at <= sources.len(),
        forall|i: int| 0 <= i < at ==> #[trigger] well_at(run, i),
    ensures
        run[at].sources == sources,
        run[at].destination == destination,
        run[at].index == at,
        run[at].failures.len() == 0,
        run[at].completed.len() == at,
        forall|i: int|
            0 <= i < at ==> (#[trigger] run[at].completed[i]).source == sources[i]
                && run[at].completed[i].destination@ == target_in(destination@, sources[i]@),
    decreases at,
{
    if at > 0 {
        lemma_state_so_far(run, sources, destination, mode, at - 1);
        let before = run[at - 1];
        let after = run[at];
        assert(well_at(run, at - 1));
        assert forall|i: int| 0 <= i < at implies (#[trigger] after.completed[i]).source
            == sources[i] && after.completed[i].destination@ == target_in(
            destination@,
            sources[i]@,
        ) by {
            if i < at - 1 {
                assert(after.completed[i] == before.completed[i]);
            }
        }
    }
}

/// A transfer that nothing is in the way of completes every source, each under
/// its own name in the destination.
pub proof fn lemma_undisturbed_transfer_completes(
    run: Seq<TransferModel>,
    sources: Seq<PathBuf>,
    destination: PathBuf,
    mode: TransferMode,
    finished: FinishedTransfer,
)
    requires
        goes_through(run, sources, destination, mode),
        reports(finished, run.last()),
    ensures
        finished.outcome.failures@.len() == 0,
        finished.outcome.completed@.len() == sources.len(),
        forall|i: int|
            0 <= i < sources.len() ==> (#[trigger] finished.outcome.completed@[i]).source
                == sources[i] && finished.outcome.completed@[i].destination@ == target_in(
                destination@,
                sources[i]@,
            ),
{
    lemma_state_so_far(run, sources, destination, mode, sources.len() as int);
}

/// Redoing a move or a copy that nothing is in the way of commits, and shows
/// the same path as the operation did.
proof fn lemma_redone_transfer_commits(
    operation: OperationRecord,
    redo: RedoTransfer,
    run: Seq<TransferModel>,
    finished: FinishedTransfer,
    step: RedoTransferStep,
)
    requires
        goes_through(run, redo.sources@, redo.destination, redo.mode),
        reports(finished, run.last()),
        repeated(redo, finished.outcome, step),
        redo.sources@.len() > 0,
        operation.result_path() == target_in(redo.destination@, redo.sources@[0]@),
    ensures
        step matches RedoTransferStep::Done(MutationOutcome::Committed(committed))
            && committed.path@ == operation.result_path() && committed.record
            == finished.outcome.operation,
{
    lemma_undisturbed_transfer_completes(
        run,
        redo.sources@,
        redo.destination,
        redo.mode,
        finished,
    );
    assert(finished.outcome.completed@[0].source == redo.sources@[0]);
}

/// Whether what is at a path of the copy comes from a source.
pub open spec fn copied_from(
    base: Objects,
    source: PathModel,
    directory: PathModel,
    path: PathModel,
) -> bool {
    let target = target_in(directory, source);
    path == below(target, rest_of(path, target)) && base.dom().contains(
        origin(path, source, target),
    )
}

/// Whether objects were added that are exactly copies of some sources, each
/// under its own name in a directory.
pub open spec fn copies_of(
    base: Objects,
    added: Objects,
    sources: Seq<PathBuf>,
    directory: PathModel,
) -> bool {
    &&& forall|path: PathModel| #[trigger]
        added.dom().contains(path) <==> exists|i: int|
            0 <= i < sources.len() && copied_from(base, #[trigger] sources[i]@, directory, path)
    &&& forall|path: PathModel, i: int|
        added.dom().contains(path) && 0 <= i < sources.len() && copied_from(
            base,
            #[trigger] sources[i]@,
            directory,
            path,
        ) ==> (#[trigger] added[path]).like(
            base[origin(path, sources[i]@, target_in(directory, sources[i]@))],
        )
}

/// Everything in some parts together.
pub open spec fn together(parts: Seq<Objects>) -> Objects
    decreases parts.len(),
{
    if parts.len() == 0 {
        Map::empty()
    } else {
        together(parts.drop_last()).union_prefer_right(parts.last())
    }
}

/// Whether sources have names, and no two the same.
pub open spec fn named_apart(sources: Seq<PathBuf>) -> bool {
    &&& forall|i: int|
        0 <= i < sources.len() ==> ((#[trigger] sources[i])@.file_name() matches Some(name)
            && is_entry_name(name))
    &&& forall|i: int, j: int|
        0 <= i < sources.len() && 0 <= j < sources.len() && i != j ==> (
        #[trigger] sources[i])@.file_name() != (#[trigger] sources[j])@.file_name()
}

/// What is below two destinations of one directory is below the same one.
proof fn lemma_targets_are_apart(
    sources: Seq<PathBuf>,
    directory: PathModel,
    path: PathModel,
    i: int,
    j: int,
)
    requires
        named_apart(sources),
        0 <= i < sources.len(),
        0 <= j < sources.len(),
        path == below(
            target_in(directory, sources[i]@),
            rest_of(path, target_in(directory, sources[i]@)),
        ),
        path == below(
            target_in(directory, sources[j]@),
            rest_of(path, target_in(directory, sources[j]@)),
        ),
    ensures
        i == j,
{
    let left = sources[i]@.file_name().unwrap();
    let right = sources[j]@.file_name().unwrap();
    lemma_join_then_file_name(directory, left);
    lemma_join_then_file_name(directory, right);
    let at = directory.names.len() as int;
    assert(path.names[at] == left);
    assert(path.names[at] == right);
}

/// What is in some parts together is in one of them, and as it is there, where
/// no two hold the same path.
proof fn lemma_together(parts: Seq<Objects>, path: PathModel)
    requires
        forall|i: int, j: int|
            0 <= i < parts.len() && 0 <= j < parts.len() && i != j ==> !(
            #[trigger] parts[i].dom().contains(path) && #[trigger] parts[j].dom().contains(path)),
    ensures
        together(parts).dom().contains(path) <==> exists|i: int|
            0 <= i < parts.len() && #[trigger] parts[i].dom().contains(path),
        forall|i: int|
            0 <= i < parts.len() && #[trigger] parts[i].dom().contains(path) ==> together(
                parts,
            )[path] == parts[i][path],
    decreases parts.len(),
{
    if parts.len() > 0 {
        let front = parts.drop_last();
        assert forall|i: int, j: int|
            0 <= i < front.len() && 0 <= j < front.len() && i != j implies !(
        #[trigger] front[i].dom().contains(path) && #[trigger] front[j].dom().contains(path)) by {
            assert(front[i] == parts[i]);
            assert(front[j] == parts[j]);
        }
        lemma_together(front, path);
        let last = parts.len() - 1;
        if together(parts).dom().contains(path) {
            if parts[last].dom().contains(path) {
            } else {
                let i = choose|i: int|
                    0 <= i < front.len() && #[trigger] front[i].dom().contains(path);
                assert(parts[i].dom().contains(path));
            }
        }
        assert forall|i: int| 0 <= i < parts.len() && #[trigger] parts[i].dom().contains(
            path,
        ) implies together(parts).dom().contains(path) && together(parts)[path]
            == parts[i][path] by {
            if i < last {
                assert(front[i].dom().contains(path));
                assert(!parts[last].dom().contains(path));
            }
        }
    }
}

/// Whether each part is a copy of the whole tree at a source, under its own
/// name in a directory.
pub open spec fn replicas(
    base: Objects,
    parts: Seq<Objects>,
    sources: Seq<PathBuf>,
    directory: PathModel,
) -> bool {
    &&& parts.len() == sources.len()
    &&& forall|i: int|
        0 <= i < parts.len() ==> replica(
            base,
            #[trigger] parts[i],
            sources[i]@,
            target_in(directory, sources[i]@),
        )
}

proof fn lemma_parts_are_apart(
    base: Objects,
    parts: Seq<Objects>,
    sources: Seq<PathBuf>,
    directory: PathModel,
    path: PathModel,
)
    requires
        named_apart(sources),
        replicas(base, parts, sources, directory),
    ensures
        forall|i: int, j: int|
            0 <= i < parts.len() && 0 <= j < parts.len() && i != j ==> !(
            #[trigger] parts[i].dom().contains(path) && #[trigger] parts[j].dom().contains(path)),
{
    assert forall|i: int, j: int|
        0 <= i < parts.len() && 0 <= j < parts.len() && i != j implies !(
    #[trigger] parts[i].dom().contains(path) && #[trigger] parts[j].dom().contains(path)) by {
        if parts[i].dom().contains(path) && parts[j].dom().contains(path) {
            assert(replica(base, parts[i], sources[i]@, target_in(directory, sources[i]@)));
            assert(replica(base, parts[j], sources[j]@, target_in(directory, sources[j]@)));
            lemma_targets_are_apart(sources, directory, path, i, j);
        }
    }
}

/// Copies of whole trees together are exactly the copies of their sources.
proof fn lemma_replicas_are_copies(
    base: Objects,
    parts: Seq<Objects>,
    sources: Seq<PathBuf>,
    directory: PathModel,
)
    requires
        named_apart(sources),
        replicas(base, parts, sources, directory),
    ensures
        copies_of(base, together(parts), sources, directory),
{
    let added = together(parts);
    assert forall|path: PathModel| #[trigger] added.dom().contains(path) == exists|i: int|
        0 <= i < sources.len() && copied_from(base, #[trigger] sources[i]@, directory, path) by {
        lemma_parts_are_apart(base, parts, sources, directory, path);
        lemma_together(parts, path);
        if added.dom().contains(path) {
            let i = choose|i: int| 0 <= i < parts.len() && #[trigger] parts[i].dom().contains(path);
            assert(replica(base, parts[i], sources[i]@, target_in(directory, sources[i]@)));
            assert(copied_from(base, sources[i]@, directory, path));
        }
        if exists|i: int|
            0 <= i < sources.len() && copied_from(base, #[trigger] sources[i]@, directory, path) {
            let i = choose|i: int|
                0 <= i < sources.len() && copied_from(
                    base,
                    #[trigger] sources[i]@,
                    directory,
                    path,
                );
            let target = target_in(directory, sources[i]@);
            assert(replica(base, parts[i], sources[i]@, target));
            assert(base.dom().contains(below(sources[i]@, rest_of(path, target))));
            assert(parts[i].dom().contains(path));
        }
    }
    assert forall|path: PathModel, i: int|
        added.dom().contains(path) && 0 <= i < sources.len() && copied_from(
            base,
            #[trigger] sources[i]@,
            directory,
            path,
        ) implies (#[trigger] added[path]).like(
        base[origin(path, sources[i]@, target_in(directory, sources[i]@))],
    ) by {
        let target = target_in(directory, sources[i]@);
        lemma_parts_are_apart(base, parts, sources, directory, path);
        lemma_together(parts, path);
        assert(replica(base, parts[i], sources[i]@, target));
        assert(base.dom().contains(below(sources[i]@, rest_of(path, target))));
        assert(parts[i].dom().contains(path));
    }
}

/// Two additions of the copies of the same sources look alike, and taking one
/// away leaves what was there.
proof fn lemma_copies_look_alike(
    base: Objects,
    added: Objects,
    again: Objects,
    sources: Seq<PathBuf>,
    directory: PathModel,
)
    requires
        copies_of(base, added, sources, directory),
        copies_of(base, again, sources, directory),
        base.dom().disjoint(added.dom()),
    ensures
        base.union_prefer_right(added).remove_keys(added.dom()) == base,
        looks_like(base.union_prefer_right(again), base.union_prefer_right(added)),
{
    assert(base.union_prefer_right(added).remove_keys(added.dom()) =~= base);
    assert(again.dom() =~= added.dom());
    let left = base.union_prefer_right(again);
    let right = base.union_prefer_right(added);
    assert(left.dom() =~= right.dom());
    assert forall|path: PathModel| #[trigger] left.dom().contains(path) implies left[path].like(
        right[path],
    ) by {
        if added.dom().contains(path) {
            let i = choose|i: int|
                0 <= i < sources.len() && copied_from(
                    base,
                    #[trigger] sources[i]@,
                    directory,
                    path,
                );
            let from = base[origin(path, sources[i]@, target_in(directory, sources[i]@))];
            assert(added[path].like(from));
            assert(again[path].like(from));
        }
    }
}

/// Whether a source was copied whole: a copy of it went through from its first
/// step to its last, told what is on the disk, lost nothing, and was published
/// under its own name in a directory.
pub open spec fn copied_whole(
    base: Objects,
    part: Objects,
    run: Seq<CopyState>,
    root: PathModel,
    source: PathModel,
    directory: PathModel,
) -> bool {
    &&& sound(base, source)
    &&& base.dom().contains(source)
    &&& copied_in(base, run, source, root)
    &&& run.last().copier.dropped.is_nothing()
    &&& part == published(run.last().staged, root, target_in(directory, source))
}

/// Whether every source was copied whole.
pub open spec fn all_copied_whole(
    base: Objects,
    parts: Seq<Objects>,
    runs: Seq<Seq<CopyState>>,
    roots: Seq<PathModel>,
    sources: Seq<PathBuf>,
    directory: PathModel,
) -> bool {
    &&& parts.len() == sources.len()
    &&& runs.len() == sources.len()
    &&& roots.len() == sources.len()
    &&& forall|i: int|
        0 <= i < sources.len() ==> copied_whole(
            base,
            #[trigger] parts[i],
            runs[i],
            roots[i],
            sources[i]@,
            directory,
        )
}

/// Sources that were copied from beginning to end are there as whole trees.
pub proof fn lemma_copied_sources_are_replicas(
    base: Objects,
    parts: Seq<Objects>,
    runs: Seq<Seq<CopyState>>,
    roots: Seq<PathModel>,
    sources: Seq<PathBuf>,
    directory: PathModel,
)
    requires
        all_copied_whole(base, parts, runs, roots, sources, directory),
    ensures
        replicas(base, parts, sources, directory),
{
    assert forall|i: int| 0 <= i < parts.len() implies replica(
        base,
        #[trigger] parts[i],
        sources[i]@,
        target_in(directory, sources[i]@),
    ) by {
        let source = sources[i]@;
        assert(copied_whole(base, parts[i], runs[i], roots[i], source, directory));
        lemma_finished_copy_is_a_replica(base, runs[i], source, roots[i]);
        lemma_published_replica(
            base,
            runs[i].last().staged,
            source,
            roots[i],
            target_in(directory, source),
        );
    }
}

/// Redoing a copy that was undone leaves the disk looking as it did before the
/// undo: the same names, kinds, contents and permission bits. `base` is the
/// disk without the copy, `first` how the copy was made, and `again` how
/// redoing it is.
pub proof fn lemma_copy_is_redone(
    base: Objects,
    added: Seq<Objects>,
    first: Seq<Seq<CopyState>>,
    first_roots: Seq<PathModel>,
    added_again: Seq<Objects>,
    again: Seq<Seq<CopyState>>,
    again_roots: Seq<PathModel>,
    sources: Seq<PathBuf>,
    directory: PathModel,
)
    requires
        named_apart(sources),
        all_copied_whole(base, added, first, first_roots, sources, directory),
        all_copied_whole(base, added_again, again, again_roots, sources, directory),
        base.dom().disjoint(together(added).dom()),
    ensures
        base.union_prefer_right(together(added)).remove_keys(together(added).dom()) == base,
        looks_like(
            base.union_prefer_right(together(added_again)),
            base.union_prefer_right(together(added)),
        ),
{
    lemma_copied_sources_are_replicas(base, added, first, first_roots, sources, directory);
    lemma_copied_sources_are_replicas(base, added_again, again, again_roots, sources, directory);
    lemma_replicas_are_copies(base, added, sources, directory);
    lemma_replicas_are_copies(base, added_again, sources, directory);
    lemma_copies_look_alike(base, together(added), together(added_again), sources, directory);
}

/// The destination of a copy that was undone is free again when its turn comes.
proof fn lemma_undone_target_is_free(
    base: Objects,
    added: Seq<Objects>,
    parts: Seq<Objects>,
    sources: Seq<PathBuf>,
    directory: PathModel,
    at: int,
)
    requires
        named_apart(sources),
        replicas(base, added, sources, directory),
        replicas(base, parts, sources, directory),
        base.dom().disjoint(together(added).dom()),
        0 <= at < sources.len(),
        base.dom().contains(sources[at]@),
    ensures
        !base.union_prefer_right(together(parts.take(at))).dom().contains(
            target_in(directory, sources[at]@),
        ),
{
    let source = sources[at]@;
    let target = target_in(directory, source);
    let none = Seq::<Seq<u8>>::empty();
    assert(below(source, none).names =~= source.names);
    assert(below(target, none).names =~= target.names);
    assert(rest_of(target, target) =~= none);
    // The copy held it, so the disk without the copy does not.
    assert(replica(base, added[at], source, target));
    assert(base.dom().contains(below(source, none)));
    assert(added[at].dom().contains(target));
    lemma_parts_are_apart(base, added, sources, directory, target);
    lemma_together(added, target);
    assert(!base.dom().contains(target));
    // And no copy made before is there.
    let before = parts.take(at);
    lemma_parts_are_apart(base, parts, sources, directory, target);
    assert forall|i: int, j: int|
        0 <= i < before.len() && 0 <= j < before.len() && i != j implies !(
    #[trigger] before[i].dom().contains(target) && #[trigger] before[j].dom().contains(target)) by {
        assert(before[i] == parts[i]);
        assert(before[j] == parts[j]);
    }
    lemma_together(before, target);
    assert(replica(base, parts[at], source, target));
    assert(parts[at].dom().contains(target));
    if together(before).dom().contains(target) {
        let i = choose|i: int| 0 <= i < before.len() && #[trigger] before[i].dom().contains(target);
        assert(parts[i].dom().contains(target));
        assert(parts[at].dom().contains(target));
    }
}

/// What copies recorded of their sources, one after another.
pub open spec fn all_seen(runs: Seq<Seq<CopyState>>) -> Seq<PathSnapshot>
    decreases runs.len(),
{
    if runs.len() == 0 {
        Seq::empty()
    } else {
        all_seen(runs.drop_last()) + runs.last().last().copier.sources.snapshots@
    }
}

/// What copies recorded of what they made, one after another.
pub open spec fn all_made(items: Seq<Seq<PathSnapshot>>) -> Seq<PathSnapshot>
    decreases items.len(),
{
    if items.len() == 0 {
        Seq::empty()
    } else {
        all_made(items.drop_last()) + items.last()
    }
}

/// Whether none of the sources lies inside another.
pub open spec fn unnested(sources: Seq<PathBuf>) -> bool {
    forall|i: int, j: int|
        0 <= i < sources.len() && 0 <= j < sources.len() && i != j ==> !strictly_inside(
            (#[trigger] sources[i])@,
            (#[trigger] sources[j])@,
        )
}

/// Whether an operation is the record of copies that displaced nothing and
/// were added to nothing, each under its source's own name.
pub open spec fn records_copies(
    operation: OperationRecord,
    runs: Seq<Seq<CopyState>>,
    roots: Seq<PathModel>,
    items: Seq<Seq<PathSnapshot>>,
    sources: Seq<PathBuf>,
    directory: PathModel,
) -> bool {
    &&& operation matches OperationRecord::Copy {
        sources: seen,
        destination,
        created,
        replaced,
        merged,
    }
    &&& destination@ == directory
    &&& seen@ == all_seen(runs)
    &&& created@ == all_made(items)
    &&& replaced@.len() == 0
    &&& merged@.len() == 0
    &&& items.len() == sources.len()
    &&& forall|i: int|
        0 <= i < sources.len() ==> recorded_fully(
            #[trigger] runs[i],
            roots[i],
            items[i],
            sources[i],
            directory,
        )
}

/// Whether a copy began with its source, recorded everything, and what it made
/// is recorded where it was published.
pub open spec fn recorded_fully(
    run: Seq<CopyState>,
    root: PathModel,
    item: Seq<PathSnapshot>,
    source: PathBuf,
    directory: PathModel,
) -> bool {
    &&& unbegun(run[0].copier.steps, source, root)
    &&& !run.last().copier.sources.overflowed
    &&& !run.last().copier.created.overflowed
    &&& published_at(
        run.last().copier.created.snapshots@,
        item,
        root,
        target_in(directory, source@),
    )
}

proof fn lemma_outermost_of_both(
    front: Seq<PathSnapshot>,
    back: Seq<PathSnapshot>,
    snapshots: Seq<PathSnapshot>,
)
    ensures
        outermost(front + back, snapshots) == outermost(front, snapshots) + outermost(
            back,
            snapshots,
        ),
    decreases back.len(),
{
    if back.len() == 0 {
        assert(front + back =~= front);
        assert(outermost(front + back, snapshots) =~= outermost(front, snapshots) + outermost(
            back,
            snapshots,
        ));
    } else {
        lemma_outermost_of_both(front, back.drop_last(), snapshots);
        assert((front + back).drop_last() =~= front + back.drop_last());
        assert((front + back).last() == back.last());
        assert(outermost(front + back, snapshots) =~= outermost(front, snapshots) + outermost(
            back,
            snapshots,
        ));
    }
}

/// Where only the first is outside of what is recorded, it is the outermost.
proof fn lemma_first_is_outermost(candidates: Seq<PathSnapshot>, snapshots: Seq<PathSnapshot>)
    requires
        candidates.len() > 0,
        !inside_recorded(snapshots, candidates[0].path@),
        forall|i: int|
            1 <= i < candidates.len() ==> inside_recorded(
                snapshots,
                (#[trigger] candidates[i]).path@,
            ),
    ensures
        outermost(candidates, snapshots) == seq![candidates[0].path],
    decreases candidates.len(),
{
    if candidates.len() == 1 {
        assert(candidates.drop_last() =~= Seq::empty());
        assert(outermost(candidates.drop_last(), snapshots) =~= Seq::empty());
        assert(outermost(candidates, snapshots) =~= seq![candidates[0].path]);
    } else {
        let front = candidates.drop_last();
        assert forall|i: int| 1 <= i < front.len() implies inside_recorded(
            snapshots,
            (#[trigger] front[i]).path@,
        ) by {
            assert(front[i] == candidates[i]);
        }
        lemma_first_is_outermost(front, snapshots);
        assert(inside_recorded(snapshots, candidates[candidates.len() - 1].path@));
    }
}

/// What was recorded of one source is among all that was recorded.
proof fn lemma_seen_is_among_all(runs: Seq<Seq<CopyState>>, at: int)
    requires
        0 <= at < runs.len(),
    ensures
        forall|i: int|
            0 <= i < runs[at].last().copier.sources.snapshots@.len() ==> all_seen(runs).contains(
                #[trigger] runs[at].last().copier.sources.snapshots@[i],
            ),
    decreases runs.len(),
{
    let seen = runs[at].last().copier.sources.snapshots@;
    let front = all_seen(runs.drop_last());
    let back = runs.last().last().copier.sources.snapshots@;
    if at < runs.len() - 1 {
        lemma_seen_is_among_all(runs.drop_last(), at);
        assert(runs.drop_last()[at] == runs[at]);
    }
    assert forall|i: int| 0 <= i < seen.len() implies all_seen(runs).contains(
        #[trigger] seen[i],
    ) by {
        if at < runs.len() - 1 {
            let k = choose|k: int| 0 <= k < front.len() && front[k] == seen[i];
            assert((front + back)[k] == seen[i]);
        } else {
            assert((front + back)[front.len() + i] == seen[i]);
        }
    }
}

/// All that was recorded was recorded of some source.
proof fn lemma_all_was_seen(runs: Seq<Seq<CopyState>>, at: int)
    requires
        0 <= at < all_seen(runs).len(),
    ensures
        exists|k: int|
            0 <= k < runs.len() && recorded(
                (#[trigger] runs[k]).last().copier.sources.snapshots@,
                all_seen(runs)[at].path@,
            ),
    decreases runs.len(),
{
    let front = all_seen(runs.drop_last());
    let back = runs.last().last().copier.sources.snapshots@;
    if at < front.len() {
        lemma_all_was_seen(runs.drop_last(), at);
        let k = choose|k: int|
            0 <= k < runs.drop_last().len() && recorded(
                (#[trigger] runs.drop_last()[k]).last().copier.sources.snapshots@,
                front[at].path@,
            );
        assert(runs[k] == runs.drop_last()[k]);
    } else {
        assert(back[at - front.len()] == all_seen(runs)[at]);
        let k = runs.len() - 1;
        assert(recorded(runs[k].last().copier.sources.snapshots@, all_seen(runs)[at].path@));
    }
}

/// What is known of the record of one source that was copied whole.
proof fn lemma_seen_of_one(
    base: Objects,
    parts: Seq<Objects>,
    runs: Seq<Seq<CopyState>>,
    roots: Seq<PathModel>,
    items: Seq<Seq<PathSnapshot>>,
    operation: OperationRecord,
    sources: Seq<PathBuf>,
    directory: PathModel,
    at: int,
)
    requires
        all_copied_whole(base, parts, runs, roots, sources, directory),
        records_copies(operation, runs, roots, items, sources, directory),
        0 <= at < sources.len(),
    ensures
        tree_at(base, sources[at]@),
        ({
            let seen = runs[at].last().copier.sources.snapshots@;
            &&& seen.len() > 0
            &&& seen[0].path == sources[at]
            &&& forall|i: int| 1 <= i < seen.len() ==> (#[trigger] seen[i]).path@ != sources[at]@
            &&& forall|i: int|
                0 <= i < seen.len() ==> (#[trigger] seen[i]).kind == base[seen[i].path@].kind
            &&& forall|path: PathModel| #[trigger]
                recorded(seen, path) <==> path == below(sources[at]@, rest_of(path, sources[at]@))
                    && base.dom().contains(path)
        }),
{
    let source = sources[at];
    assert(copied_whole(base, parts[at], runs[at], roots[at], source@, directory));
    assert(recorded_fully(runs[at], roots[at], items[at], source, directory));
    lemma_finished_copy_is_whole(base, runs[at], source@, roots[at]);
    lemma_finished_copy_records_root_first(base, runs[at], source, roots[at]);
}

/// The outermost of what is recorded of one source is that source.
proof fn lemma_outermost_of_one(
    base: Objects,
    parts: Seq<Objects>,
    runs: Seq<Seq<CopyState>>,
    roots: Seq<PathModel>,
    items: Seq<Seq<PathSnapshot>>,
    operation: OperationRecord,
    sources: Seq<PathBuf>,
    directory: PathModel,
    at: int,
)
    requires
        unnested(sources),
        all_copied_whole(base, parts, runs, roots, sources, directory),
        records_copies(operation, runs, roots, items, sources, directory),
        0 <= at < sources.len(),
    ensures
        outermost(runs[at].last().copier.sources.snapshots@, all_seen(runs)) == seq![sources[at]],
{
    let seen = runs[at].last().copier.sources.snapshots@;
    let all = all_seen(runs);
    let source = sources[at]@;
    lemma_seen_of_one(base, parts, runs, roots, items, operation, sources, directory, at);
    if inside_recorded(all, source) {
        let j = choose|j: int|
            0 <= j < all.len() && (#[trigger] all[j]).kind is Directory && strictly_inside(
                source,
                all[j].path@,
            );
        lemma_all_was_seen(runs, j);
        let k = choose|k: int|
            0 <= k < runs.len() && recorded(
                (#[trigger] runs[k]).last().copier.sources.snapshots@,
                all[j].path@,
            );
        lemma_seen_of_one(base, parts, runs, roots, items, operation, sources, directory, k);
        let path = all[j].path@;
        let other = sources[k]@;
        assert(path == below(other, rest_of(path, other)));
        assert(other.names.len() <= path.names.len() < source.names.len());
        assert(source.names.subrange(0, other.names.len() as int) =~= other.names) by {
            assert forall|n: int| 0 <= n < other.names.len() implies source.names[n]
                == other.names[n] by {
                assert(source.names[n] == path.names[n]);
            }
        }
        assert(other.names.is_prefix_of(source.names));
        assert(strictly_inside(sources[at]@, sources[k]@));
    }
    assert forall|i: int| 1 <= i < seen.len() implies inside_recorded(
        all,
        (#[trigger] seen[i]).path@,
    ) by {
        let path = seen[i].path@;
        assert(recorded(seen, path));
        let rest = rest_of(path, source);
        if rest.len() == 0 {
            assert(below(source, rest).names =~= source.names);
        }
        let front = rest.drop_last();
        assert(front.push(rest.last()) =~= rest);
        let above = below(source, front);
        assert(base.dom().contains(below(source, front.push(rest.last()))));
        assert(base.dom().contains(above) && base[above].kind is Directory);
        assert(rest_of(above, source) =~= front);
        assert(recorded(seen, above));
        let k = choose|k: int| 0 <= k < seen.len() && (#[trigger] seen[k]).path@ == above;
        assert(seen[k].kind is Directory);
        lemma_seen_is_among_all(runs, at);
        assert(all.contains(seen[k]));
        let n = choose|n: int| 0 <= n < all.len() && all[n] == seen[k];
        assert(path.names.subrange(0, above.names.len() as int) =~= above.names);
        assert(above.names.is_prefix_of(path.names));
        assert(strictly_inside(path, all[n].path@));
    }
    lemma_first_is_outermost(seen, all);
    assert(outermost(seen, all) =~= seq![sources[at]]);
}

proof fn lemma_outermost_so_far(
    base: Objects,
    parts: Seq<Objects>,
    runs: Seq<Seq<CopyState>>,
    roots: Seq<PathModel>,
    items: Seq<Seq<PathSnapshot>>,
    operation: OperationRecord,
    sources: Seq<PathBuf>,
    directory: PathModel,
    at: int,
)
    requires
        unnested(sources),
        all_copied_whole(base, parts, runs, roots, sources, directory),
        records_copies(operation, runs, roots, items, sources, directory),
        0 <= at <= sources.len(),
    ensures
        outermost(all_seen(runs.take(at)), all_seen(runs)) == sources.take(at),
    decreases at,
{
    if at == 0 {
        assert(runs.take(0) =~= Seq::empty());
        assert(outermost(all_seen(runs.take(0)), all_seen(runs)) =~= sources.take(0));
    } else {
        let now = runs.take(at);
        lemma_outermost_so_far(
            base,
            parts,
            runs,
            roots,
            items,
            operation,
            sources,
            directory,
            at - 1,
        );
        lemma_outermost_of_one(
            base,
            parts,
            runs,
            roots,
            items,
            operation,
            sources,
            directory,
            at - 1,
        );
        assert(now.drop_last() =~= runs.take(at - 1));
        assert(now.last() == runs[at - 1]);
        lemma_outermost_of_both(
            all_seen(runs.take(at - 1)),
            runs[at - 1].last().copier.sources.snapshots@,
            all_seen(runs),
        );
        assert(sources.take(at) =~= sources.take(at - 1) + seq![sources[at - 1]]);
    }
}

proof fn lemma_first_made_comes_first(items: Seq<Seq<PathSnapshot>>)
    requires
        items.len() > 0,
        items[0].len() > 0,
    ensures
        all_made(items).len() > 0,
        all_made(items)[0] == items[0][0],
    decreases items.len(),
{
    if items.len() > 1 {
        lemma_first_made_comes_first(items.drop_last());
    } else {
        assert(items.drop_last() =~= Seq::empty());
        assert(all_made(items.drop_last()) =~= Seq::empty());
        assert(all_made(items) =~= items[0]);
    }
}

/// The record of copies leads redo back to their sources, and shows where the
/// first of them went.
pub proof fn lemma_record_leads_to_sources(
    operation: OperationRecord,
    base: Objects,
    parts: Seq<Objects>,
    runs: Seq<Seq<CopyState>>,
    roots: Seq<PathModel>,
    items: Seq<Seq<PathSnapshot>>,
    sources: Seq<PathBuf>,
    directory: PathModel,
)
    requires
        sources.len() > 0,
        unnested(sources),
        all_copied_whole(base, parts, runs, roots, sources, directory),
        records_copies(operation, runs, roots, items, sources, directory),
    ensures
        outermost(all_seen(runs), all_seen(runs)) == sources,
        operation.result_path() == target_in(directory, sources[0]@),
{
    lemma_outermost_so_far(
        base,
        parts,
        runs,
        roots,
        items,
        operation,
        sources,
        directory,
        sources.len() as int,
    );
    assert(runs.take(sources.len() as int) =~= runs);
    assert(sources.take(sources.len() as int) =~= sources);
    let source = sources[0];
    assert(copied_whole(base, parts[0], runs[0], roots[0], source@, directory));
    assert(recorded_fully(runs[0], roots[0], items[0], source, directory));
    lemma_finished_copy_records_root_first(base, runs[0], source, roots[0]);
    lemma_first_made_comes_first(items);
    let root = roots[0];
    assert(root.names.is_prefix_of(root.names));
    let relative = root.strip_prefix(root).unwrap();
    assert(relative.names.len() == 0 || relative == root);
    assert(rebased(root, root, target_in(directory, source@)) == target_in(directory, source@));
}

/// Redoing a copy that was undone commits, on a disk that nobody touched
/// meanwhile, and shows the same path: the record leads back to the sources,
/// every destination is free again, and so every source is copied there.
pub proof fn lemma_redone_copy_commits(
    operation: OperationRecord,
    redo: RedoTransfer,
    base: Objects,
    added: Seq<Objects>,
    first: Seq<Seq<CopyState>>,
    first_roots: Seq<PathModel>,
    items: Seq<Seq<PathSnapshot>>,
    added_again: Seq<Objects>,
    again: Seq<Seq<CopyState>>,
    again_roots: Seq<PathModel>,
    sources: Seq<PathBuf>,
    run: Seq<TransferModel>,
    finished: FinishedTransfer,
    step: RedoTransferStep,
)
    requires
        sources.len() > 0,
        named_apart(sources),
        unnested(sources),
        all_copied_whole(base, added, first, first_roots, sources, redo.destination@),
        base.dom().disjoint(together(added).dom()),
        records_copies(operation, first, first_roots, items, sources, redo.destination@),
        operation matches OperationRecord::Copy { sources: seen, .. } && redo.sources@
            == outermost(seen@, seen@),
        redo.mode is Copy,
        all_copied_whole(base, added_again, again, again_roots, sources, redo.destination@),
        run.len() == sources.len() + 1,
        run[0] == fresh(redo.sources@, redo.destination, redo.mode, false),
        forall|i: int|
            0 <= i < sources.len() ==> turns(
                base.union_prefer_right(together(#[trigger] added_again.take(i))),
                run,
                i,
            ),
        reports(finished, run.last()),
        repeated(redo, finished.outcome, step),
    ensures
        redo.sources@ == sources,
        step matches RedoTransferStep::Done(MutationOutcome::Committed(committed))
            && committed.path@ == operation.result_path() && committed.record
            == finished.outcome.operation,
{
    let directory = redo.destination@;
    lemma_record_leads_to_sources(
        operation,
        base,
        added,
        first,
        first_roots,
        items,
        sources,
        directory,
    );
    lemma_copied_sources_are_replicas(base, added, first, first_roots, sources, directory);
    lemma_copied_sources_are_replicas(base, added_again, again, again_roots, sources, directory);
    assert forall|i: int| 0 <= i < sources.len() implies base.dom().contains(
        (#[trigger] sources[i])@,
    ) by {
        assert(copied_whole(base, added[i], first[i], first_roots[i], sources[i]@, directory));
    }
    assert forall|i: int| 0 <= i < sources.len() implies #[trigger] well_at(run, i) by {
        lemma_states_before(run, sources, redo.destination, redo.mode, base, added, added_again, i);
    }
    lemma_redone_transfer_commits(operation, redo, run, finished, step);
}

/// Every source before one whose turn has come went well.
proof fn lemma_states_before(
    run: Seq<TransferModel>,
    sources: Seq<PathBuf>,
    destination: PathBuf,
    mode: TransferMode,
    base: Objects,
    added: Seq<Objects>,
    parts: Seq<Objects>,
    at: int,
)
    requires
        named_apart(sources),
        replicas(base, added, sources, destination@),
        replicas(base, parts, sources, destination@),
        base.dom().disjoint(together(added).dom()),
        forall|i: int| 0 <= i < sources.len() ==> base.dom().contains((#[trigger] sources[i])@),
        run.len() == sources.len() + 1,
        run[0] == fresh(sources, destination, mode, false),
        forall|i: int|
            0 <= i < sources.len() ==> turns(
                base.union_prefer_right(together(#[trigger] parts.take(i))),
                run,
                i,
            ),
        0 <= at < sources.len(),
    ensures
        well_at(run, at),
    decreases at,
{
    assert forall|i: int| 0 <= i < at implies #[trigger] well_at(run, i) by {
        lemma_states_before(run, sources, destination, mode, base, added, parts, i);
    }
    lemma_state_so_far(run, sources, destination, mode, at);
    lemma_undone_target_is_free(base, added, parts, sources, destination@, at);
    assert(turns(base.union_prefer_right(together(parts.take(at))), run, at));
    lemma_free_destination_is_taken(
        base.union_prefer_right(together(parts.take(at))),
        run,
        at,
    );
}

/// Each of some moves can be made when its turn comes.
proof fn lemma_each_can_move(objects: Objects, transfers: Seq<MoveRecord>, at: int)
    requires
        can_move(objects, transfers),
        0 <= at < transfers.len(),
    ensures
        can_rename(
            moved(objects, transfers.take(at)),
            transfers[at].source@,
            transfers[at].destination@,
        ),
    decreases transfers.len(),
{
    if at == transfers.len() - 1 {
        assert(transfers.take(at) =~= transfers.drop_last());
    } else {
        lemma_each_can_move(objects, transfers.drop_last(), at);
        assert(transfers.drop_last().take(at) =~= transfers.take(at));
    }
}

/// Every move before one whose turn has come went well.
proof fn lemma_moves_before(
    run: Seq<TransferModel>,
    sources: Seq<PathBuf>,
    destination: PathBuf,
    before: Objects,
    transfers: Seq<MoveRecord>,
    at: int,
)
    requires
        can_move(before, transfers),
        keeps_names(transfers, destination@),
        sources.len() == transfers.len(),
        forall|i: int| 0 <= i < sources.len() ==> #[trigger] sources[i] == transfers[i].source,
        run.len() == sources.len() + 1,
        run[0] == fresh(sources, destination, TransferMode::Move, false),
        forall|i: int|
            0 <= i < sources.len() ==> turns(
                moved_into(before, #[trigger] sources.take(i), destination@),
                run,
                i,
            ),
        0 <= at < sources.len(),
    ensures
        well_at(run, at),
    decreases at,
{
    assert forall|i: int| 0 <= i < at implies #[trigger] well_at(run, i) by {
        lemma_moves_before(run, sources, destination, before, transfers, i);
    }
    lemma_state_so_far(run, sources, destination, TransferMode::Move, at);
    let front = transfers.take(at);
    assert forall|i: int| 0 <= i < front.len() implies (#[trigger] front[i]).destination@
        == target_in(destination@, front[i].source@) by {
        assert(front[i] == transfers[i]);
    }
    assert forall|i: int| 0 <= i < front.len() implies #[trigger] sources.take(at)[i]
        == front[i].source by {
        assert(sources[i] == transfers[i].source);
    }
    lemma_moved_into_is_moved(before, front, sources.take(at), destination@);
    lemma_each_can_move(before, transfers, at);
    assert(sources[at] == transfers[at].source);
    let target = transfers[at].destination@;
    assert(target == target_in(destination@, sources[at]@));
    assert(target.names.is_prefix_of(target.names));
    assert(target.starts_with(target));
    let disk = moved_into(before, sources.take(at), destination@);
    assert(!disk.dom().contains(target));
    assert(turns(disk, run, at));
    lemma_free_destination_is_taken(disk, run, at);
}

/// Redoing moves that were undone commits, on a disk that nobody touched
/// meanwhile, and shows the same path: every destination is free again, so
/// everything is moved there.
pub proof fn lemma_redone_moves_commit(
    operation: OperationRecord,
    before: Objects,
    transfers: Seq<MoveRecord>,
    record: Seq<MoveRecord>,
    redo: RedoTransfer,
    run: Seq<TransferModel>,
    finished: FinishedTransfer,
    step: RedoTransferStep,
)
    requires
        operation matches OperationRecord::Move { transfers: moves, .. } && moves@ == transfers,
        transfers.len() > 0,
        can_move(before, transfers),
        keeps_names(transfers, redo.destination@),
        move_ends(record) == move_ends(transfers),
        redo.sources@ == move_sources(record),
        redo.mode is Move,
        run.len() == redo.sources@.len() + 1,
        run[0] == fresh(redo.sources@, redo.destination, redo.mode, false),
        forall|i: int|
            0 <= i < redo.sources@.len() ==> turns(
                moved_into(before, #[trigger] redo.sources@.take(i), redo.destination@),
                run,
                i,
            ),
        reports(finished, run.last()),
        repeated(redo, finished.outcome, step),
    ensures
        step matches RedoTransferStep::Done(MutationOutcome::Committed(committed))
            && committed.path@ == operation.result_path() && committed.record
            == finished.outcome.operation,
{
    let sources = redo.sources@;
    assert(record.len() == move_ends(record).len());
    assert(transfers.len() == move_ends(transfers).len());
    assert forall|i: int| 0 <= i < sources.len() implies #[trigger] sources[i]
        == transfers[i].source by {
        assert(move_ends(record)[i] == (record[i].source, record[i].destination));
        assert(move_ends(transfers)[i] == (transfers[i].source, transfers[i].destination));
    }
    assert forall|i: int| 0 <= i < sources.len() implies #[trigger] well_at(run, i) by {
        lemma_moves_before(run, sources, redo.destination, before, transfers, i);
    }
    assert(sources[0] == transfers[0].source);
    assert(transfers[0].destination@ == target_in(redo.destination@, transfers[0].source@));
    lemma_redone_transfer_commits(operation, redo, run, finished, step);
}

/// Redoing a rename that was undone leaves the disk as it was, and shows the
/// same path. `found` is what the undo found at the old name.
pub proof fn lemma_rename_is_redone(before: Objects, operation: OperationRecord, found: Metadata)
    requires
        operation matches OperationRecord::Rename { source, destination, .. } && can_rename(
            before,
            source@,
            destination@,
        ),
    ensures
        ({
            let back = rename_reversal(operation).unwrap();
            let after = renamed(before, back.source@, back.destination@);
            let record = rename_record(back.destination, back.source, found);
            let again = rename_reversal(record).unwrap();
            &&& undone(after, operation) == before
            &&& undone(undone(after, operation), record) == after
            &&& again.source@ == operation.result_path()
        }),
{
    let back = rename_reversal(operation).unwrap();
    lemma_rename_back(before, back.source@, back.destination@);
}

/// Redoing a change of permissions that was undone puts the same bits on.
pub proof fn lemma_mode_change_is_redone(
    after: Objects,
    operation: OperationRecord,
    found: Metadata,
)
    requires
        operation matches OperationRecord::SetMode { path, mode, .. } && after.dom().contains(path@)
            && after[path@].mode == mode,
    ensures
        ({
            let back = mode_reversal(operation).unwrap();
            let record = mode_record(back.path, back.from, back.to, found);
            &&& undone(undone(after, operation), record) == after
            &&& record.result_path() == operation.result_path()
        }),
{
    let back = mode_reversal(operation).unwrap();
    let record = mode_record(back.path, back.from, back.to, found);
    let path = back.path@;
    let between = undone(after, operation);
    assert(between[path].like(Thing { mode: back.to, ..after[path] }));
    assert(undone(between, record)[path] =~= after[path]);
    assert(undone(between, record) =~= after);
}

/// Redoing a rename that was undone commits, where nobody touched the disk
/// meanwhile: what the undo left at the old name is still there, and the name
/// it was undone from is free. It shows the same path, and records the same
/// rename.
pub proof fn lemma_redone_rename_commits(
    operation: OperationRecord,
    undone_to: Metadata,
    found: Metadata,
    again: Metadata,
    checked: Result<RenameReady, String>,
    result: Result<CommittedOperation, String>,
)
    requires
        operation is Rename,
        found.identity() == undone_to.identity(),
        ({
            let back = rename_reversal(operation).unwrap();
            let record = rename_record(back.destination, back.source, undone_to);
            rename_reversal(record).unwrap().passes(Some(found), Lookup::Missing, checked)
        }),
        checked matches Ok(ready) ==> ready.comes_to(true, Some(again), result),
    ensures
        checked is Ok,
        result matches Ok(committed) && committed.path@ == operation.result_path()
            && committed.record == Some(
            rename_record(
                rename_reversal(operation).unwrap().source,
                rename_reversal(operation).unwrap().destination,
                again,
            ),
        ),
{
}

/// Redoing a change of permissions that was undone commits, where the object
/// is still the one the undo left. It shows the same path, and records the
/// same change.
pub proof fn lemma_redone_mode_change_commits(
    operation: OperationRecord,
    undone_to: Metadata,
    found: Metadata,
    again: Metadata,
    checked: Result<ModeReady, String>,
    result: Result<CommittedOperation, String>,
)
    requires
        operation is SetMode,
        found.identity() == undone_to.identity(),
        !(found.kind is Symlink),
        ({
            let back = mode_reversal(operation).unwrap();
            let record = mode_record(back.path, back.from, back.to, undone_to);
            mode_reversal(record).unwrap().passes(Pinned::As(found), checked)
        }),
        checked matches Ok(ready) ==> ready.comes_to(true, Some(again), result),
    ensures
        checked is Ok,
        result matches Ok(committed) && committed.path@ == operation.result_path()
            && committed.record == Some(
            mode_record(
                mode_reversal(operation).unwrap().path,
                mode_reversal(operation).unwrap().to,
                mode_reversal(operation).unwrap().from,
                again,
            ),
        ),
{
}

/// Redoing the creation of a folder that was undone commits, and shows the
/// same path.
pub proof fn lemma_redone_directory_commits(
    operation: OperationRecord,
    wanted: DirectoryToCreate,
    found: Metadata,
    result: Result<CommittedOperation, String>,
)
    requires
        operation matches OperationRecord::CreateDirectory { path, .. } && wanted.path == path,
        found.kind is Directory,
        wanted.comes_to(true, Some(found), result),
    ensures
        result matches Ok(committed) && committed.path@ == operation.result_path()
            && (committed.record matches Some(OperationRecord::CreateDirectory { path, .. }) && path
            == wanted.path),
{
}

/// Redoing the creation of a file that was undone commits, and shows the same
/// path.
pub proof fn lemma_redone_file_commits(
    operation: OperationRecord,
    wanted: FileToCreate,
    opened: Metadata,
    result: Result<CommittedOperation, String>,
)
    requires
        operation matches OperationRecord::CreateFile { path, .. } && wanted.path == path,
        opened.kind is File,
        wanted.comes_to(true, Some(opened), result),
    ensures
        result matches Ok(committed) && committed.path@ == operation.result_path()
            && (committed.record matches Some(OperationRecord::CreateFile { path, .. }) && path
            == wanted.path),
{
}

/// Redoing the creation of a folder or file that was undone leaves the disk
/// looking as it did: `made` is what was created first, and `again` what is
/// created in its place.
pub proof fn lemma_creation_is_redone(
    before: Objects,
    operation: OperationRecord,
    made: Thing,
    again: Thing,
)
    requires
        operation is CreateDirectory || operation is CreateFile,
        !before.dom().contains(operation.result_path()),
        again.like(made),
    ensures
        undone(before.insert(operation.result_path(), made), operation) == before,
        looks_like(
            undone(before.insert(operation.result_path(), made), operation).insert(
                operation.result_path(),
                again,
            ),
            before.insert(operation.result_path(), made),
        ),
{
    let path = operation.result_path();
    assert(undone(before.insert(path, made), operation) =~= before);
    assert(before.insert(path, again).dom() =~= before.insert(path, made).dom());
}

/// Carrying a tree to another filesystem moves it: where a copy of it went
/// through, lost nothing and was published at the destination, and the original
/// is gone, the disk looks as if the tree had been renamed.
pub proof fn lemma_carried_looks_renamed(
    before: Objects,
    run: Seq<CopyState>,
    root: PathModel,
    from: PathModel,
    to: PathModel,
)
    requires
        can_rename(before, from, to),
        sound(before, from),
        copied_in(before, run, from, root),
        run.last().copier.dropped.is_nothing(),
    ensures
        looks_like(
            without_tree(
                before.union_prefer_right(published(run.last().staged, root, to)),
                from,
            ),
            renamed(before, from, to),
        ),
{
    let added = published(run.last().staged, root, to);
    lemma_finished_copy_is_a_replica(before, run, from, root);
    lemma_published_replica(before, run.last().staged, from, root, to);
    assert forall|path: PathModel| #[trigger] added.dom().contains(path) == (path.valid()
        && path.starts_with(to) && before.dom().contains(rebased(path, to, from))) by {
        let rest = rest_of(path, to);
        if added.dom().contains(path) {
            let origin = below(from, rest);
            assert(rest_of(origin, from) =~= rest);
            lemma_rebased_keeps_names(origin, from, to);
            lemma_rebased_keeps_names(path, to, from);
        }
        if path.valid() && path.starts_with(to) && before.dom().contains(
            rebased(path, to, from),
        ) {
            assert(path.names =~= to.names + rest);
            lemma_rebased_keeps_names(path, to, from);
            assert(before.dom().contains(below(from, rest)));
        }
    }
    assert forall|path: PathModel| #[trigger] added.dom().contains(path) implies added[path].like(
        before[rebased(path, to, from)],
    ) by {
        lemma_rebased_keeps_names(path, to, from);
    }
    let left = without_tree(before.union_prefer_right(added), from);
    let right = renamed(before, from, to);
    assert forall|path: PathModel| left.dom().contains(path) == right.dom().contains(path) by {
        if path.starts_with(to) && path.starts_with(from) {
            lemma_above_one_path(path, from, to);
            lemma_from_is_vacant(before, from, to);
        }
    }
    assert(left.dom() =~= right.dom());
}

} // verus!
