//! What walks over a tree reach, and what a merge adds to one.

use vstd::prelude::*;

use crate::fsops::copy::CopiedItem;
use crate::fsops::delete::{
    approved_at, Approved, DeleteEntry, DeletePlanStep, DeletePlanner, EraseWanted, Erasing, PlanEntryStep, PlanInspect,
    PlanList,
};
use crate::fsops::identity::Metadata;
use crate::fsops::journal::{PathSnapshot, ReplacedItem};
use crate::fsops::local::{children_backwards, models, ListError, Lookup, Name, RenameErrorKind};
use crate::fsops::merge::{
    ChildrenWanted, DirectoryWanted, LeafWanted, Merge, MergeFinish, MergeOutcome, MergePlanner,
    MergeStep, Pair, PairStep, PairWanted,
};
use crate::fsops::moving::MoveFailure;
use crate::fsops::quarantine::{
    AsideConfirm, AsideWanted, HeldEntryStep, HeldWanted, PromotionStep, PromotionWanted,
};
use crate::fsops::snapshots::{
    EntryStep, InspectEntry, ListEntry, SnapshotStep, SnapshotWalk,
};
use crate::fsops::transfer::{FailStep, MoveWanted};
use crate::fsops::PathFailure;
use crate::order::{lemma_sorted, sorted};
use crate::path::{PathBuf, PathModel};

verus! {

proof fn lemma_sorting_keeps(names: Seq<Name>, k: int)
    requires
        0 <= k < names.len(),
    ensures
        sorted(names).contains(names[k]),
        sorted(names).len() == names.len(),
{
    broadcast use vstd::seq_lib::group_to_multiset_ensures;

    lemma_sorted(names);
    assert(names.contains(names[k]));
    assert(names.to_multiset().count(names[k]) > 0);
    assert(sorted(names).to_multiset().count(names[k]) > 0);
}

proof fn lemma_every_child_is_there(directory: PathModel, names: Seq<Name>, k: int)
    requires
        0 <= k < names.len(),
    ensures
        children_backwards(directory, sorted(names)).contains(directory.join(names[k]@)),
{
    lemma_sorting_keeps(names, k);
    let children = sorted(names);
    let at = choose|at: int| 0 <= at < children.len() && children[at] == names[k];
    let i = children.len() - 1 - at;
    assert(children_backwards(directory, children)[i] == directory.join(names[k]@));
}

/// One entry that planning a deletion met: what was there, and for a folder the
/// names in it.
pub struct PlanVisit {
    pub wanted: PlanInspect,
    pub metadata: Metadata,
    pub list: PlanList,
    pub names: Vec<Name>,
}

/// Whether planning met the `i`th entry and went on to the next.
pub open spec fn plan_met(states: Seq<DeletePlanner>, visits: Seq<PlanVisit>, i: int) -> bool {
    let visit = visits[i];
    &&& states[i].wants(DeletePlanStep::Inspect(visit.wanted))
    &&& if visit.metadata.kind is Directory {
        &&& visit.wanted.comes_to(
            Lookup::Found(visit.metadata),
            PlanEntryStep::List(visit.list),
        )
        &&& visit.list.comes_to(
            Ok::<Vec<Name>, ListError>(visit.names),
            Ok::<DeletePlanner, String>(states[i + 1]),
        )
    } else {
        visit.wanted.comes_to(
            Lookup::Found(visit.metadata),
            PlanEntryStep::Next(states[i + 1]),
        )
    }
}

/// Whether planning a deletion went from `root` to the end.
pub open spec fn planned_through(
    root: PathBuf,
    states: Seq<DeletePlanner>,
    visits: Seq<PlanVisit>,
    entries: Vec<DeleteEntry>,
) -> bool {
    &&& states.len() == visits.len() + 1
    &&& states[0].pending@ == seq![root]
    &&& states[0].entries@.len() == 0
    &&& forall|i: int| 0 <= i < visits.len() ==> #[trigger] plan_met(states, visits, i)
    &&& states.last().wants(DeletePlanStep::Planned(entries))
}

proof fn lemma_plan_so_far(
    root: PathBuf,
    states: Seq<DeletePlanner>,
    visits: Seq<PlanVisit>,
    entries: Vec<DeleteEntry>,
    n: int,
)
    requires
        planned_through(root, states, visits, entries),
        0 <= n <= visits.len(),
    ensures
        states[n].entries@.len() == n,
        forall|i: int|
            0 <= i < n ==> (#[trigger] states[n].entries@[i]).plans(
                visits[i].wanted.path,
                visits[i].metadata,
            ),
    decreases n,
{
    if n > 0 {
        lemma_plan_so_far(root, states, visits, entries, n - 1);
        assert(plan_met(states, visits, n - 1));
        let (before, after) = (states[n - 1].entries@, states[n].entries@);
        assert(after.drop_last() == before);
        assert forall|i: int| 0 <= i < n implies (#[trigger] after[i]).plans(
            visits[i].wanted.path,
            visits[i].metadata,
        ) by {
            if i < n - 1 {
                assert(after[i] == after.drop_last()[i]);
                assert(before[i].plans(visits[i].wanted.path, visits[i].metadata));
            }
        }
    }
}

proof fn lemma_pending_is_planned(
    root: PathBuf,
    states: Seq<DeletePlanner>,
    visits: Seq<PlanVisit>,
    entries: Vec<DeleteEntry>,
    n: int,
    path: PathModel,
) -> (j: int)
    requires
        planned_through(root, states, visits, entries),
        0 <= n <= visits.len(),
        models(states[n].pending@).contains(path),
    ensures
        n <= j < visits.len(),
        visits[j].wanted.path@ == path,
    decreases visits.len() - n,
{
    let now = models(states[n].pending@);
    let at = choose|at: int| 0 <= at < now.len() && now[at] == path;
    if n == visits.len() {
        assert(states.last() == states[n]);
        assert(now.len() == 0);
    }
    assert(plan_met(states, visits, n));
    if at == now.len() - 1 {
        assert(visits[n].wanted.path == states[n].pending@.last());
        n
    } else {
        let next = models(states[n + 1].pending@);
        let kept = models(visits[n].wanted.planner.pending@);
        assert(kept =~= now.drop_last());
        assert(kept[at] == path);
        if visits[n].metadata.kind is Directory {
            assert(models(visits[n].list.planner.pending@) == kept);
            assert(next[at] == kept[at]);
        } else {
            assert(next == kept);
        }
        assert(next.contains(path));
        lemma_pending_is_planned(root, states, visits, entries, n + 1, path)
    }
}

/// Whether a path is among what was planned after the `i`th entry.
pub open spec fn planned_after(entries: Seq<DeleteEntry>, i: int, path: PathModel) -> bool {
    exists|j: int| i < j < entries.len() && (#[trigger] entries[j]).path@ == path
}

/// A plan to delete a tree is of the whole of it: it begins with what is at the
/// root, holds everything that was met as it was found, and everything in a
/// folder that was met was met after it.
pub proof fn lemma_a_whole_tree_is_planned(
    root: PathBuf,
    states: Seq<DeletePlanner>,
    visits: Seq<PlanVisit>,
    entries: Vec<DeleteEntry>,
)
    requires
        planned_through(root, states, visits, entries),
    ensures
        entries@.len() == visits.len(),
        visits.len() > 0 && visits[0].wanted.path == root,
        forall|i: int| #![trigger entries@[i]]
            0 <= i < entries@.len() ==> {
                &&& entries@[i].path == visits[i].wanted.path
                &&& entries@[i].identity.identity.key.device == visits[i].metadata.device
                &&& entries@[i].identity.identity.key.inode == visits[i].metadata.inode
                &&& entries@[i].kind is Directory <==> visits[i].metadata.kind is Directory
            },
        forall|i: int, k: int| #![trigger visits[i].names@[k]]
            0 <= i < visits.len() && visits[i].metadata.kind is Directory && 0 <= k
                < visits[i].names@.len() ==> planned_after(
                entries@,
                i,
                visits[i].wanted.path@.join(visits[i].names@[k]@),
            ),
{
    lemma_plan_so_far(root, states, visits, entries, visits.len() as int);
    assert(states.last() == states[visits.len() as int]);
    assert(entries@ == states[visits.len() as int].entries@);
    if visits.len() == 0 {
        assert(states[0].pending@.len() == 1);
    } else {
        assert(plan_met(states, visits, 0));
        assert(states[0].pending@.last() == root);
    }
    assert forall|i: int| #![trigger entries@[i]] 0 <= i < entries@.len() implies entries@[i].plans(
        visits[i].wanted.path,
        visits[i].metadata,
    ) by {
        assert(states[visits.len() as int].entries@[i].plans(
            visits[i].wanted.path,
            visits[i].metadata,
        ));
    }
    assert forall|i: int, k: int| #![trigger visits[i].names@[k]]
        0 <= i < visits.len() && visits[i].metadata.kind is Directory && 0 <= k
            < visits[i].names@.len() implies planned_after(
        entries@,
        i,
        visits[i].wanted.path@.join(visits[i].names@[k]@),
    ) by {
        assert(plan_met(states, visits, i));
        let visit = visits[i];
        let path = visit.wanted.path@.join(visit.names@[k]@);
        lemma_every_child_is_there(visit.wanted.path@, visit.names@, k);
        let added = children_backwards(visit.wanted.path@, sorted(visit.names@));
        let at = choose|at: int| 0 <= at < added.len() && added[at] == path;
        let kept = models(visit.list.planner.pending@);
        let next = models(states[i + 1].pending@);
        assert(next == kept + added);
        assert(next[kept.len() + at] == path);
        assert(next.contains(path));
        let j = lemma_pending_is_planned(root, states, visits, entries, i + 1, path);
        assert(entries@[j].path == visits[j].wanted.path);
    }
}

/// One entry that recording a tree met.
pub struct WalkVisit {
    pub entry: InspectEntry,
    pub metadata: Metadata,
    pub list: ListEntry,
    pub names: Vec<Name>,
}

/// Whether recording met the `i`th entry and went on to the next.
pub open spec fn walk_met(states: Seq<SnapshotWalk>, visits: Seq<WalkVisit>, i: int) -> bool {
    let visit = visits[i];
    &&& states[i].goes_on(SnapshotStep::Inspect(visit.entry))
    &&& if visit.metadata.kind is Directory {
        &&& visit.entry.comes_to(Lookup::Found(visit.metadata), EntryStep::List(visit.list))
        &&& visit.list.comes_to(
            Ok::<Vec<Name>, ListError>(visit.names),
            Ok::<SnapshotWalk, String>(states[i + 1]),
        )
    } else {
        visit.entry.comes_to(Lookup::Found(visit.metadata), EntryStep::Walk(states[i + 1]))
    }
}

/// Whether a tree was recorded from `root` to the end.
pub open spec fn walked_through(
    root: PathModel,
    states: Seq<SnapshotWalk>,
    visits: Seq<WalkVisit>,
    snapshots: Vec<PathSnapshot>,
) -> bool {
    &&& states.len() == visits.len() + 1
    &&& states[0]@.pending == seq![root]
    &&& states[0]@.snapshots.len() == 0
    &&& forall|i: int| 0 <= i < visits.len() ==> #[trigger] walk_met(states, visits, i)
    &&& states.last().goes_on(SnapshotStep::Finished(snapshots))
}

proof fn lemma_walk_so_far(
    root: PathModel,
    states: Seq<SnapshotWalk>,
    visits: Seq<WalkVisit>,
    snapshots: Vec<PathSnapshot>,
    n: int,
)
    requires
        walked_through(root, states, visits, snapshots),
        0 <= n <= visits.len(),
    ensures
        states[n]@.snapshots.len() == n,
        forall|i: int|
            0 <= i < n ==> (#[trigger] states[n]@.snapshots[i]).describes(
                visits[i].entry.at(),
                visits[i].metadata,
            ),
    decreases n,
{
    if n > 0 {
        lemma_walk_so_far(root, states, visits, snapshots, n - 1);
        assert(walk_met(states, visits, n - 1));
        let (before, after) = (states[n - 1]@.snapshots, states[n]@.snapshots);
        assert(after.drop_last() == before);
        assert forall|i: int| 0 <= i < n implies (#[trigger] after[i]).describes(
            visits[i].entry.at(),
            visits[i].metadata,
        ) by {
            if i < n - 1 {
                assert(after[i] == after.drop_last()[i]);
                assert(before[i].describes(visits[i].entry.at(), visits[i].metadata));
            }
        }
    }
}

proof fn lemma_pending_is_recorded(
    root: PathModel,
    states: Seq<SnapshotWalk>,
    visits: Seq<WalkVisit>,
    snapshots: Vec<PathSnapshot>,
    n: int,
    path: PathModel,
) -> (j: int)
    requires
        walked_through(root, states, visits, snapshots),
        0 <= n <= visits.len(),
        states[n]@.pending.contains(path),
    ensures
        n <= j < visits.len(),
        visits[j].entry.at() == path,
    decreases visits.len() - n,
{
    let now = states[n]@.pending;
    let at = choose|at: int| 0 <= at < now.len() && now[at] == path;
    if n == visits.len() {
        assert(states.last() == states[n]);
        assert(now.len() == 0);
    }
    assert(walk_met(states, visits, n));
    if at == now.len() - 1 {
        n
    } else {
        let next = states[n + 1]@.pending;
        let kept = visits[n].entry.walk().pending;
        assert(kept[at] == path);
        assert(next[at] == kept[at]);
        assert(next.contains(path));
        lemma_pending_is_recorded(root, states, visits, snapshots, n + 1, path)
    }
}

/// Whether a path is among what was recorded after the `i`th entry.
pub open spec fn recorded_after(snapshots: Seq<PathSnapshot>, i: int, path: PathModel) -> bool {
    exists|j: int| i < j < snapshots.len() && (#[trigger] snapshots[j]).path@ == path
}

/// What is recorded of a tree is the whole of it: it begins with the root,
/// holds the device, inode, kind and time of last change of everything met, and
/// everything in a folder that was met was met after it.
pub proof fn lemma_a_whole_tree_is_recorded(
    root: PathModel,
    states: Seq<SnapshotWalk>,
    visits: Seq<WalkVisit>,
    snapshots: Vec<PathSnapshot>,
)
    requires
        walked_through(root, states, visits, snapshots),
    ensures
        snapshots@.len() == visits.len(),
        snapshots@.len() > 0 && snapshots@[0].path@ == root,
        forall|i: int| #![trigger snapshots@[i]]
            0 <= i < snapshots@.len() ==> {
                let found = visits[i].metadata;
                &&& snapshots@[i].path@ == visits[i].entry.at()
                &&& snapshots@[i].kind == found.kind
                &&& snapshots@[i].identity.key.device == found.device
                &&& snapshots@[i].identity.key.inode == found.inode
                &&& snapshots@[i].identity.changed_seconds == found.changed_seconds
                &&& snapshots@[i].identity.changed_nanoseconds == found.changed_nanoseconds
            },
        forall|i: int, k: int| #![trigger visits[i].names@[k]]
            0 <= i < visits.len() && visits[i].metadata.kind is Directory && 0 <= k
                < visits[i].names@.len() ==> recorded_after(
                snapshots@,
                i,
                visits[i].entry.at().join(visits[i].names@[k]@),
            ),
{
    lemma_walk_so_far(root, states, visits, snapshots, visits.len() as int);
    let last = states[visits.len() as int];
    assert(states.last() == last);
    assert(snapshots@ == last@.snapshots);
    if visits.len() == 0 {
        assert(states[0]@.pending.len() == 1);
    } else {
        assert(walk_met(states, visits, 0));
        assert(states[0]@.pending.last() == root);
    }
    assert forall|i: int| #![trigger snapshots@[i]] 0 <= i
        < snapshots@.len() implies snapshots@[i].describes(
        visits[i].entry.at(),
        visits[i].metadata,
    ) by {
        assert(last@.snapshots[i].describes(visits[i].entry.at(), visits[i].metadata));
    }
    assert(snapshots@[0].path@ == root);
    assert forall|i: int, k: int| #![trigger visits[i].names@[k]]
        0 <= i < visits.len() && visits[i].metadata.kind is Directory && 0 <= k
            < visits[i].names@.len() implies recorded_after(
        snapshots@,
        i,
        visits[i].entry.at().join(visits[i].names@[k]@),
    ) by {
        assert(walk_met(states, visits, i));
        let visit = visits[i];
        let path = visit.entry.at().join(visit.names@[k]@);
        lemma_every_child_is_there(visit.entry.at(), visit.names@, k);
        let added = children_backwards(visit.entry.at(), sorted(visit.names@));
        let at = choose|at: int| 0 <= at < added.len() && added[at] == path;
        let kept = visit.list.walk().pending;
        let next = states[i + 1]@.pending;
        assert(next == kept + added);
        assert(next[kept.len() + at] == path);
        assert(next.contains(path));
        let j = lemma_pending_is_recorded(root, states, visits, snapshots, i + 1, path);
        assert(snapshots@[j].path@ == visits[j].entry.at());
    }
}

/// A tree too large to be recorded is refused, and no other is.
pub proof fn lemma_only_too_large_a_tree_is_refused(walk: SnapshotWalk, step: SnapshotStep)
    requires
        walk.goes_on(step),
    ensures
        step is Refused <==> walk@.pending.len() > 0 && walk@.snapshots.len() >= walk@.limit,
        step is Finished <==> walk@.pending.len() == 0,
{
}

/// A merge plans only what is missing: where something is at the destination
/// nothing is planned, two folders are joined, and whatever is missing there is
/// planned as what it is.
pub proof fn lemma_a_merge_adds_only_what_is_missing(
    wanted: PairWanted,
    source: Lookup,
    destination: Lookup,
    step: PairStep,
)
    requires
        wanted.follows(source, destination, step),
    ensures
        source matches Lookup::Found(metadata) ==> {
            &&& destination matches Lookup::Found(occupant) ==> {
                &&& metadata.kind is Directory && occupant.kind is Directory ==> (step matches
                    PairStep::List(list) && list.pair == wanted.pair && list.planner.plan
                    == wanted.planner.plan)
                &&& !(metadata.kind is Directory && occupant.kind is Directory) ==> step
                    == PairStep::Next(wanted.planner)
            }
            &&& destination is Missing && metadata.kind is Directory ==> (step matches
                PairStep::List(list) && list.pair == wanted.pair
                && list.planner.plan.directories@ == wanted.planner.plan.directories@.push(
                wanted.pair.destination,
            ) && list.planner.plan.files == wanted.planner.plan.files)
            &&& destination is Missing && !(metadata.kind is Directory) ==> (step matches
                PairStep::Next(planner) && planner.plan.files@ == wanted.planner.plan.files@.push(
                wanted.pair,
            ) && planner.plan.directories == wanted.planner.plan.directories)
            &&& destination is Failed ==> step is Failed
        },
        !(source is Found) ==> step is Failed,
{
}

/// Whether a pair is for one name on both sides.
pub open spec fn is_child(pair: Pair, child: Pair, name: Name) -> bool {
    child.source@ == pair.source@.join(name@) && child.destination@ == pair.destination@.join(name@)
}

/// Whether a name is among the pairs from `start` on.
pub open spec fn is_paired(pairs: Seq<Pair>, start: int, pair: Pair, name: Name) -> bool {
    exists|i: int| start <= i < pairs.len() && is_child(pair, #[trigger] pairs[i], name)
}

/// Everything in a folder that is merged is looked at, each under its own name
/// on both sides.
pub proof fn lemma_everything_in_a_folder_is_merged(
    wanted: ChildrenWanted,
    names: Vec<Name>,
    result: Result<MergePlanner, String>,
)
    requires
        wanted.follows(Ok::<Vec<Name>, ListError>(names), result),
    ensures
        result matches Ok(planner) && planner.plan == wanted.planner.plan && planner.pending@.len()
            == wanted.planner.pending@.len() + names@.len() && (forall|k: int|
            0 <= k < names@.len() ==> is_paired(
                planner.pending@,
                wanted.planner.pending@.len() as int,
                wanted.pair,
                #[trigger] names@[k],
            )),
{
    lemma_sorted(names@);
    let planner = result->Ok_0;
    let before = wanted.planner.pending@.len() as int;
    let added = planner.pending@.skip(before);
    assert forall|k: int| 0 <= k < names@.len() implies is_paired(
        planner.pending@,
        before,
        wanted.pair,
        #[trigger] names@[k],
    ) by {
        lemma_sorting_keeps(names@, k);
        let children = sorted(names@);
        let at = choose|at: int| 0 <= at < children.len() && children[at] == names@[k];
        let i = children.len() - 1 - at;
        assert(added[i] == planner.pending@[before + i]);
        assert(is_child(wanted.pair, planner.pending@[before + i], names@[k]));
    }
}

/// A merge makes its folders before it copies anything, and is done only once
/// everything planned was made and copied.
pub proof fn lemma_a_merge_does_everything_planned(merge: Merge, cancelled: bool, step: MergeStep)
    requires
        merge.goes_on(cancelled, step),
    ensures
        step matches MergeStep::Finish(finish) ==> finish.merge == merge && (finish.stopped is None
            ==> merge.made >= merge.plan.directories@.len() && merge.copied
            >= merge.plan.files@.len()),
        step matches MergeStep::MakeDirectory(wanted) ==> merge.made < merge.plan.directories@.len()
            && wanted.directory == merge.plan.directories@[merge.made as int],
        step matches MergeStep::CopyLeaf(wanted) ==> merge.made >= merge.plan.directories@.len()
            && merge.copied < merge.plan.files@.len() && wanted.source
            == merge.plan.files@[merge.copied as int].source && wanted.destination
            == merge.plan.files@[merge.copied as int].destination,
        !cancelled && (merge.made < merge.plan.directories@.len() || merge.copied
            < merge.plan.files@.len()) ==> !(step is Finish),
{
}

/// A folder that could not be made, or a file that could not be copied, ends
/// the merge; otherwise it goes on with the next, and what was copied can be
/// taken back as long as everything before it can.
pub proof fn lemma_a_merge_goes_on_only_after_success(
    directory: DirectoryWanted,
    created: bool,
    made: Result<Merge, MergeFinish>,
    leaf: LeafWanted,
    copied: Result<CopiedItem, String>,
    next: Result<Merge, MergeFinish>,
)
    requires
        directory.merge.made < directory.merge.plan.directories.len(),
        directory.passes(created, made),
        leaf.passes(copied, next),
    ensures
        made is Ok <==> created,
        made matches Ok(merge) ==> merge.made == directory.merge.made + 1 && merge.copied
            == directory.merge.copied && merge.plan == directory.merge.plan,
        next is Ok <==> copied is Ok,
        next matches Ok(merge) ==> merge.copied == leaf.merge.copied + 1 && merge.made
            == leaf.merge.made && merge.plan == leaf.merge.plan,
        next matches Ok(merge) ==> (merge.undoable ==> leaf.merge.undoable && (copied matches Ok(
            item,
        ) && item.undoable && !item.overflowed && merge.files@ == leaf.merge.files@
            + item.created@)),
{
}

/// What a merge is taken back by names every folder it made, as it is now, and
/// every file it copied.
pub proof fn lemma_a_merge_records_all_it_added(
    finish: MergeFinish,
    found: Seq<Option<Metadata>>,
    outcome: MergeOutcome,
)
    requires
        finish.settles(found, outcome),
        found.len() == finish.merge.made,
    ensures
        outcome.stopped == finish.stopped,
        outcome.undoable ==> outcome.created@.len() == finish.merge.made
            + finish.merge.files@.len(),
        outcome.undoable ==> forall|i: int| #![trigger outcome.created@[i]]
            0 <= i < finish.merge.made ==> (found[i] matches Some(now) && outcome.created@[i].path@
                == finish.merge.plan.directories@[i]@ && outcome.created@[i].identity.key.device
                == now.device && outcome.created@[i].identity.key.inode == now.inode
                && outcome.created@[i].kind == now.kind),
        outcome.undoable ==> forall|i: int|
            finish.merge.made <= i < outcome.created@.len() ==> #[trigger] outcome.created@[i]
                == finish.merge.files@[i - finish.merge.made],
{
    if outcome.undoable {
        assert forall|i: int| finish.merge.made <= i < outcome.created@.len() implies (
        #[trigger] outcome.created@[i]) == finish.merge.files@[i - finish.merge.made] by {
            assert(outcome.created@.skip(finish.merge.made as int)[i - finish.merge.made]
                == outcome.created@[i]);
        }
        assert forall|i: int| #![trigger outcome.created@[i]] 0 <= i < finish.merge.made implies (
        found[i] matches Some(now) && outcome.created@[i].describes(
            finish.merge.plan.directories@[i]@,
            now,
        )) by {
            assert(crate::fsops::snapshots::found_at(found, i) is Some);
        }
    }
}

/// What was to be deleted is reported gone exactly where nothing failed on it
/// and nothing is left of it; otherwise a failure names it.
pub proof fn lemma_what_is_left_is_not_reported_gone(
    wanted: EraseWanted,
    failures: Vec<PathFailure>,
    gone: bool,
    next: Erasing,
)
    requires
        wanted.settles(failures, gone, next),
    ensures
        failures@.len() == 0 && gone ==> next.completed@ == wanted.erasing.completed@.push(
            wanted.root.original,
        ) && next.failures@ == wanted.erasing.failures@,
        failures@.len() > 0 || !gone ==> next.completed@ == wanted.erasing.completed@ && exists|
            i: int,
        |
            0 <= i < next.failures@.len() && (#[trigger] next.failures@[i]).path@
                == wanted.root.original@,
        next.todo == wanted.erasing.todo,
{
    if failures@.len() == 0 && gone {
        assert(wanted.erasing.failures@ + failures@ =~= wanted.erasing.failures@);
    }
}

/// A move whose copy is already there keeps the copy, and lets go of what it
/// displaced; one that moved nothing gives it back.
pub proof fn lemma_a_move_that_arrived_stays(
    wanted: MoveWanted,
    failure: MoveFailure,
    step: FailStep,
    released: Vec<ReplacedItem>,
)
    requires
        wanted.settles_failed(failure, step, released),
    ensures
        failure.published ==> (step matches FailStep::Next(next) && next@.failures
            == wanted.transfer().failures.push(
            PathFailure { path: wanted.transfer().current(), message: failure.message },
        ) && next@.completed == wanted.transfer().completed && next@.touched),
        failure.published ==> released@ == (match wanted.aside() {
            Some(item) => seq![item],
            None => Seq::empty(),
        }),
        !failure.published ==> released@.len() == 0 && (step is Restore <==> wanted.aside()
            is Some),
{
}

/// What is held aside counts as the bytes of its files.
pub proof fn lemma_held_bytes_are_those_of_files(
    wanted: HeldWanted,
    found: Option<Metadata>,
    step: HeldEntryStep,
)
    requires
        wanted.comes_to(found, step),
    ensures
        found matches Some(metadata) ==> {
            &&& metadata.kind is Directory <==> step is List
            &&& step matches HeldEntryStep::List(list) ==> list.path == wanted.path && list.held
                == wanted.held
            &&& metadata.kind is File && wanted.held.total + metadata.len <= u64::MAX ==> (
            step matches HeldEntryStep::Next(held) && held.total == wanted.held.total
                + metadata.len && held.pending == wanted.held.pending)
            &&& !(metadata.kind is File || metadata.kind is Directory) ==> step
                == HeldEntryStep::Next(wanted.held)
        },
        found is None ==> step == HeldEntryStep::Next(wanted.held),
{
}

/// Only what was moved aside is looked at where it was moved to.
pub proof fn lemma_only_what_moved_is_held(
    wanted: AsideWanted,
    renamed: bool,
    result: Result<AsideConfirm, String>,
)
    requires
        wanted.passes(renamed, result),
    ensures
        renamed <==> result is Ok,
        result matches Ok(confirm) ==> confirm.path == wanted.path && confirm.candidate
            == wanted.candidate && confirm.expected == wanted.expected,
{
}

/// What could not be put back is kept under a name that nothing has; a name
/// that is taken is passed over, and any other failure leaves it where it is.
pub proof fn lemma_recovery_overwrites_nothing(
    wanted: PromotionWanted,
    renamed: Result<(), RenameErrorKind>,
    step: PromotionStep,
)
    requires
        wanted.settles(renamed, step),
    ensures
        renamed is Ok <==> step is Promoted,
        step matches PromotionStep::Promoted(path) ==> path == wanted.candidate,
        renamed == Err::<(), RenameErrorKind>(RenameErrorKind::AlreadyExists) <==> step is Again,
        step matches PromotionStep::Again(promoting) ==> promoting == wanted.promoting,
{
}

/// Where one of some paths was approved, it is approved as that object, and a
/// path that is not among them is not approved as any.
pub proof fn lemma_approvals_are_of_one_object(approved: Seq<Approved>, path: PathModel, i: int)
    requires
        0 <= i < approved.len(),
        approved[i].path@ == path,
        forall|j: int| i < j < approved.len() ==> (#[trigger] approved[j]).path@ != path,
    ensures
        approved_at(approved, path) == Some(approved[i].key),
    decreases approved.len(),
{
    if i < approved.len() - 1 {
        assert(approved[approved.len() - 1].path@ != path);
        assert forall|j: int| i < j < approved.drop_last().len() implies (
        #[trigger] approved.drop_last()[j]).path@ != path by {
            assert(approved[j].path@ != path);
        }
        lemma_approvals_are_of_one_object(approved.drop_last(), path, i);
    }
}

/// A path that was not approved has no object to be held to.
pub proof fn lemma_nothing_else_is_approved(approved: Seq<Approved>, path: PathModel)
    requires
        forall|j: int| 0 <= j < approved.len() ==> (#[trigger] approved[j]).path@ != path,
    ensures
        approved_at(approved, path) is None,
    decreases approved.len(),
{
    if approved.len() > 0 {
        assert(approved[approved.len() - 1].path@ != path);
        assert forall|j: int| 0 <= j < approved.drop_last().len() implies (
        #[trigger] approved.drop_last()[j]).path@ != path by {
            assert(approved[j].path@ != path);
        }
        lemma_nothing_else_is_approved(approved.drop_last(), path);
    }
}

} // verus!
