//! Where every object is, and what taking an operation back makes of it.
//!
//! A disk is seen here as what is at which path. Renames carry whole trees
//! along, copies add objects, deletions take them away, and an undo is the
//! renames and deletions its record leads to, in the order they are made.

use vstd::prelude::*;

use crate::fsops::history::{created_by, merged_by};
use crate::fsops::identity::{ObjectKey, SnapshotKind};
use crate::fsops::journal::{moves_alike, MoveRecord, OperationRecord, PathSnapshot, ReplacedItem};
use crate::fsops::snapshots::{lemma_rebase_there_and_back, outermost, rebased};
use crate::path::{is_name, PathBuf, PathModel};

verus! {

/// What is at a path: which object, of what kind, with what content and
/// permission bits.
#[verifier::ext_equal]
pub struct Thing {
    pub key: ObjectKey,
    pub kind: SnapshotKind,
    pub content: Seq<u8>,
    pub mode: u32,
}

impl Thing {
    /// Whether two things are the same but for which object they are.
    pub open spec fn like(self, other: Thing) -> bool {
        self.kind == other.kind && self.content == other.content && self.mode == other.mode
    }
}

/// What is at which path.
pub type Objects = Map<PathModel, Thing>;

/// Whether two disks hold the same names, kinds, contents and bits.
pub open spec fn looks_like(left: Objects, right: Objects) -> bool {
    &&& left.dom() == right.dom()
    &&& forall|path: PathModel| #[trigger]
        left.dom().contains(path) ==> left[path].like(right[path])
}

/// A disk without the trees at some paths.
pub open spec fn without_trees(objects: Objects, roots: Seq<PathBuf>) -> Objects {
    Map::new(
        |path: PathModel|
            objects.dom().contains(path) && forall|i: int|
                0 <= i < roots.len() ==> !path.starts_with((#[trigger] roots[i])@),
        |path: PathModel| objects[path],
    )
}

/// A disk without the tree at a path.
pub open spec fn without_tree(objects: Objects, root: PathModel) -> Objects {
    Map::new(
        |path: PathModel| objects.dom().contains(path) && !path.starts_with(root),
        |path: PathModel| objects[path],
    )
}

/// A disk without what is at some paths.
pub open spec fn without_items(objects: Objects, items: Seq<PathSnapshot>) -> Objects {
    Map::new(
        |path: PathModel|
            objects.dom().contains(path) && forall|i: int|
                0 <= i < items.len() ==> path != (#[trigger] items[i]).path@,
        |path: PathModel| objects[path],
    )
}

/// A disk after the permission bits at a path were set.
pub open spec fn with_mode(objects: Objects, path: PathModel, mode: u32) -> Objects {
    if objects.dom().contains(path) {
        objects.insert(path, Thing { mode, ..objects[path] })
    } else {
        objects
    }
}

/// A disk without what an operation published, and with what it displaced.
pub open spec fn unpublished(
    objects: Objects,
    merged: Seq<PathSnapshot>,
    created: Seq<PathSnapshot>,
    displaced: Seq<ReplacedItem>,
) -> Objects {
    put_back(
        without_trees(without_items(objects, merged), outermost(created, created)),
        displaced,
    )
}

/// What undoing an operation makes of a disk. What lies in the Trash is not
/// seen here.
pub open spec fn undone(objects: Objects, operation: OperationRecord) -> Objects {
    match operation {
        OperationRecord::CreateDirectory { path, .. } => objects.remove(path@),
        OperationRecord::CreateFile { path, .. } => objects.remove(path@),
        OperationRecord::Move { transfers, replaced } => put_back(
            taken_back(objects, transfers@),
            replaced@,
        ),
        OperationRecord::Rename { source, destination, .. } => renamed(
            objects,
            destination@,
            source@,
        ),
        OperationRecord::SetMode { path, previous, .. } => with_mode(objects, path@, previous),
        OperationRecord::Trash { .. } | OperationRecord::Restore { .. } => objects,
        _ => unpublished(
            objects,
            merged_by(operation),
            created_by(operation),
            operation.held_aside(),
        ),
    }
}

/// Nothing is taken away when nothing is named.
pub proof fn lemma_without_nothing(objects: Objects)
    ensures
        without_items(objects, Seq::empty()) == objects,
        without_trees(objects, Seq::empty()) == objects,
{
    assert(without_items(objects, Seq::empty()) =~= objects);
    assert(without_trees(objects, Seq::empty()) =~= objects);
}

/// Moves that are alike are taken back alike.
pub proof fn lemma_alike_moves_are_taken_back_alike(
    objects: Objects,
    left: Seq<MoveRecord>,
    right: Seq<MoveRecord>,
)
    requires
        moves_alike(left, right),
    ensures
        taken_back(objects, left) == taken_back(objects, right),
    decreases left.len(),
{
    if left.len() > 0 {
        assert(left[left.len() - 1].alike(right[left.len() - 1]));
        assert forall|i: int| 0 <= i < left.drop_last().len() implies (
        #[trigger] left.drop_last()[i]).alike(right.drop_last()[i]) by {
            assert(left[i].alike(right[i]));
        }
        lemma_alike_moves_are_taken_back_alike(
            renamed(objects, left.last().destination@, left.last().source@),
            left.drop_last(),
            right.drop_last(),
        );
    }
}

/// Whether every path is one a text can say.
pub open spec fn sayable(objects: Objects) -> bool {
    forall|path: PathModel| #[trigger] objects.dom().contains(path) ==> path.valid()
}

/// Whether nothing is at a path or below it.
pub open spec fn vacant(objects: Objects, root: PathModel) -> bool {
    forall|path: PathModel| #[trigger]
        objects.dom().contains(path) ==> !path.starts_with(root)
}

/// Whether something can be renamed from one path to another without
/// replacing anything: it is there, the other path is free, and neither lies
/// inside the other.
pub open spec fn can_rename(objects: Objects, from: PathModel, to: PathModel) -> bool {
    &&& sayable(objects)
    &&& from.valid() && to.valid()
    &&& !from.is_empty() && !to.is_empty()
    &&& objects.dom().contains(from)
    &&& vacant(objects, to)
    &&& !to.starts_with(from)
}

/// Whether an object is at `path` after a rename: what lies at or below `to`
/// has come from `from`, and nothing else has moved.
pub open spec fn there_after(
    objects: Objects,
    from: PathModel,
    to: PathModel,
    path: PathModel,
) -> bool {
    &&& path.valid()
    &&& if path.starts_with(to) {
        objects.dom().contains(rebased(path, to, from))
    } else {
        !path.starts_with(from) && objects.dom().contains(path)
    }
}

/// A disk after a rename.
pub open spec fn renamed(objects: Objects, from: PathModel, to: PathModel) -> Objects {
    Map::new(
        |path: PathModel| there_after(objects, from, to, path),
        |path: PathModel|
            if path.starts_with(to) {
                objects[rebased(path, to, from)]
            } else {
                objects[path]
            },
    )
}

/// Where a tree is after it was moved is a place a text can say.
pub(crate) proof fn lemma_rebased_is_valid(path: PathModel, from: PathModel, to: PathModel)
    requires
        path.valid(),
        from.valid(),
        to.valid(),
        !from.is_empty(),
        !to.is_empty(),
        path.starts_with(from),
    ensures
        rebased(path, from, to).valid(),
        rebased(path, from, to).starts_with(to),
{
    let there = rebased(path, from, to);
    let relative = path.strip_prefix(from).unwrap();
    let kept = from.names.len() as int;
    if relative.names.len() > 0 {
        assert(relative.names[0] == path.names[kept]);
        assert(is_name(path.names[kept], kept == 0 && !path.absolute));
        assert(there.names =~= to.names + relative.names);
        assert forall|i: int| 0 <= i < there.names.len() implies is_name(
            #[trigger] there.names[i],
            i == 0 && !there.absolute,
        ) && !there.names[i].contains(crate::path::SLASH) by {
            if i < to.names.len() {
                assert(there.names[i] == to.names[i]);
            } else {
                let at = kept + i - to.names.len();
                assert(there.names[i] == path.names[at]);
                assert(is_name(path.names[at], at == 0 && !path.absolute));
            }
        }
        assert(there.names.subrange(0, to.names.len() as int) =~= to.names);
        assert(to.names.is_prefix_of(there.names));
    } else {
        assert(there == to);
        assert(to.names.subrange(0, to.names.len() as int) =~= to.names);
    }
}

/// Two paths that are both above a third lie on one line.
pub proof fn lemma_above_one_path(path: PathModel, left: PathModel, right: PathModel)
    requires
        !left.is_empty(),
        !right.is_empty(),
        path.starts_with(left),
        path.starts_with(right),
    ensures
        left.starts_with(right) || right.starts_with(left),
{
    let (short, long) = if left.names.len() <= right.names.len() {
        (left, right)
    } else {
        (right, left)
    };
    assert forall|i: int| 0 <= i < short.names.len() implies short.names[i] == long.names[i] by {
        assert(short.names[i] == path.names[i]);
        assert(long.names[i] == path.names[i]);
    }
    assert(short.names =~= long.names.subrange(0, short.names.len() as int));
    assert(short.names.is_prefix_of(long.names));
}

/// What can be renamed does not lie inside where it goes.
pub proof fn lemma_from_is_vacant(objects: Objects, from: PathModel, to: PathModel)
    requires
        can_rename(objects, from, to),
    ensures
        !from.starts_with(to),
{
}

/// Renaming something back restores the disk: every object, whether it was
/// carried along or not, is where it was. And it can be renamed back.
pub proof fn lemma_rename_back(objects: Objects, from: PathModel, to: PathModel)
    requires
        can_rename(objects, from, to),
    ensures
        can_rename(renamed(objects, from, to), to, from),
        renamed(renamed(objects, from, to), to, from) == objects,
{
    let after = renamed(objects, from, to);
    let back = renamed(after, to, from);
    assert(!from.starts_with(to));
    assert forall|path: PathModel| path.valid() && path.starts_with(from) implies #[trigger]
        after.dom().contains(rebased(path, from, to)) == objects.dom().contains(path) by {
        lemma_rebased_is_valid(path, from, to);
        lemma_rebase_there_and_back(path, from, to);
    }
    assert forall|path: PathModel| #[trigger] after.dom().contains(path) implies path.valid()
        && !path.starts_with(from) by {
        if path.starts_with(to) && path.starts_with(from) {
            lemma_above_one_path(path, from, to);
        }
    }
    assert(after.dom().contains(to)) by {
        assert(from.names.subrange(0, from.names.len() as int) =~= from.names);
        assert(from.starts_with(from));
        let relative = from.strip_prefix(from).unwrap();
        assert(relative.names =~= Seq::empty());
        assert(rebased(from, from, to) == to);
    }
    assert forall|path: PathModel| back.dom().contains(path) <==> objects.dom().contains(
        path,
    ) by {
        if path.valid() {
            if path.starts_with(from) {
                assert(after.dom().contains(rebased(path, from, to)) == objects.dom().contains(
                    path,
                ));
            } else if path.starts_with(to) {
                assert(!objects.dom().contains(path));
            }
        }
    }
    assert forall|path: PathModel| #[trigger] back.dom().contains(path) implies back[path]
        == objects[path] by {
        if path.starts_with(from) {
            lemma_rebased_is_valid(path, from, to);
            lemma_rebase_there_and_back(path, from, to);
        }
    }
    assert(back =~= objects);
}

/// A disk after some moves, made in order.
pub open spec fn moved(objects: Objects, transfers: Seq<MoveRecord>) -> Objects
    decreases transfers.len(),
{
    if transfers.len() == 0 {
        objects
    } else {
        renamed(
            moved(objects, transfers.drop_last()),
            transfers.last().source@,
            transfers.last().destination@,
        )
    }
}

/// Whether each of some moves can be made when its turn comes.
pub open spec fn can_move(objects: Objects, transfers: Seq<MoveRecord>) -> bool
    decreases transfers.len(),
{
    transfers.len() > 0 ==> can_move(objects, transfers.drop_last()) && can_rename(
        moved(objects, transfers.drop_last()),
        transfers.last().source@,
        transfers.last().destination@,
    )
}

/// A disk after moves were taken back, the last one first.
pub open spec fn taken_back(objects: Objects, transfers: Seq<MoveRecord>) -> Objects
    decreases transfers.len(),
{
    if transfers.len() == 0 {
        objects
    } else {
        taken_back(
            renamed(objects, transfers.last().destination@, transfers.last().source@),
            transfers.drop_last(),
        )
    }
}

/// Undoing moves restores the disk.
pub proof fn lemma_moves_are_taken_back(objects: Objects, transfers: Seq<MoveRecord>)
    requires
        can_move(objects, transfers),
    ensures
        taken_back(moved(objects, transfers), transfers) == objects,
    decreases transfers.len(),
{
    if transfers.len() > 0 {
        let before = moved(objects, transfers.drop_last());
        lemma_rename_back(before, transfers.last().source@, transfers.last().destination@);
        lemma_moves_are_taken_back(objects, transfers.drop_last());
    }
}

/// A disk after some items were moved aside, in order.
pub open spec fn set_aside(objects: Objects, items: Seq<ReplacedItem>) -> Objects
    decreases items.len(),
{
    if items.len() == 0 {
        objects
    } else {
        renamed(
            set_aside(objects, items.drop_last()),
            items.last().path@,
            items.last().quarantine@,
        )
    }
}

/// Whether each of some items can be moved aside when its turn comes.
pub open spec fn can_set_aside(objects: Objects, items: Seq<ReplacedItem>) -> bool
    decreases items.len(),
{
    items.len() > 0 ==> can_set_aside(objects, items.drop_last()) && can_rename(
        set_aside(objects, items.drop_last()),
        items.last().path@,
        items.last().quarantine@,
    )
}

/// A disk after items were put back, the last one first.
pub open spec fn put_back(objects: Objects, items: Seq<ReplacedItem>) -> Objects
    decreases items.len(),
{
    if items.len() == 0 {
        objects
    } else {
        put_back(
            renamed(objects, items.last().quarantine@, items.last().path@),
            items.drop_last(),
        )
    }
}

/// Putting items back restores the disk they were moved aside on.
pub proof fn lemma_items_are_put_back(objects: Objects, items: Seq<ReplacedItem>)
    requires
        can_set_aside(objects, items),
    ensures
        put_back(set_aside(objects, items), items) == objects,
    decreases items.len(),
{
    if items.len() > 0 {
        let before = set_aside(objects, items.drop_last());
        lemma_rename_back(before, items.last().path@, items.last().quarantine@);
        lemma_items_are_put_back(objects, items.drop_last());
    }
}

/// Whether neither of two paths lies inside the other.
pub open spec fn apart(left: PathModel, right: PathModel) -> bool {
    !left.starts_with(right) && !right.starts_with(left)
}

/// Whether moving an item aside has nothing to do with a move: none of the
/// paths of one lies inside a path of the other.
pub open spec fn unrelated(item: ReplacedItem, transfer: MoveRecord) -> bool {
    &&& apart(item.path@, transfer.source@)
    &&& apart(item.path@, transfer.destination@)
    &&& apart(item.quarantine@, transfer.source@)
    &&& apart(item.quarantine@, transfer.destination@)
}

/// Where an object is after a rename when its path is apart from the path it
/// would have come from.
proof fn lemma_place_apart(path: PathModel, near: PathModel, far: PathModel)
    requires
        path.starts_with(near),
        !near.is_empty(),
        !far.is_empty(),
        apart(near, far),
    ensures
        !path.starts_with(far),
{
    if path.starts_with(far) {
        lemma_above_one_path(path, near, far);
    }
}

/// Renames that have nothing to do with each other can be made in either
/// order: the second can then be made first, the first still can be made
/// after it, and the disk comes out the same.
pub proof fn lemma_renames_commute(
    objects: Objects,
    from: PathModel,
    to: PathModel,
    other_from: PathModel,
    other_to: PathModel,
)
    requires
        can_rename(objects, from, to),
        can_rename(renamed(objects, from, to), other_from, other_to),
        apart(from, other_from),
        apart(from, other_to),
        apart(to, other_from),
        apart(to, other_to),
    ensures
        can_rename(objects, other_from, other_to),
        can_rename(renamed(objects, other_from, other_to), from, to),
        renamed(renamed(objects, from, to), other_from, other_to) == renamed(
            renamed(objects, other_from, other_to),
            from,
            to,
        ),
{
    let first = renamed(objects, from, to);
    let other = renamed(objects, other_from, other_to);
    let left = renamed(first, other_from, other_to);
    let right = renamed(other, from, to);
    assert(first.dom().contains(other_from));
    lemma_starts_with_itself(other_from);
    lemma_starts_with_itself(from);
    assert(objects.dom().contains(other_from));
    assert forall|path: PathModel| #[trigger] objects.dom().contains(path) implies
        !path.starts_with(other_to) by {
        if path.starts_with(other_to) {
            lemma_place_apart(path, other_to, from);
            lemma_place_apart(path, other_to, to);
            assert(first.dom().contains(path));
        }
    }
    assert(other.dom().contains(from));
    assert forall|path: PathModel| #[trigger] other.dom().contains(path) implies path.valid()
        && !path.starts_with(to) by {
        if path.starts_with(to) {
            lemma_place_apart(path, to, other_to);
            assert(objects.dom().contains(path));
        }
    }
    assert forall|path: PathModel|
        left.dom().contains(path) == right.dom().contains(path) && (left.dom().contains(path)
            ==> left[path] == right[path]) by {
        if path.valid() && path.starts_with(other_to) {
            lemma_place_apart(path, other_to, from);
            lemma_place_apart(path, other_to, to);
            let before = rebased(path, other_to, other_from);
            lemma_rebased_is_valid(path, other_to, other_from);
            lemma_place_apart(before, other_from, from);
            lemma_place_apart(before, other_from, to);
        } else if path.valid() && path.starts_with(to) {
            lemma_place_apart(path, to, other_from);
            let before = rebased(path, to, from);
            lemma_rebased_is_valid(path, to, from);
            lemma_place_apart(before, from, other_from);
            lemma_place_apart(before, from, other_to);
        }
    }
    assert(left =~= right);
}

proof fn lemma_starts_with_itself(path: PathModel)
    ensures
        path.starts_with(path),
{
    assert(path.names.subrange(0, path.names.len() as int) =~= path.names);
    assert(path.names.is_prefix_of(path.names));
}

/// One step of a transfer that replaces: an item is moved aside, or a source
/// is moved.
pub enum ReplacingStep {
    Aside(ReplacedItem),
    Move(MoveRecord),
}

/// The items that were moved aside, in order.
pub open spec fn items_of(steps: Seq<ReplacingStep>) -> Seq<ReplacedItem>
    decreases steps.len(),
{
    if steps.len() == 0 {
        Seq::empty()
    } else {
        match steps.last() {
            ReplacingStep::Aside(item) => items_of(steps.drop_last()).push(item),
            ReplacingStep::Move(_) => items_of(steps.drop_last()),
        }
    }
}

/// The moves that were made, in order.
pub open spec fn moves_of(steps: Seq<ReplacingStep>) -> Seq<MoveRecord>
    decreases steps.len(),
{
    if steps.len() == 0 {
        Seq::empty()
    } else {
        match steps.last() {
            ReplacingStep::Aside(_) => moves_of(steps.drop_last()),
            ReplacingStep::Move(transfer) => moves_of(steps.drop_last()).push(transfer),
        }
    }
}

/// The rename that a step is.
pub open spec fn ends_of(step: ReplacingStep) -> (PathModel, PathModel) {
    match step {
        ReplacingStep::Aside(item) => (item.path@, item.quarantine@),
        ReplacingStep::Move(transfer) => (transfer.source@, transfer.destination@),
    }
}

/// A disk after some steps, made in order.
pub open spec fn stepped(objects: Objects, steps: Seq<ReplacingStep>) -> Objects
    decreases steps.len(),
{
    if steps.len() == 0 {
        objects
    } else {
        let (from, to) = ends_of(steps.last());
        renamed(stepped(objects, steps.drop_last()), from, to)
    }
}

/// Whether each of some steps can be made when its turn comes, and no item
/// that is moved aside has to do with a move made before it.
pub open spec fn can_step(objects: Objects, steps: Seq<ReplacingStep>) -> bool
    decreases steps.len(),
{
    steps.len() > 0 ==> {
        &&& can_step(objects, steps.drop_last())
        &&& can_rename(
            stepped(objects, steps.drop_last()),
            ends_of(steps.last()).0,
            ends_of(steps.last()).1,
        )
        &&& steps.last() matches ReplacingStep::Aside(item) ==> forall|i: int|
            0 <= i < moves_of(steps.drop_last()).len() ==> unrelated(
                item,
                #[trigger] moves_of(steps.drop_last())[i],
            )
    }
}

/// Moving an item aside after moves it has nothing to do with is the same as
/// doing it before them.
proof fn lemma_aside_before_moves(objects: Objects, transfers: Seq<MoveRecord>, item: ReplacedItem)
    requires
        can_move(objects, transfers),
        can_rename(moved(objects, transfers), item.path@, item.quarantine@),
        forall|i: int|
            0 <= i < transfers.len() ==> unrelated(item, #[trigger] transfers[i]),
    ensures
        can_rename(objects, item.path@, item.quarantine@),
        can_move(renamed(objects, item.path@, item.quarantine@), transfers),
        renamed(moved(objects, transfers), item.path@, item.quarantine@) == moved(
            renamed(objects, item.path@, item.quarantine@),
            transfers,
        ),
    decreases transfers.len(),
{
    if transfers.len() > 0 {
        let rest = transfers.drop_last();
        let last = transfers.last();
        assert(unrelated(item, transfers[transfers.len() - 1]));
        lemma_renames_commute(
            moved(objects, rest),
            last.source@,
            last.destination@,
            item.path@,
            item.quarantine@,
        );
        assert forall|i: int| 0 <= i < rest.len() implies unrelated(item, #[trigger] rest[i]) by {
            assert(rest[i] == transfers[i]);
        }
        lemma_aside_before_moves(objects, rest, item);
    }
}

/// A transfer that moves items aside as it comes to them leaves the disk as
/// if it had moved all of them aside first.
proof fn lemma_asides_come_first(objects: Objects, steps: Seq<ReplacingStep>)
    requires
        can_step(objects, steps),
    ensures
        can_set_aside(objects, items_of(steps)),
        can_move(set_aside(objects, items_of(steps)), moves_of(steps)),
        stepped(objects, steps) == moved(set_aside(objects, items_of(steps)), moves_of(steps)),
    decreases steps.len(),
{
    if steps.len() > 0 {
        let rest = steps.drop_last();
        lemma_asides_come_first(objects, rest);
        match steps.last() {
            ReplacingStep::Aside(item) => {
                lemma_aside_before_moves(
                    set_aside(objects, items_of(rest)),
                    moves_of(rest),
                    item,
                );
                assert(items_of(steps).drop_last() =~= items_of(rest));
            },
            ReplacingStep::Move(transfer) => {
                assert(moves_of(steps).drop_last() =~= moves_of(rest));
            },
        }
    }
}

/// One step of a copy that replaces: an item is moved aside, or objects are
/// added.
pub enum CopyingStep {
    Aside(ReplacedItem),
    Add(Objects),
}

/// The items that a copy moved aside, in order.
pub open spec fn displaced_by(steps: Seq<CopyingStep>) -> Seq<ReplacedItem>
    decreases steps.len(),
{
    if steps.len() == 0 {
        Seq::empty()
    } else {
        match steps.last() {
            CopyingStep::Aside(item) => displaced_by(steps.drop_last()).push(item),
            CopyingStep::Add(_) => displaced_by(steps.drop_last()),
        }
    }
}

/// Everything that a copy added.
pub open spec fn added_by(steps: Seq<CopyingStep>) -> Objects
    decreases steps.len(),
{
    if steps.len() == 0 {
        Map::empty()
    } else {
        match steps.last() {
            CopyingStep::Aside(_) => added_by(steps.drop_last()),
            CopyingStep::Add(added) => added_by(steps.drop_last()).union_prefer_right(added),
        }
    }
}

/// A disk after the steps of a copy, made in order.
pub open spec fn copied(objects: Objects, steps: Seq<CopyingStep>) -> Objects
    decreases steps.len(),
{
    if steps.len() == 0 {
        objects
    } else {
        let before = copied(objects, steps.drop_last());
        match steps.last() {
            CopyingStep::Aside(item) => renamed(before, item.path@, item.quarantine@),
            CopyingStep::Add(added) => before.union_prefer_right(added),
        }
    }
}

/// Whether each step of a copy can be made when its turn comes: what is added
/// goes where nothing is, and what is moved aside is nothing the copy added.
pub open spec fn can_copy(objects: Objects, steps: Seq<CopyingStep>) -> bool
    decreases steps.len(),
{
    steps.len() > 0 ==> {
        let before = copied(objects, steps.drop_last());
        &&& can_copy(objects, steps.drop_last())
        &&& match steps.last() {
            CopyingStep::Aside(item) => can_rename(before, item.path@, item.quarantine@) && vacant(
                added_by(steps.drop_last()),
                item.path@,
            ),
            CopyingStep::Add(added) => before.dom().disjoint(added.dom()),
        }
    }
}

/// A rename that leaves what was added alone is the same with and without it.
proof fn lemma_rename_leaves_added(
    objects: Objects,
    added: Objects,
    from: PathModel,
    to: PathModel,
)
    requires
        can_rename(objects.union_prefer_right(added), from, to),
        objects.dom().disjoint(added.dom()),
        vacant(added, from),
    ensures
        can_rename(objects, from, to),
        renamed(objects, from, to).dom().disjoint(added.dom()),
        renamed(objects.union_prefer_right(added), from, to) == renamed(
            objects,
            from,
            to,
        ).union_prefer_right(added),
{
    let all = objects.union_prefer_right(added);
    lemma_starts_with_itself(from);
    assert forall|path: PathModel| #[trigger] objects.dom().contains(path) implies path.valid()
        && !path.starts_with(to) by {
        assert(all.dom().contains(path));
    }
    assert forall|path: PathModel| #[trigger] added.dom().contains(path) implies path.valid()
        && !path.starts_with(to) && !path.starts_with(from) by {
        assert(all.dom().contains(path));
    }
    assert(all.dom().contains(from));
    let left = renamed(all, from, to);
    let right = renamed(objects, from, to).union_prefer_right(added);
    assert forall|path: PathModel|
        left.dom().contains(path) == right.dom().contains(path) && (left.dom().contains(path)
            ==> left[path] == right[path]) by {
        if path.valid() && path.starts_with(to) {
            lemma_rebased_is_valid(path, to, from);
            assert(!added.dom().contains(rebased(path, to, from)));
        }
    }
    assert(left =~= right);
}

/// A copy leaves the disk as if it had moved everything aside first and then
/// added everything.
proof fn lemma_copy_adds_last(objects: Objects, steps: Seq<CopyingStep>)
    requires
        can_copy(objects, steps),
    ensures
        can_set_aside(objects, displaced_by(steps)),
        set_aside(objects, displaced_by(steps)).dom().disjoint(added_by(steps).dom()),
        copied(objects, steps) == set_aside(objects, displaced_by(steps)).union_prefer_right(
            added_by(steps),
        ),
    decreases steps.len(),
{
    if steps.len() == 0 {
        assert(copied(objects, steps) =~= set_aside(
            objects,
            displaced_by(steps),
        ).union_prefer_right(added_by(steps)));
    } else {
        let rest = steps.drop_last();
        lemma_copy_adds_last(objects, rest);
        let aside = set_aside(objects, displaced_by(rest));
        match steps.last() {
            CopyingStep::Aside(item) => {
                lemma_rename_leaves_added(
                    aside,
                    added_by(rest),
                    item.path@,
                    item.quarantine@,
                );
                assert(displaced_by(steps).drop_last() =~= displaced_by(rest));
            },
            CopyingStep::Add(added) => {
                let before = copied(objects, rest);
                assert forall|path: PathModel| #[trigger]
                    added.dom().contains(path) implies !aside.dom().contains(path) by {
                    assert(!before.dom().contains(path));
                }
                assert(before.union_prefer_right(added) =~= aside.union_prefer_right(
                    added_by(steps),
                ));
            },
        }
    }
}

/// Undoing a copy restores the disk, displaced items and all: whatever was
/// moved aside and added, and in whichever order, removing exactly what was
/// added and putting the items back, the last one first, leaves every object
/// where it was.
pub proof fn lemma_copy_is_taken_back(objects: Objects, steps: Seq<CopyingStep>)
    requires
        can_copy(objects, steps),
    ensures
        put_back(
            copied(objects, steps).remove_keys(added_by(steps).dom()),
            displaced_by(steps),
        ) == objects,
{
    lemma_copy_adds_last(objects, steps);
    let aside = set_aside(objects, displaced_by(steps));
    assert(aside.union_prefer_right(added_by(steps)).remove_keys(added_by(steps).dom()) =~= aside);
    lemma_items_are_put_back(objects, displaced_by(steps));
}

/// Undoing a move restores the disk, displaced items and all: whatever was
/// moved aside and moved, and in whichever order, taking the moves back, the
/// last one first, and then putting the items back, the last one first, leaves
/// every object where it was.
pub proof fn lemma_replacing_moves_are_taken_back(objects: Objects, steps: Seq<ReplacingStep>)
    requires
        can_step(objects, steps),
    ensures
        put_back(
            taken_back(stepped(objects, steps), moves_of(steps)),
            items_of(steps),
        ) == objects,
{
    lemma_asides_come_first(objects, steps);
    lemma_moves_are_taken_back(set_aside(objects, items_of(steps)), moves_of(steps));
    lemma_items_are_put_back(objects, items_of(steps));
}

} // verus!
