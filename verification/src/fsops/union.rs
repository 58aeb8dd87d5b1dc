//! What a merge makes of two trees: their union.
//!
//! The destination keeps everything it has and gains what it lacks, except
//! below a name that is a folder on one side only.

use vstd::prelude::*;

use crate::fsops::local::{is_entry_name, ListError, Lookup, Name};
use crate::fsops::merge::{
    children_of, MergePlan, MergePlanStep, MergePlanner, Pair, PairStep, PairWanted,
};
use crate::fsops::tree::Objects;
use crate::order::{lemma_sorted, sorted};
use crate::path::{lemma_join_then_file_name, PathModel};

verus! {

/// The path of these names below a root.
pub open spec fn below(root: PathModel, rest: Seq<Seq<u8>>) -> PathModel {
    PathModel { absolute: root.absolute, names: root.names + rest }
}

/// Whether what is below a root is a tree: everything in it lies in a folder,
/// under the name of an entry.
pub open spec fn tree_at(disk: Objects, root: PathModel) -> bool {
    forall|rest: Seq<Seq<u8>>, name: Seq<u8>|
        disk.dom().contains(#[trigger] below(root, rest.push(name))) ==> disk.dom().contains(
            below(root, rest),
        ) && disk[below(root, rest)].kind is Directory && is_entry_name(name)
}

/// Whether no name above a place in the destination is taken by anything but a
/// folder.
pub open spec fn open_above(
    disk: Objects,
    destination: PathModel,
    rest: Seq<Seq<u8>>,
) -> bool {
    forall|k: int|
        0 <= k < rest.len() && disk.dom().contains(#[trigger] below(destination, rest.take(k)))
            ==> disk[below(destination, rest.take(k))].kind is Directory
}

/// Whether a merge adds what the source has at these names.
pub open spec fn adds(
    disk: Objects,
    source: PathModel,
    destination: PathModel,
    rest: Seq<Seq<u8>>,
) -> bool {
    &&& disk.dom().contains(below(source, rest))
    &&& !disk.dom().contains(below(destination, rest))
    &&& open_above(disk, destination, rest)
}

/// Whether a lookup says what is on the disk.
pub open spec fn looked(disk: Objects, path: PathModel, found: Lookup) -> bool {
    match found {
        Lookup::Found(metadata) => disk.dom().contains(path) && metadata.kind == disk[path].kind,
        Lookup::Missing => !disk.dom().contains(path),
        Lookup::Failed(_) => false,
    }
}

/// Whether a directory holds a name.
pub open spec fn lists(entries: Seq<Name>, name: Seq<u8>) -> bool {
    exists|i: int| 0 <= i < entries.len() && (#[trigger] entries[i])@ == name
}

/// Whether a listing says what is on the disk.
pub open spec fn listed(disk: Objects, path: PathModel, entries: Seq<Name>) -> bool {
    forall|name: Seq<u8>| #[trigger]
        lists(entries, name) <==> is_entry_name(name) && disk.dom().contains(path.join(name))
}

/// Whether planning goes from one state to the next when it is told what is on
/// the disk.
pub open spec fn learns(
    disk: Objects,
    before: MergePlanner,
    after: MergePlanner,
    wanted: PairWanted,
    source: Lookup,
    destination: Lookup,
    step: PairStep,
    entries: Vec<Name>,
) -> bool {
    &&& before.wants(MergePlanStep::Inspect(wanted))
    &&& looked(disk, wanted.pair.source@, source)
    &&& looked(disk, wanted.pair.destination@, destination)
    &&& wanted.follows(source, destination, step)
    &&& match step {
        PairStep::Next(planner) => planner == after,
        PairStep::List(children) => listed(disk, children.pair.source@, entries@)
            && children.follows(
            Ok::<Vec<Name>, ListError>(entries),
            Ok::<MergePlanner, String>(after),
        ),
        PairStep::Failed(_) => false,
    }
}

/// Whether a merge was planned in these states, told what is on the disk.
pub open spec fn planned_in(
    disk: Objects,
    run: Seq<MergePlanner>,
    source: PathModel,
    destination: PathModel,
) -> bool {
    &&& run.len() > 0
    &&& run[0].plan.directories@.len() == 0
    &&& run[0].plan.files@.len() == 0
    &&& run[0].pending@.len() == 1
    &&& run[0].pending@[0].source@ == source
    &&& run[0].pending@[0].destination@ == destination
    &&& forall|i: int| 0 <= i < run.len() - 1 ==> #[trigger] goes_on(disk, run, i)
    &&& run.last().pending@.len() == 0
}

/// Whether planning went on from one state to the next.
pub open spec fn goes_on(disk: Objects, run: Seq<MergePlanner>, at: int) -> bool {
    exists|
        wanted: PairWanted,
        source: Lookup,
        destination: Lookup,
        step: PairStep,
        entries: Vec<Name>,
    | #[trigger]
        learns(disk, run[at], run[at + 1], wanted, source, destination, step, entries)
}

/// What a path says after a root.
pub open spec fn rest_of(path: PathModel, root: PathModel) -> Seq<Seq<u8>> {
    path.names.skip(root.names.len() as int)
}

/// Whether a pair stands at the same names on both sides.
pub open spec fn stands(pair: Pair, source: PathModel, destination: PathModel) -> bool {
    let rest = rest_of(pair.source@, source);
    pair.source@ == below(source, rest) && pair.destination@ == below(destination, rest)
}

/// Whether a directory is planned.
pub open spec fn makes(plan: MergePlan, path: PathModel) -> bool {
    exists|i: int| 0 <= i < plan.directories@.len() && (#[trigger] plan.directories@[i])@ == path
}

/// Whether a leaf is planned.
pub open spec fn copies(plan: MergePlan, path: PathModel) -> bool {
    exists|i: int| 0 <= i < plan.files@.len() && (#[trigger] plan.files@[i]).destination@ == path
}

/// Whether something pending leads to what the source has at these names.
pub open spec fn reaches(
    pending: Seq<Pair>,
    source: PathModel,
    rest: Seq<Seq<u8>>,
) -> bool {
    exists|i: int|
        0 <= i < pending.len() && rest_of((#[trigger] pending[i]).source@, source).is_prefix_of(
            rest,
        )
}

/// Whether a pending pair is one that the merge has come to.
pub open spec fn due(
    disk: Objects,
    pair: Pair,
    source: PathModel,
    destination: PathModel,
) -> bool {
    &&& stands(pair, source, destination)
    &&& disk.dom().contains(pair.source@)
    &&& open_above(disk, destination, rest_of(pair.source@, source))
}

/// Whether a planned directory is a folder that the merge adds.
pub open spec fn due_directory(
    disk: Objects,
    path: PathModel,
    source: PathModel,
    destination: PathModel,
) -> bool {
    let rest = rest_of(path, destination);
    &&& path == below(destination, rest)
    &&& adds(disk, source, destination, rest)
    &&& disk[below(source, rest)].kind is Directory
}

/// Whether a planned leaf is one that the merge adds.
pub open spec fn due_file(
    disk: Objects,
    pair: Pair,
    source: PathModel,
    destination: PathModel,
) -> bool {
    &&& stands(pair, source, destination)
    &&& adds(disk, source, destination, rest_of(pair.source@, source))
    &&& !(disk[pair.source@].kind is Directory)
}

/// Whether a plan holds nothing but what the merge adds.
pub open spec fn plan_is_due(
    disk: Objects,
    plan: MergePlan,
    source: PathModel,
    destination: PathModel,
) -> bool {
    &&& forall|i: int|
        0 <= i < plan.directories@.len() ==> due_directory(
            disk,
            (#[trigger] plan.directories@[i])@,
            source,
            destination,
        )
    &&& forall|i: int|
        0 <= i < plan.files@.len() ==> due_file(
            disk,
            #[trigger] plan.files@[i],
            source,
            destination,
        )
}

/// Whether all that the merge adds is planned or still to be come to, and
/// nothing else is.
pub open spec fn on_course(
    disk: Objects,
    planner: MergePlanner,
    source: PathModel,
    destination: PathModel,
) -> bool {
    &&& forall|i: int|
        0 <= i < planner.pending@.len() ==> due(
            disk,
            #[trigger] planner.pending@[i],
            source,
            destination,
        )
    &&& plan_is_due(disk, planner.plan, source, destination)
    &&& forall|rest: Seq<Seq<u8>>| #[trigger]
        adds(disk, source, destination, rest) ==> makes(planner.plan, below(destination, rest))
            || copies(planner.plan, below(destination, rest)) || reaches(
            planner.pending@,
            source,
            rest,
        )
}

pub(crate) proof fn lemma_tree_is_closed(disk: Objects, root: PathModel, rest: Seq<Seq<u8>>, k: int)
    requires
        tree_at(disk, root),
        disk.dom().contains(below(root, rest)),
        0 <= k < rest.len(),
    ensures
        disk.dom().contains(below(root, rest.take(k))),
        disk[below(root, rest.take(k))].kind is Directory,
        disk.dom().contains(below(root, rest.take(k + 1))),
        is_entry_name(rest[k]),
    decreases rest.len(),
{
    let front = rest.drop_last();
    assert(front.push(rest.last()) =~= rest);
    assert(disk.dom().contains(below(root, front.push(rest.last()))));
    if k == rest.len() - 1 {
        assert(rest.take(k) =~= front);
        assert(rest.take(k + 1) =~= rest);
    } else {
        lemma_tree_is_closed(disk, root, front, k);
        assert(front.take(k) =~= rest.take(k));
        assert(front.take(k + 1) =~= rest.take(k + 1));
    }
}

/// A pair whose children do not matter leads to nothing but itself.
proof fn lemma_nothing_else_below(
    disk: Objects,
    pair: Pair,
    source: PathModel,
    destination: PathModel,
    rest: Seq<Seq<u8>>,
)
    requires
        tree_at(disk, source),
        stands(pair, source, destination),
        adds(disk, source, destination, rest),
        rest_of(pair.source@, source).is_prefix_of(rest),
        !(disk[pair.source@].kind is Directory) || (disk.dom().contains(pair.destination@)
            && !(disk[pair.destination@].kind is Directory)),
    ensures
        rest == rest_of(pair.source@, source),
{
    let at = rest_of(pair.source@, source);
    if rest.len() > at.len() {
        lemma_tree_is_closed(disk, source, rest, at.len() as int);
        assert(rest.take(at.len() as int) =~= at);
        assert(disk.dom().contains(below(destination, rest.take(at.len() as int))) ==> disk[below(
            destination,
            rest.take(at.len() as int),
        )].kind is Directory);
    } else {
        assert(rest =~= at);
    }
}

/// Planning one more pair keeps to the plan that is due.
proof fn lemma_plan_grows(
    disk: Objects,
    before: MergePlan,
    after: MergePlan,
    pair: Pair,
    source: PathModel,
    destination: PathModel,
)
    requires
        plan_is_due(disk, before, source, destination),
        stands(pair, source, destination),
        adds(disk, source, destination, rest_of(pair.source@, source)),
        if disk[pair.source@].kind is Directory {
            after.files == before.files && after.directories@ == before.directories@.push(
                pair.destination,
            )
        } else {
            after.directories == before.directories && after.files@ == before.files@.push(pair)
        },
    ensures
        plan_is_due(disk, after, source, destination),
        makes(after, pair.destination@) || copies(after, pair.destination@),
        forall|path: PathModel| makes(before, path) ==> #[trigger] makes(after, path),
        forall|path: PathModel| copies(before, path) ==> #[trigger] copies(after, path),
{
    assert(rest_of(pair.destination@, destination) =~= rest_of(pair.source@, source));
    assert forall|i: int| 0 <= i < after.directories@.len() implies due_directory(
        disk,
        (#[trigger] after.directories@[i])@,
        source,
        destination,
    ) by {
        if i < before.directories@.len() {
            assert(after.directories@[i] == before.directories@[i]);
        }
    }
    assert forall|i: int| 0 <= i < after.files@.len() implies due_file(
        disk,
        #[trigger] after.files@[i],
        source,
        destination,
    ) by {
        if i < before.files@.len() {
            assert(after.files@[i] == before.files@[i]);
        }
    }
    if disk[pair.source@].kind is Directory {
        assert(after.directories@[before.directories@.len() as int]@ == pair.destination@);
    } else {
        assert(after.files@[before.files@.len() as int].destination@ == pair.destination@);
    }
    assert forall|path: PathModel| makes(before, path) implies #[trigger] makes(after, path) by {
        let i = choose|i: int|
            0 <= i < before.directories@.len() && (#[trigger] before.directories@[i])@ == path;
        assert(after.directories@[i]@ == path);
    }
    assert forall|path: PathModel| copies(before, path) implies #[trigger] copies(after, path) by {
        let i = choose|i: int|
            0 <= i < before.files@.len() && (#[trigger] before.files@[i]).destination@ == path;
        assert(after.files@[i].destination@ == path);
    }
}

/// A pair that was taken is reached no more, and everything else still is.
proof fn lemma_reached_without(
    pending: Seq<Pair>,
    source: PathModel,
    rest: Seq<Seq<u8>>,
)
    requires
        pending.len() > 0,
        reaches(pending, source, rest),
    ensures
        reaches(pending.drop_last(), source, rest) || rest_of(
            pending.last().source@,
            source,
        ).is_prefix_of(rest),
{
    let i = choose|i: int|
        0 <= i < pending.len() && rest_of((#[trigger] pending[i]).source@, source).is_prefix_of(
            rest,
        );
    if i < pending.len() - 1 {
        assert(pending.drop_last()[i] == pending[i]);
    }
}

pub(crate) proof fn lemma_sorting_keeps_names(entries: Seq<Name>)
    ensures
        forall|i: int|
            0 <= i < sorted(entries).len() ==> lists(entries, (#[trigger] sorted(entries)[i])@),
        forall|name: Seq<u8>| #[trigger] lists(entries, name) ==> lists(sorted(entries), name),
{
    lemma_sorted(entries);
    broadcast use vstd::seq_lib::group_to_multiset_ensures;

    let all = sorted(entries);
    assert forall|i: int| 0 <= i < all.len() implies lists(entries, (#[trigger] all[i])@) by {
        assert(all.contains(all[i]));
        assert(all.to_multiset().count(all[i]) > 0);
        assert(entries.contains(all[i]));
    }
    assert forall|name: Seq<u8>| #[trigger] lists(entries, name) implies lists(all, name) by {
        let i = choose|i: int| 0 <= i < entries.len() && (#[trigger] entries[i])@ == name;
        assert(entries.contains(entries[i]));
        assert(entries.to_multiset().count(entries[i]) > 0);
        assert(all.contains(entries[i]));
    }
}

/// The child of a pair stands below it.
proof fn lemma_child_stands(
    pair: Pair,
    child: Pair,
    name: Seq<u8>,
    source: PathModel,
    destination: PathModel,
)
    requires
        stands(pair, source, destination),
        is_entry_name(name),
        child.source@ == pair.source@.join(name),
        child.destination@ == pair.destination@.join(name),
    ensures
        stands(child, source, destination),
        rest_of(child.source@, source) == rest_of(pair.source@, source).push(name),
{
    let rest = rest_of(pair.source@, source);
    lemma_join_then_file_name(pair.source@, name);
    lemma_join_then_file_name(pair.destination@, name);
    assert(child.source@.names =~= source.names + rest.push(name));
    assert(child.destination@.names =~= destination.names + rest.push(name));
    assert(rest_of(child.source@, source) =~= rest.push(name));
}

/// Going down into a folder comes to everything the merge adds below it, and
/// to nothing else.
proof fn lemma_children_are_due(
    disk: Objects,
    pair: Pair,
    entries: Seq<Name>,
    children: Seq<Pair>,
    source: PathModel,
    destination: PathModel,
)
    requires
        tree_at(disk, source),
        due(disk, pair, source, destination),
        listed(disk, pair.source@, entries),
        children_of(pair, sorted(entries), children),
        disk.dom().contains(pair.destination@) ==> disk[pair.destination@].kind is Directory,
    ensures
        forall|i: int|
            0 <= i < children.len() ==> due(disk, #[trigger] children[i], source, destination),
        forall|rest: Seq<Seq<u8>>| #[trigger]
            adds(disk, source, destination, rest) && rest_of(pair.source@, source).is_prefix_of(
                rest,
            ) && rest != rest_of(pair.source@, source) ==> reaches(children, source, rest),
{
    let at = rest_of(pair.source@, source);
    let all = sorted(entries);
    lemma_sorting_keeps_names(entries);
    assert forall|i: int| 0 <= i < children.len() implies due(
        disk,
        #[trigger] children[i],
        source,
        destination,
    ) by {
        let name = all[all.len() - 1 - i]@;
        assert(lists(entries, name));
        lemma_child_stands(pair, children[i], name, source, destination);
        let rest = at.push(name);
        assert forall|k: int|
            0 <= k < rest.len() && disk.dom().contains(
                #[trigger] below(destination, rest.take(k)),
            ) implies disk[below(destination, rest.take(k))].kind is Directory by {
            if k < at.len() {
                assert(rest.take(k) =~= at.take(k));
            } else {
                assert(rest.take(k) =~= at);
            }
        }
    }
    assert forall|rest: Seq<Seq<u8>>| #[trigger]
        adds(disk, source, destination, rest) && at.is_prefix_of(rest) && rest != at implies reaches(
        children,
        source,
        rest,
    ) by {
        if rest.len() == at.len() {
            assert(rest =~= at);
        }
        let k = at.len() as int;
        let name = rest[k];
        lemma_tree_is_closed(disk, source, rest, k);
        assert(rest.take(k + 1) =~= at.push(name));
        lemma_join_then_file_name(pair.source@, name);
        assert(pair.source@.join(name).names =~= below(source, at.push(name)).names);
        assert(pair.source@.join(name) == below(source, at.push(name)));
        assert(lists(entries, name));
        assert(lists(all, name));
        let j = choose|j: int| 0 <= j < all.len() && (#[trigger] all[j])@ == name;
        let i = all.len() - 1 - j;
        assert(all[all.len() - 1 - i]@ == name);
        lemma_child_stands(pair, children[i], name, source, destination);
        assert(at.push(name).is_prefix_of(rest));
    }
}

/// Telling the planner about one more pair keeps it on course.
proof fn lemma_stays_on_course(
    disk: Objects,
    before: MergePlanner,
    after: MergePlanner,
    wanted: PairWanted,
    at_source: Lookup,
    at_destination: Lookup,
    step: PairStep,
    entries: Vec<Name>,
    source: PathModel,
    destination: PathModel,
)
    requires
        tree_at(disk, source),
        on_course(disk, before, source, destination),
        learns(disk, before, after, wanted, at_source, at_destination, step, entries),
    ensures
        on_course(disk, after, source, destination),
{
    let pair = wanted.pair;
    let left = before.pending@.drop_last();
    let at = rest_of(pair.source@, source);
    assert(due(disk, before.pending@[before.pending@.len() - 1], source, destination));
    // The pair itself is planned where it is vacant.
    let plan = match step {
        PairStep::List(children) => children.planner.plan,
        _ => after.plan,
    };
    let vacant = at_destination is Missing;
    if vacant {
        lemma_plan_grows(disk, before.plan, plan, pair, source, destination);
    }
    let children = match step {
        PairStep::List(_) => after.pending@.skip(left.len() as int),
        _ => Seq::empty(),
    };
    if step is List {
        lemma_children_are_due(disk, pair, entries@, children, source, destination);
        assert(after.pending@.take(left.len() as int) == left);
    }
    assert forall|i: int| 0 <= i < after.pending@.len() implies due(
        disk,
        #[trigger] after.pending@[i],
        source,
        destination,
    ) by {
        if i < left.len() {
            assert(after.pending@[i] == before.pending@[i]) by {
                if step is List {
                    assert(after.pending@.take(left.len() as int)[i] == left[i]);
                }
            }
        } else {
            assert(after.pending@[i] == children[i - left.len()]);
        }
    }
    assert forall|rest: Seq<Seq<u8>>| #[trigger]
        adds(disk, source, destination, rest) implies makes(after.plan, below(destination, rest))
        || copies(after.plan, below(destination, rest)) || reaches(
        after.pending@,
        source,
        rest,
    ) by {
        if makes(before.plan, below(destination, rest)) || copies(
            before.plan,
            below(destination, rest),
        ) {
        } else {
            lemma_reached_without(before.pending@, source, rest);
            if reaches(left, source, rest) {
                let i = choose|i: int|
                    0 <= i < left.len() && rest_of(
                        (#[trigger] left[i]).source@,
                        source,
                    ).is_prefix_of(rest);
                assert(after.pending@[i] == left[i]) by {
                    if step is List {
                        assert(after.pending@.take(left.len() as int)[i] == left[i]);
                    }
                }
            } else if rest == at {
                assert(below(destination, rest) == pair.destination@);
            } else if step is List {
                assert(reaches(children, source, rest));
                let i = choose|i: int|
                    0 <= i < children.len() && rest_of(
                        (#[trigger] children[i]).source@,
                        source,
                    ).is_prefix_of(rest);
                assert(after.pending@[left.len() + i] == children[i]);
            } else {
                lemma_nothing_else_below(disk, pair, source, destination, rest);
            }
        }
    }
}

proof fn lemma_run_is_on_course(
    disk: Objects,
    run: Seq<MergePlanner>,
    source: PathModel,
    destination: PathModel,
    at: int,
)
    requires
        tree_at(disk, source),
        disk.dom().contains(source),
        planned_in(disk, run, source, destination),
        0 <= at < run.len(),
    ensures
        on_course(disk, run[at], source, destination),
    decreases at,
{
    if at == 0 {
        let pair = run[0].pending@[0];
        let none = Seq::<Seq<u8>>::empty();
        assert(rest_of(source, source) =~= none);
        assert(below(source, none).names =~= source.names);
        assert(below(destination, none).names =~= destination.names);
        assert forall|rest: Seq<Seq<u8>>| #[trigger]
            adds(disk, source, destination, rest) implies reaches(
            run[0].pending@,
            source,
            rest,
        ) by {
            assert(rest_of(run[0].pending@[0].source@, source).is_prefix_of(rest));
        }
    } else {
        lemma_run_is_on_course(disk, run, source, destination, at - 1);
        assert(goes_on(disk, run, at - 1));
        let (wanted, at_source, at_destination, step, entries) = choose|
            wanted: PairWanted,
            at_source: Lookup,
            at_destination: Lookup,
            step: PairStep,
            entries: Vec<Name>,
        | #[trigger]
            learns(
                disk,
                run[at - 1],
                run[at - 1 + 1],
                wanted,
                at_source,
                at_destination,
                step,
                entries,
            );
        lemma_stays_on_course(
            disk,
            run[at - 1],
            run[at],
            wanted,
            at_source,
            at_destination,
            step,
            entries,
            source,
            destination,
        );
    }
}

/// A whole plan holds exactly what the source has and the destination lacks,
/// each at its own place: folders are made, and everything else is copied from
/// where it stands in the source.
pub proof fn lemma_plan_is_what_is_lacking(
    disk: Objects,
    run: Seq<MergePlanner>,
    source: PathModel,
    destination: PathModel,
)
    requires
        tree_at(disk, source),
        disk.dom().contains(source),
        planned_in(disk, run, source, destination),
    ensures
        plan_is_due(disk, run.last().plan, source, destination),
        forall|rest: Seq<Seq<u8>>| #[trigger]
            adds(disk, source, destination, rest) ==> makes(
                run.last().plan,
                below(destination, rest),
            ) || copies(run.last().plan, below(destination, rest)),
{
    lemma_run_is_on_course(disk, run, source, destination, run.len() - 1);
}

/// Whether a disk is what carrying out a plan leaves: all that was there, the
/// planned folders, and copies of the planned leaves.
pub open spec fn carried_out(before: Objects, plan: MergePlan, after: Objects) -> bool {
    &&& forall|path: PathModel| #[trigger]
        after.dom().contains(path) <==> before.dom().contains(path) || makes(plan, path) || copies(
            plan,
            path,
        )
    &&& forall|path: PathModel| #[trigger]
        before.dom().contains(path) ==> after[path] == before[path]
    &&& forall|i: int|
        0 <= i < plan.directories@.len() ==> after[(
        #[trigger] plan.directories@[i])@].kind is Directory
    &&& forall|i: int|
        0 <= i < plan.files@.len() ==> after[(#[trigger] plan.files@[i]).destination@].like(
            before[plan.files@[i].source@],
        )
}

/// A merge gives the union of the two trees. The destination keeps all it has.
/// It gains everything the source has in a place that is free and lies below
/// no name that is taken by anything but a folder. And it gains nothing else.
pub proof fn lemma_merge_is_the_union(
    disk: Objects,
    run: Seq<MergePlanner>,
    source: PathModel,
    destination: PathModel,
    after: Objects,
)
    requires
        tree_at(disk, source),
        disk.dom().contains(source),
        planned_in(disk, run, source, destination),
        carried_out(disk, run.last().plan, after),
    ensures
        forall|path: PathModel| #[trigger]
            disk.dom().contains(path) ==> after.dom().contains(path) && after[path] == disk[path],
        forall|rest: Seq<Seq<u8>>| #[trigger]
            adds(disk, source, destination, rest) ==> {
                let from = disk[below(source, rest)];
                let to = after[below(destination, rest)];
                &&& after.dom().contains(below(destination, rest))
                &&& if from.kind is Directory {
                    to.kind is Directory
                } else {
                    to.like(from)
                }
            },
        forall|path: PathModel| #[trigger]
            after.dom().contains(path) && !disk.dom().contains(path) ==> path == below(
                destination,
                rest_of(path, destination),
            ) && adds(disk, source, destination, rest_of(path, destination)),
{
    lemma_plan_is_what_is_lacking(disk, run, source, destination);
    let plan = run.last().plan;
    assert forall|rest: Seq<Seq<u8>>| #[trigger] adds(disk, source, destination, rest) implies {
        let from = disk[below(source, rest)];
        let to = after[below(destination, rest)];
        &&& after.dom().contains(below(destination, rest))
        &&& if from.kind is Directory {
            to.kind is Directory
        } else {
            to.like(from)
        }
    } by {
        let path = below(destination, rest);
        assert(rest_of(path, destination) =~= rest);
        if makes(plan, path) {
            let i = choose|i: int|
                0 <= i < plan.directories@.len() && (#[trigger] plan.directories@[i])@ == path;
            assert(due_directory(disk, plan.directories@[i]@, source, destination));
        } else {
            let i = choose|i: int|
                0 <= i < plan.files@.len() && (#[trigger] plan.files@[i]).destination@ == path;
            let pair = plan.files@[i];
            assert(due_file(disk, pair, source, destination));
            assert(rest_of(pair.destination@, destination) =~= rest_of(pair.source@, source));
        }
    }
    assert forall|path: PathModel| #[trigger]
        after.dom().contains(path) && !disk.dom().contains(path) implies path == below(
        destination,
        rest_of(path, destination),
    ) && adds(disk, source, destination, rest_of(path, destination)) by {
        if makes(plan, path) {
            let i = choose|i: int|
                0 <= i < plan.directories@.len() && (#[trigger] plan.directories@[i])@ == path;
            assert(due_directory(disk, plan.directories@[i]@, source, destination));
        } else {
            let i = choose|i: int|
                0 <= i < plan.files@.len() && (#[trigger] plan.files@[i]).destination@ == path;
            let pair = plan.files@[i];
            assert(due_file(disk, pair, source, destination));
            assert(rest_of(pair.destination@, destination) =~= rest_of(pair.source@, source));
        }
    }
}

} // verus!
