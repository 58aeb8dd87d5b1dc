//! What a finished copy is: the whole tree.
//!
//! A copy is followed here from its first step to the point where everything
//! is staged, told what is on the disk, and with every system call that it was
//! told succeeded having done what it was asked for.

use vstd::prelude::*;

use crate::fsops::copier::{
    lemma_link_key_is_unique, link_key, visits_child, Copier, CopierModel, CopyStep,
    CreatingDirectory, FileStep, Finishing, Linking, MadeDirectory, MadeLink, Opened,
    OpeningDirectory, OpeningFile, PreservingFile, TreeStep, VisitStep, Visiting,
};
use crate::fsops::copy::WholeContent;
use crate::fsops::dropped::Dropped;
use crate::fsops::identity::Metadata;
use crate::fsops::journal::PathSnapshot;
use crate::fsops::local::{is_entry_name, Name};
use crate::fsops::snapshots::{collected, rebased, SnapshotCollector};
use crate::fsops::tree::{
    can_rename, lemma_rebased_is_valid, renamed, vacant, Objects, Thing,
};
use crate::fsops::union::{
    below, lemma_sorting_keeps_names, lemma_tree_is_closed, listed, lists, rest_of, tree_at,
};
use crate::order::sorted;
use crate::path::{is_name, lemma_join_then_file_name, PathBuf, PathModel};

verus! {

/// A copy under way, and what it has made so far.
#[verifier::ext_equal]
pub struct CopyState {
    pub copier: CopierModel,
    pub staged: Objects,
}

/// Whether a disk is one that can be: what is below a root is a tree, folders
/// hold no content of their own, and two names of one object show the same.
pub open spec fn sound(disk: Objects, root: PathModel) -> bool {
    &&& tree_at(disk, root)
    &&& forall|path: PathModel| #[trigger]
        disk.dom().contains(path) && disk[path].kind is Directory ==> disk[path].content.len() == 0
    &&& forall|left: PathModel, right: PathModel|
        disk.dom().contains(left) && disk.dom().contains(right) && (#[trigger] disk[left]).key == (
        #[trigger] disk[right]).key ==> disk[left] == disk[right]
}

/// Whether a description is that of what is at a path.
pub open spec fn shows(disk: Objects, path: PathModel, metadata: Metadata) -> bool {
    disk.dom().contains(path) && metadata.kind == disk[path].kind && metadata.key()
        == disk[path].key
}

/// Whether one thing was put at a path, and nothing else was done.
pub open spec fn put(before: Objects, after: Objects, path: PathModel) -> bool {
    after == before.insert(path, after[path])
}

/// Whether a copy made a folder and went into it.
pub open spec fn enters(
    disk: Objects,
    before: CopyState,
    after: CopyState,
    visiting: Visiting,
    metadata: Metadata,
    opening: OpeningDirectory,
    opened: Opened,
    creating: CreatingDirectory,
    made: MadeDirectory,
    copier: Copier,
) -> bool {
    let to = visiting.destination@;
    &&& before.copier.wants(false, TreeStep::Visit(visiting))
    &&& shows(disk, visiting.source@, metadata)
    &&& visiting.follows(Some(metadata), VisitStep::OpenDirectory(opening))
    &&& opening.follows(opened, Ok::<CreatingDirectory, String>(creating))
    &&& creating.follows(made, Ok::<Copier, String>(copier))
    &&& after.copier == copier@
    &&& put(before.staged, after.staged, to)
    &&& after.staged[to].kind is Directory
    &&& after.staged[to].content.len() == 0
    &&& made matches MadeDirectory::Made { children, .. }
    &&& listed(disk, visiting.source@, children@)
}

/// Whether a copy made a file: with the bytes of its source, or as another
/// name of the copy it already has of the same object.
pub open spec fn copies_file(
    disk: Objects,
    before: CopyState,
    after: CopyState,
    visiting: Visiting,
    metadata: Metadata,
    opening: OpeningFile,
    opened: Opened,
    step: FileStep,
    whole: WholeContent,
    preserving: PreservingFile,
    lost: Dropped,
    created: Metadata,
    copier: Copier,
) -> bool {
    let to = visiting.destination@;
    &&& before.copier.wants(false, TreeStep::Visit(visiting))
    &&& shows(disk, visiting.source@, metadata)
    &&& visiting.follows(Some(metadata), VisitStep::OpenFile(opening))
    &&& opening.follows(opened, step)
    &&& match step {
        FileStep::Content(copying) => copying.follows(
            Ok::<WholeContent, String>(whole),
            Ok::<PreservingFile, String>(preserving),
        ) && after.staged[to].content == disk[visiting.source@].content,
        FileStep::Link(linking) => linking.follows(
            true,
            Ok::<PreservingFile, String>(preserving),
        ) && after.staged[to].content == before.staged[linking.existing@].content,
        FileStep::Failed(_) => false,
    }
    &&& preserving.follows(
        Ok::<Dropped, String>(lost),
        Some(created),
        Ok::<Copier, String>(copier),
    )
    &&& after.copier == copier@
    &&& put(before.staged, after.staged, to)
    &&& after.staged[to].kind is File
    &&& lost.permissions || after.staged[to].mode == disk[visiting.source@].mode
}

/// Whether a copy made a link like its source, or went on without it where
/// there are none.
pub open spec fn copies_link(
    disk: Objects,
    before: CopyState,
    after: CopyState,
    visiting: Visiting,
    metadata: Metadata,
    linking: Linking,
    made: MadeLink,
    copier: Copier,
) -> bool {
    let to = visiting.destination@;
    &&& before.copier.wants(false, TreeStep::Visit(visiting))
    &&& shows(disk, visiting.source@, metadata)
    &&& visiting.follows(Some(metadata), VisitStep::CopyLink(linking))
    &&& linking.follows(made, Ok::<Copier, String>(copier))
    &&& after.copier == copier@
    &&& if made is Made {
        put(before.staged, after.staged, to) && after.staged[to].like(disk[visiting.source@])
    } else {
        after.staged == before.staged
    }
}

/// Whether a copy gave a folder it made the attributes of its source.
pub open spec fn finishes(
    disk: Objects,
    before: CopyState,
    after: CopyState,
    finishing: Finishing,
    lost: Dropped,
    found: Metadata,
    copier: Copier,
) -> bool {
    &&& before.copier.wants(false, TreeStep::FinishDirectory(finishing))
    &&& finishing.follows(
        Ok::<Dropped, String>(lost),
        Some(found),
        Ok::<Copier, String>(copier),
    )
    &&& after.copier == copier@
    &&& finishing.what() matches CopyStep::FinishDirectory { source, destination, .. }
    &&& put(before.staged, after.staged, destination@)
    &&& after.staged[destination@] == (Thing {
        mode: after.staged[destination@].mode,
        ..before.staged[destination@]
    })
    &&& lost.permissions || after.staged[destination@].mode == disk[source@].mode
}

/// Whether a copy went on from one state to the next.
pub open spec fn goes_on(disk: Objects, run: Seq<CopyState>, at: int) -> bool {
    let before = run[at];
    let after = run[at + 1];
    ||| exists|
        visiting: Visiting,
        metadata: Metadata,
        opening: OpeningDirectory,
        opened: Opened,
        creating: CreatingDirectory,
        made: MadeDirectory,
        copier: Copier,
    | #[trigger]
        enters(
            disk,
            before,
            after,
            visiting,
            metadata,
            opening,
            opened,
            creating,
            made,
            copier,
        )
    ||| exists|
        visiting: Visiting,
        metadata: Metadata,
        opening: OpeningFile,
        opened: Opened,
        step: FileStep,
        whole: WholeContent,
        preserving: PreservingFile,
        lost: Dropped,
        created: Metadata,
        copier: Copier,
    | #[trigger]
        copies_file(
            disk,
            before,
            after,
            visiting,
            metadata,
            opening,
            opened,
            step,
            whole,
            preserving,
            lost,
            created,
            copier,
        )
    ||| exists|
        visiting: Visiting,
        metadata: Metadata,
        linking: Linking,
        made: MadeLink,
        copier: Copier,
    | #[trigger] copies_link(disk, before, after, visiting, metadata, linking, made, copier)
    ||| exists|finishing: Finishing, lost: Dropped, found: Metadata, copier: Copier| #[trigger]
        finishes(disk, before, after, finishing, lost, found, copier)
}

/// Whether a copy of the tree at `source` went through these states, from its
/// first step until everything was staged at `root`.
pub open spec fn copied_in(
    disk: Objects,
    run: Seq<CopyState>,
    source: PathModel,
    root: PathModel,
) -> bool {
    &&& run.len() > 0
    &&& run[0].staged == Map::<PathModel, Thing>::empty()
    &&& starts(run[0].copier, source, root)
    &&& forall|i: int| 0 <= i < run.len() - 1 ==> #[trigger] goes_on(disk, run, i)
    &&& run.last().copier.steps.len() == 0
}

/// Whether a copy has not begun.
pub open spec fn starts(copier: CopierModel, source: PathModel, root: PathModel) -> bool {
    &&& copier.steps.len() == 1
    &&& copier.steps[0] matches CopyStep::Visit { source: from, destination: to, .. } && from@
        == source && to@ == root
    &&& copier.hardlinks == Map::<u128, PathBuf>::empty()
    &&& copier.sources.snapshots@.len() == 0
    &&& copier.created.snapshots@.len() == 0
    &&& copier.dropped.is_nothing()
}

/// Whether a collector describes a path.
pub open spec fn recorded(snapshots: Seq<PathSnapshot>, path: PathModel) -> bool {
    exists|i: int| 0 <= i < snapshots.len() && (#[trigger] snapshots[i]).path@ == path
}

/// Whether two paths stand at the same names below two roots.
pub open spec fn stand(
    from: PathModel,
    to: PathModel,
    source: PathModel,
    root: PathModel,
) -> bool {
    from == below(source, rest_of(from, source)) && to == below(root, rest_of(from, source))
}

/// Whether a step is about something in the tree, at its place in the copy.
pub open spec fn step_stands(
    disk: Objects,
    state: CopyState,
    step: CopyStep,
    source: PathModel,
    root: PathModel,
) -> bool {
    match step {
        CopyStep::Visit { source: from, destination: to, .. } => stand(
            from@,
            to@,
            source,
            root,
        ) && disk.dom().contains(from@),
        CopyStep::FinishDirectory { source: from, destination: to, place, .. } => {
            &&& stand(from@, to@, source, root)
            &&& disk.dom().contains(from@)
            &&& state.staged.dom().contains(to@)
            &&& place matches Some(place) ==> place < state.copier.created.snapshots@.len()
                && state.copier.created.snapshots@[place as int].path@ == to@
        },
    }
}

/// Whether every step left is about something in the tree.
pub open spec fn steps_stand(
    disk: Objects,
    state: CopyState,
    source: PathModel,
    root: PathModel,
) -> bool {
    forall|i: int|
        0 <= i < state.copier.steps.len() ==> step_stands(
            disk,
            state,
            #[trigger] state.copier.steps[i],
            source,
            root,
        )
}

/// Whether a step leads to what the source has at these names.
pub open spec fn leads_to(step: CopyStep, source: PathModel, rest: Seq<Seq<u8>>) -> bool {
    step matches CopyStep::Visit { source: from, .. } && rest_of(from@, source).is_prefix_of(rest)
}

/// Whether some step left leads to what the source has at these names.
pub open spec fn reaches(steps: Seq<CopyStep>, source: PathModel, rest: Seq<Seq<u8>>) -> bool {
    exists|i: int| 0 <= i < steps.len() && leads_to(#[trigger] steps[i], source, rest)
}

/// Whether a step finishes the folder at a path.
pub open spec fn step_finishes(step: CopyStep, path: PathModel) -> bool {
    step matches CopyStep::FinishDirectory { destination, .. } && destination@ == path
}

/// Whether some step left finishes the folder at a path.
pub open spec fn to_finish(steps: Seq<CopyStep>, path: PathModel) -> bool {
    exists|i: int| 0 <= i < steps.len() && step_finishes(#[trigger] steps[i], path)
}

/// What the source has at the place of a path of the copy.
pub open spec fn origin(path: PathModel, source: PathModel, root: PathModel) -> PathModel {
    below(source, rest_of(path, root))
}

/// Whether what is at a path of the copy comes from its place in the source.
pub open spec fn comes_from(
    disk: Objects,
    staged: Objects,
    path: PathModel,
    source: PathModel,
    root: PathModel,
) -> bool {
    let from = origin(path, source, root);
    &&& path == below(root, rest_of(path, root))
    &&& disk.dom().contains(from)
    &&& staged[path].kind == disk[from].kind
    &&& staged[path].content == disk[from].content
}

/// Whether the copy holds nothing but what the source holds.
pub open spec fn staged_is_copied(
    disk: Objects,
    staged: Objects,
    source: PathModel,
    root: PathModel,
) -> bool {
    forall|path: PathModel| #[trigger]
        staged.dom().contains(path) ==> comes_from(disk, staged, path, source, root)
}

/// Whether everything in the copy has the bits of its source, or will when its
/// folder is finished.
pub open spec fn bits_kept(
    disk: Objects,
    state: CopyState,
    source: PathModel,
    root: PathModel,
) -> bool {
    state.copier.dropped.permissions || forall|path: PathModel| #[trigger]
        state.staged.dom().contains(path) ==> state.staged[path].mode == disk[origin(
            path,
            source,
            root,
        )].mode || to_finish(state.copier.steps, path)
}

/// Whether everything in the source is copied, or will be, or could not be
/// kept.
pub open spec fn all_reached(
    disk: Objects,
    state: CopyState,
    source: PathModel,
    root: PathModel,
) -> bool {
    forall|rest: Seq<Seq<u8>>| #[trigger]
        disk.dom().contains(below(source, rest)) ==> state.staged.dom().contains(below(root, rest))
            || reaches(state.copier.steps, source, rest) || (state.copier.dropped.links
            && disk[below(source, rest)].kind is Symlink)
}

/// Whether every copy that further names may link to is one of that object.
pub open spec fn links_known(
    disk: Objects,
    state: CopyState,
    source: PathModel,
    root: PathModel,
) -> bool {
    forall|key: u128| #[trigger]
        state.copier.hardlinks.contains_key(key) ==> {
            let path = state.copier.hardlinks[key]@;
            state.staged.dom().contains(path) && link_key(disk[origin(path, source, root)].key)
                == key
        }
}

/// Whether exactly what was made is recorded as made, while there is room.
pub open spec fn created_is_recorded(state: CopyState) -> bool {
    state.copier.created.overflowed || forall|path: PathModel|
        #![trigger state.staged.dom().contains(path)]
        #![trigger recorded(state.copier.created.snapshots@, path)]
        recorded(state.copier.created.snapshots@, path) <==> state.staged.dom().contains(path)
}

/// Whether exactly what was looked at is recorded as a source, while there is
/// room.
pub open spec fn sources_are_recorded(
    disk: Objects,
    state: CopyState,
    source: PathModel,
) -> bool {
    state.copier.sources.overflowed || {
        &&& forall|path: PathModel| #[trigger]
            recorded(state.copier.sources.snapshots@, path) ==> path == below(
                source,
                rest_of(path, source),
            ) && disk.dom().contains(path)
        &&& forall|rest: Seq<Seq<u8>>| #[trigger]
            disk.dom().contains(below(source, rest)) ==> recorded(
                state.copier.sources.snapshots@,
                below(source, rest),
            ) || reaches(state.copier.steps, source, rest)
    }
}

/// Whether a copy is on its way to being the whole tree.
pub open spec fn on_course(
    disk: Objects,
    state: CopyState,
    source: PathModel,
    root: PathModel,
) -> bool {
    &&& steps_stand(disk, state, source, root)
    &&& staged_is_copied(disk, state.staged, source, root)
    &&& bits_kept(disk, state, source, root)
    &&& all_reached(disk, state, source, root)
    &&& links_known(disk, state, source, root)
    &&& created_is_recorded(state)
    &&& sources_are_recorded(disk, state, source)
}

/// Recording one more object keeps what was recorded.
proof fn lemma_collected(
    before: SnapshotCollector,
    after: SnapshotCollector,
    place: Option<usize>,
    path: PathBuf,
    metadata: Metadata,
)
    requires
        collected(before, after, place, path, metadata),
    ensures
        before.snapshots@.len() <= after.snapshots@.len(),
        forall|i: int|
            0 <= i < before.snapshots@.len() ==> #[trigger] after.snapshots@[i]
                == before.snapshots@[i],
        before.overflowed ==> after.overflowed,
        !after.overflowed ==> forall|other: PathModel| #[trigger]
            recorded(after.snapshots@, other) <==> recorded(before.snapshots@, other) || other
                == path@,
        place matches Some(place) ==> place < after.snapshots@.len()
            && after.snapshots@[place as int].path@ == path@,
{
    if before.snapshots@.len() < before.limit {
        let last = before.snapshots@.len() as int;
        assert forall|i: int| 0 <= i < last implies #[trigger] after.snapshots@[i]
            == before.snapshots@[i] by {
            assert(after.snapshots@.drop_last()[i] == before.snapshots@[i]);
        }
        assert(after.snapshots@[last].path@ == path@);
        assert forall|other: PathModel| #[trigger]
            recorded(after.snapshots@, other) == (recorded(before.snapshots@, other) || other
                == path@) by {
            if recorded(before.snapshots@, other) {
                let i = choose|i: int|
                    0 <= i < before.snapshots@.len() && (#[trigger] before.snapshots@[i]).path@
                        == other;
                assert(after.snapshots@[i].path@ == other);
            }
            if recorded(after.snapshots@, other) && other != path@ {
                let i = choose|i: int|
                    0 <= i < after.snapshots@.len() && (#[trigger] after.snapshots@[i]).path@
                        == other;
                assert(before.snapshots@[i].path@ == other);
            }
        }
    }
}

/// A step stays about something in the tree while the copy grows.
proof fn lemma_step_stands_still(
    disk: Objects,
    before: CopyState,
    after: CopyState,
    step: CopyStep,
    source: PathModel,
    root: PathModel,
)
    requires
        step_stands(disk, before, step, source, root),
        before.staged.dom().subset_of(after.staged.dom()),
        before.copier.created.snapshots@.len() <= after.copier.created.snapshots@.len(),
        forall|i: int|
            0 <= i < before.copier.created.snapshots@.len() ==> (
            #[trigger] after.copier.created.snapshots@[i]).path@
                == before.copier.created.snapshots@[i].path@,
    ensures
        step_stands(disk, after, step, source, root),
{
}

/// What the step before last leads to, the ones left do too, unless it was the
/// last.
proof fn lemma_reached_without(steps: Seq<CopyStep>, source: PathModel, rest: Seq<Seq<u8>>)
    requires
        steps.len() > 0,
        reaches(steps, source, rest),
    ensures
        reaches(steps.drop_last(), source, rest) || leads_to(steps.last(), source, rest),
{
    let i = choose|i: int| 0 <= i < steps.len() && leads_to(#[trigger] steps[i], source, rest);
    if i < steps.len() - 1 {
        assert(steps.drop_last()[i] == steps[i]);
    }
}

proof fn lemma_finished_without(steps: Seq<CopyStep>, path: PathModel)
    requires
        steps.len() > 0,
        to_finish(steps, path),
    ensures
        to_finish(steps.drop_last(), path) || step_finishes(steps.last(), path),
{
    let i = choose|i: int| 0 <= i < steps.len() && step_finishes(#[trigger] steps[i], path);
    if i < steps.len() - 1 {
        assert(steps.drop_last()[i] == steps[i]);
    }
}

/// Nothing is below what is no folder.
proof fn lemma_leaf_leads_no_further(
    disk: Objects,
    source: PathModel,
    at: Seq<Seq<u8>>,
    rest: Seq<Seq<u8>>,
)
    requires
        tree_at(disk, source),
        disk.dom().contains(below(source, rest)),
        at.is_prefix_of(rest),
        !(disk[below(source, at)].kind is Directory),
    ensures
        rest == at,
{
    if rest.len() > at.len() {
        lemma_tree_is_closed(disk, source, rest, at.len() as int);
        assert(rest.take(at.len() as int) =~= at);
    } else {
        assert(rest =~= at);
    }
}

/// Steps left after the last stay about something in the tree.
proof fn lemma_left_steps_stand(
    disk: Objects,
    before: CopyState,
    after: CopyState,
    source: PathModel,
    root: PathModel,
)
    requires
        steps_stand(disk, before, source, root),
        before.copier.steps.len() > 0,
        after.copier.steps == before.copier.steps.drop_last(),
        before.staged.dom().subset_of(after.staged.dom()),
        before.copier.created.snapshots@.len() <= after.copier.created.snapshots@.len(),
        forall|i: int|
            0 <= i < before.copier.created.snapshots@.len() ==> (
            #[trigger] after.copier.created.snapshots@[i]).path@
                == before.copier.created.snapshots@[i].path@,
    ensures
        steps_stand(disk, after, source, root),
{
    assert forall|i: int| 0 <= i < after.copier.steps.len() implies step_stands(
        disk,
        after,
        #[trigger] after.copier.steps[i],
        source,
        root,
    ) by {
        assert(after.copier.steps[i] == before.copier.steps[i]);
        lemma_step_stands_still(disk, before, after, before.copier.steps[i], source, root);
    }
}

/// Looking at one more source keeps the record of sources, where the step that
/// led to it led no further.
proof fn lemma_leaf_is_recorded_as_source(
    disk: Objects,
    before: CopyState,
    after: CopyState,
    from: PathBuf,
    metadata: Metadata,
    source: PathModel,
)
    requires
        tree_at(disk, source),
        sources_are_recorded(disk, before, source),
        before.copier.steps.len() > 0,
        before.copier.steps.last() matches CopyStep::Visit { source: visited, .. } && visited
            == from,
        from@ == below(source, rest_of(from@, source)),
        disk.dom().contains(from@),
        !(disk[from@].kind is Directory),
        after.copier.steps == before.copier.steps.drop_last(),
        exists|place: Option<usize>| #[trigger]
            collected(before.copier.sources, after.copier.sources, place, from, metadata),
    ensures
        sources_are_recorded(disk, after, source),
{
    let place = choose|place: Option<usize>| #[trigger]
        collected(before.copier.sources, after.copier.sources, place, from, metadata);
    lemma_collected(before.copier.sources, after.copier.sources, place, from, metadata);
    if !after.copier.sources.overflowed {
        let steps = before.copier.steps;
        assert forall|rest: Seq<Seq<u8>>| #[trigger]
            disk.dom().contains(below(source, rest)) implies recorded(
            after.copier.sources.snapshots@,
            below(source, rest),
        ) || reaches(after.copier.steps, source, rest) by {
            if !recorded(before.copier.sources.snapshots@, below(source, rest)) {
                lemma_reached_without(steps, source, rest);
                if leads_to(steps.last(), source, rest) {
                    lemma_leaf_leads_no_further(disk, source, rest_of(from@, source), rest);
                }
            }
        }
    }
}

/// Making one thing that is no folder keeps a copy on course.
proof fn lemma_leaf_keeps_course(
    disk: Objects,
    before: CopyState,
    after: CopyState,
    from: PathBuf,
    to: PathBuf,
    metadata: Metadata,
    created: Metadata,
    source: PathModel,
    root: PathModel,
)
    requires
        sound(disk, source),
        on_course(disk, before, source, root),
        before.copier.steps.len() > 0,
        before.copier.steps.last() matches CopyStep::Visit { source: visited, destination, .. }
            && visited == from && destination == to,
        shows(disk, from@, metadata),
        !(metadata.kind is Directory),
        after.copier.steps == before.copier.steps.drop_last(),
        exists|place: Option<usize>| #[trigger]
            collected(before.copier.sources, after.copier.sources, place, from, metadata),
        exists|place: Option<usize>| #[trigger]
            collected(before.copier.created, after.copier.created, place, to, created),
        put(before.staged, after.staged, to@),
        after.staged[to@].kind == disk[from@].kind,
        after.staged[to@].content == disk[from@].content,
        before.copier.dropped.permissions ==> after.copier.dropped.permissions,
        before.copier.dropped.links ==> after.copier.dropped.links,
        after.copier.dropped.permissions || after.staged[to@].mode == disk[from@].mode,
        after.copier.hardlinks == before.copier.hardlinks || after.copier.hardlinks
            == before.copier.hardlinks.insert(link_key(disk[from@].key), to),
    ensures
        on_course(disk, after, source, root),
{
    let steps = before.copier.steps;
    let at = rest_of(from@, source);
    assert(step_stands(disk, before, steps[steps.len() - 1], source, root));
    assert(rest_of(to@, root) =~= at);
    assert(origin(to@, source, root) == from@);
    let place = choose|place: Option<usize>| #[trigger]
        collected(before.copier.created, after.copier.created, place, to, created);
    lemma_collected(before.copier.created, after.copier.created, place, to, created);
    lemma_left_steps_stand(disk, before, after, source, root);
    lemma_leaf_is_recorded_as_source(disk, before, after, from, metadata, source);
    assert forall|path: PathModel| #[trigger] after.staged.dom().contains(path) implies comes_from(
        disk,
        after.staged,
        path,
        source,
        root,
    ) by {
        if path != to@ {
            assert(before.staged.dom().contains(path));
            assert(after.staged[path] == before.staged[path]);
        }
    }
    assert(bits_kept(disk, after, source, root)) by {
        if !after.copier.dropped.permissions {
            assert forall|path: PathModel| #[trigger]
                after.staged.dom().contains(path) implies after.staged[path].mode == disk[origin(
                path,
                source,
                root,
            )].mode || to_finish(after.copier.steps, path) by {
                if path != to@ {
                    assert(before.staged.dom().contains(path));
                    assert(after.staged[path] == before.staged[path]);
                    if to_finish(steps, path) {
                        lemma_finished_without(steps, path);
                    }
                }
            }
        }
    }
    assert forall|rest: Seq<Seq<u8>>| #[trigger]
        disk.dom().contains(below(source, rest)) implies after.staged.dom().contains(
        below(root, rest),
    ) || reaches(after.copier.steps, source, rest) || (after.copier.dropped.links && disk[below(
        source,
        rest,
    )].kind is Symlink) by {
        if reaches(steps, source, rest) {
            lemma_reached_without(steps, source, rest);
            if leads_to(steps.last(), source, rest) {
                lemma_leaf_leads_no_further(disk, source, at, rest);
            }
        }
    }
    assert forall|key: u128| #[trigger] after.copier.hardlinks.contains_key(key) implies {
        let path = after.copier.hardlinks[key]@;
        after.staged.dom().contains(path) && link_key(disk[origin(path, source, root)].key) == key
    } by {
        if before.copier.hardlinks.contains_key(key) && after.copier.hardlinks[key]
            == before.copier.hardlinks[key] {
            assert(before.staged.dom().contains(before.copier.hardlinks[key]@));
        }
    }
}

/// Going on without a link keeps a copy on course.
proof fn lemma_dropped_link_keeps_course(
    disk: Objects,
    before: CopyState,
    after: CopyState,
    from: PathBuf,
    to: PathBuf,
    metadata: Metadata,
    source: PathModel,
    root: PathModel,
)
    requires
        sound(disk, source),
        on_course(disk, before, source, root),
        before.copier.steps.len() > 0,
        before.copier.steps.last() matches CopyStep::Visit { source: visited, destination, .. }
            && visited == from && destination == to,
        shows(disk, from@, metadata),
        metadata.kind is Symlink,
        after.copier.steps == before.copier.steps.drop_last(),
        exists|place: Option<usize>| #[trigger]
            collected(before.copier.sources, after.copier.sources, place, from, metadata),
        after.copier.created == before.copier.created,
        after.staged == before.staged,
        after.copier.hardlinks == before.copier.hardlinks,
        after.copier.dropped.permissions == before.copier.dropped.permissions,
        after.copier.dropped.links,
    ensures
        on_course(disk, after, source, root),
{
    let steps = before.copier.steps;
    assert(step_stands(disk, before, steps[steps.len() - 1], source, root));
    lemma_left_steps_stand(disk, before, after, source, root);
    lemma_leaf_is_recorded_as_source(disk, before, after, from, metadata, source);
    assert(bits_kept(disk, after, source, root)) by {
        if !after.copier.dropped.permissions {
            assert forall|path: PathModel| #[trigger]
                after.staged.dom().contains(path) implies after.staged[path].mode == disk[origin(
                path,
                source,
                root,
            )].mode || to_finish(after.copier.steps, path) by {
                if to_finish(steps, path) {
                    lemma_finished_without(steps, path);
                }
            }
        }
    }
    assert forall|rest: Seq<Seq<u8>>| #[trigger]
        disk.dom().contains(below(source, rest)) implies after.staged.dom().contains(
        below(root, rest),
    ) || reaches(after.copier.steps, source, rest) || (after.copier.dropped.links && disk[below(
        source,
        rest,
    )].kind is Symlink) by {
        if reaches(steps, source, rest) {
            lemma_reached_without(steps, source, rest);
            if leads_to(steps.last(), source, rest) {
                lemma_leaf_leads_no_further(disk, source, rest_of(from@, source), rest);
            }
        }
    }
}

/// Finishing a folder keeps a copy on course.
proof fn lemma_finishing_keeps_course(
    disk: Objects,
    before: CopyState,
    after: CopyState,
    finishing: Finishing,
    lost: Dropped,
    found: Metadata,
    copier: Copier,
    source: PathModel,
    root: PathModel,
)
    requires
        on_course(disk, before, source, root),
        finishes(disk, before, after, finishing, lost, found, copier),
    ensures
        on_course(disk, after, source, root),
{
    let steps = before.copier.steps;
    assert(step_stands(disk, before, steps[steps.len() - 1], source, root));
    let (from, to, place) = match finishing.what() {
        CopyStep::FinishDirectory { source, destination, place, .. } => (
            source,
            destination,
            place,
        ),
        CopyStep::Visit { source, destination, .. } => (source, destination, None),
    };
    assert(rest_of(to@, root) =~= rest_of(from@, source));
    assert(after.staged.dom() =~= before.staged.dom());
    let made = before.copier.created.snapshots@;
    let now = after.copier.created.snapshots@;
    assert forall|i: int| 0 <= i < made.len() implies (#[trigger] now[i]).path@
        == made[i].path@ by {
        assert(before.copier.created.snapshots.len() == made.len());
        assert(i as usize as int == i);
    }
    assert forall|path: PathModel| #[trigger] recorded(now, path) == recorded(made, path) by {
        if recorded(now, path) {
            let i = choose|i: int| 0 <= i < now.len() && (#[trigger] now[i]).path@ == path;
            assert(made[i].path@ == path);
        }
        if recorded(made, path) {
            let i = choose|i: int| 0 <= i < made.len() && (#[trigger] made[i]).path@ == path;
            assert(now[i].path@ == path);
        }
    }
    lemma_left_steps_stand(disk, before, after, source, root);
    assert forall|path: PathModel| #[trigger] after.staged.dom().contains(path) implies comes_from(
        disk,
        after.staged,
        path,
        source,
        root,
    ) by {
        assert(before.staged.dom().contains(path));
    }
    assert(bits_kept(disk, after, source, root)) by {
        if !after.copier.dropped.permissions {
            assert forall|path: PathModel| #[trigger]
                after.staged.dom().contains(path) implies after.staged[path].mode == disk[origin(
                path,
                source,
                root,
            )].mode || to_finish(after.copier.steps, path) by {
                assert(before.staged.dom().contains(path));
                if path != to@ && to_finish(steps, path) {
                    lemma_finished_without(steps, path);
                }
            }
        }
    }
    assert forall|rest: Seq<Seq<u8>>| reaches(steps, source, rest) implies #[trigger] reaches(
        after.copier.steps,
        source,
        rest,
    ) by {
        lemma_reached_without(steps, source, rest);
    }
}

/// The child of a folder stands below it.
proof fn lemma_child_stands(
    from: PathModel,
    to: PathModel,
    name: Seq<u8>,
    source: PathModel,
    root: PathModel,
)
    requires
        stand(from, to, source, root),
        is_entry_name(name),
    ensures
        stand(from.join(name), to.join(name), source, root),
        rest_of(from.join(name), source) == rest_of(from, source).push(name),
        from.join(name) == below(source, rest_of(from, source).push(name)),
{
    let rest = rest_of(from, source);
    lemma_join_then_file_name(from, name);
    lemma_join_then_file_name(to, name);
    assert(from.join(name).names =~= source.names + rest.push(name));
    assert(to.join(name).names =~= root.names + rest.push(name));
    assert(rest_of(from.join(name), source) =~= rest.push(name));
}

/// Whether steps hold, after a place, one for each child of a folder.
spec fn visits_all(
    steps: Seq<CopyStep>,
    after: int,
    directory: usize,
    from: PathModel,
    to: PathModel,
    ordered: Seq<Name>,
) -> bool {
    &&& steps.len() == after + 1 + ordered.len()
    &&& forall|i: int|
        0 <= i < ordered.len() ==> visits_child(
            #[trigger] steps[after + 1 + i],
            directory,
            from,
            to,
            ordered[ordered.len() - 1 - i]@,
        )
}

/// The steps for the children of a folder lead to all that is below it.
proof fn lemma_children_lead_on(
    disk: Objects,
    steps: Seq<CopyStep>,
    after: int,
    directory: usize,
    from: PathModel,
    to: PathModel,
    entries: Seq<Name>,
    source: PathModel,
    root: PathModel,
    rest: Seq<Seq<u8>>,
)
    requires
        tree_at(disk, source),
        stand(from, to, source, root),
        listed(disk, from, entries),
        after >= 0,
        visits_all(steps, after, directory, from, to, sorted(entries)),
        disk.dom().contains(below(source, rest)),
        rest_of(from, source).is_prefix_of(rest),
        rest != rest_of(from, source),
    ensures
        reaches(steps, source, rest),
{
    let at = rest_of(from, source);
    if rest.len() == at.len() {
        assert(rest =~= at);
    }
    let k = at.len() as int;
    let name = rest[k];
    let ordered = sorted(entries);
    lemma_tree_is_closed(disk, source, rest, k);
    assert(rest.take(k + 1) =~= at.push(name));
    lemma_child_stands(from, to, name, source, root);
    assert(lists(entries, name));
    lemma_sorting_keeps_names(entries);
    assert(lists(ordered, name));
    let j = choose|j: int| 0 <= j < ordered.len() && (#[trigger] ordered[j])@ == name;
    let i = ordered.len() - 1 - j;
    assert(visits_child(
        steps[after + 1 + i],
        directory,
        from,
        to,
        ordered[ordered.len() - 1 - i]@,
    ));
    assert(at.push(name).is_prefix_of(rest));
    assert(leads_to(steps[after + 1 + i], source, rest));
}

/// Going into a folder keeps the steps about things in the tree.
proof fn lemma_entered_steps_stand(
    disk: Objects,
    before: CopyState,
    after: CopyState,
    visiting: Visiting,
    directory: usize,
    entries: Seq<Name>,
    source: PathModel,
    root: PathModel,
)
    requires
        steps_stand(disk, before, source, root),
        before.copier.steps.len() > 0,
        stand(visiting.source@, visiting.destination@, source, root),
        disk.dom().contains(visiting.source@),
        listed(disk, visiting.source@, entries),
        before.staged.dom().subset_of(after.staged.dom()),
        before.copier.created.snapshots@.len() <= after.copier.created.snapshots@.len(),
        forall|i: int|
            0 <= i < before.copier.created.snapshots@.len() ==> (
            #[trigger] after.copier.created.snapshots@[i]).path@
                == before.copier.created.snapshots@[i].path@,
        ({
            let below_it = before.copier.steps.len() - 1;
            &&& visits_all(
                after.copier.steps,
                below_it,
                directory,
                visiting.source@,
                visiting.destination@,
                sorted(entries),
            )
            &&& after.copier.steps.take(below_it) == before.copier.steps.drop_last()
            &&& step_stands(disk, after, after.copier.steps[below_it], source, root)
        }),
    ensures
        steps_stand(disk, after, source, root),
{
    let below_it = before.copier.steps.len() - 1;
    let steps = after.copier.steps;
    let ordered = sorted(entries);
    lemma_sorting_keeps_names(entries);
    assert forall|i: int| 0 <= i < steps.len() implies step_stands(
        disk,
        after,
        #[trigger] steps[i],
        source,
        root,
    ) by {
        if i < below_it {
            assert(steps[i] == steps.take(below_it)[i]);
            assert(steps[i] == before.copier.steps[i]);
            lemma_step_stands_still(disk, before, after, before.copier.steps[i], source, root);
        } else if i > below_it {
            let k = i - below_it - 1;
            let name = ordered[ordered.len() - 1 - k]@;
            assert(visits_child(
                steps[below_it + 1 + k],
                directory,
                visiting.source@,
                visiting.destination@,
                name,
            ));
            assert(lists(entries, name));
            lemma_child_stands(visiting.source@, visiting.destination@, name, source, root);
        }
    }
}

/// Going into a folder keeps a copy on course.
proof fn lemma_entering_keeps_course(
    disk: Objects,
    before: CopyState,
    after: CopyState,
    visiting: Visiting,
    metadata: Metadata,
    opening: OpeningDirectory,
    opened: Opened,
    creating: CreatingDirectory,
    made: MadeDirectory,
    copier: Copier,
    source: PathModel,
    root: PathModel,
)
    requires
        sound(disk, source),
        on_course(disk, before, source, root),
        enters(
            disk,
            before,
            after,
            visiting,
            metadata,
            opening,
            opened,
            creating,
            made,
            copier,
        ),
    ensures
        on_course(disk, after, source, root),
{
    let steps = before.copier.steps;
    let left = steps.drop_last();
    let now = after.copier.steps;
    let below_it = left.len() as int;
    let (created, directory, children) = match made {
        MadeDirectory::Made { created, directory, children } => (created, directory, children),
        _ => arbitrary(),
    };
    let from = visiting.source@;
    let to = visiting.destination@;
    let at = rest_of(from, source);
    assert(step_stands(disk, before, steps[steps.len() - 1], source, root));
    assert(rest_of(to, root) =~= at);
    let place = match now[below_it] {
        CopyStep::FinishDirectory { place, .. } => place,
        _ => None,
    };
    lemma_collected(
        before.copier.created,
        after.copier.created,
        place,
        visiting.destination,
        created,
    );
    let looked = choose|looked: Option<usize>| #[trigger]
        collected(
            before.copier.sources,
            after.copier.sources,
            looked,
            visiting.source,
            metadata,
        );
    lemma_collected(
        before.copier.sources,
        after.copier.sources,
        looked,
        visiting.source,
        metadata,
    );
    assert(visits_all(now, below_it, directory, from, to, sorted(children@)));
    lemma_entered_steps_stand(
        disk,
        before,
        after,
        visiting,
        directory,
        children@,
        source,
        root,
    );
    // What the steps before led to, the steps now lead to, but for the folder.
    assert forall|rest: Seq<Seq<u8>>| #[trigger]
        disk.dom().contains(below(source, rest)) && reaches(steps, source, rest) implies rest == at
        || reaches(now, source, rest) by {
        lemma_reached_without(steps, source, rest);
        if reaches(left, source, rest) {
            let i = choose|i: int| 0 <= i < left.len() && leads_to(#[trigger] left[i], source, rest);
            assert(now[i] == now.take(below_it)[i]);
            assert(leads_to(now[i], source, rest));
        } else if rest != at {
            lemma_children_lead_on(
                disk,
                now,
                below_it,
                directory,
                from,
                to,
                children@,
                source,
                root,
                rest,
            );
        }
    }
    assert(step_finishes(now[below_it], to));
    assert forall|path: PathModel| #[trigger] to_finish(steps, path) implies to_finish(
        now,
        path,
    ) by {
        lemma_finished_without(steps, path);
        let i = choose|i: int| 0 <= i < left.len() && step_finishes(#[trigger] left[i], path);
        assert(now[i] == now.take(below_it)[i]);
        assert(step_finishes(now[i], path));
    }
    assert forall|path: PathModel| #[trigger] after.staged.dom().contains(path) implies comes_from(
        disk,
        after.staged,
        path,
        source,
        root,
    ) by {
        if path != to {
            assert(before.staged.dom().contains(path));
            assert(after.staged[path] == before.staged[path]);
        } else {
            assert(after.staged[to].content =~= disk[from].content);
        }
    }
    assert(bits_kept(disk, after, source, root)) by {
        if !after.copier.dropped.permissions {
            assert forall|path: PathModel| #[trigger]
                after.staged.dom().contains(path) implies after.staged[path].mode == disk[origin(
                path,
                source,
                root,
            )].mode || to_finish(now, path) by {
                if path != to {
                    assert(before.staged.dom().contains(path));
                    assert(after.staged[path] == before.staged[path]);
                }
            }
        }
    }
    assert forall|rest: Seq<Seq<u8>>| #[trigger]
        disk.dom().contains(below(source, rest)) implies after.staged.dom().contains(
        below(root, rest),
    ) || reaches(now, source, rest) || (after.copier.dropped.links && disk[below(
        source,
        rest,
    )].kind is Symlink) by {
        if before.staged.dom().contains(below(root, rest)) {
            assert(after.staged.dom().contains(below(root, rest)));
        }
    }
    assert forall|key: u128| #[trigger] after.copier.hardlinks.contains_key(key) implies {
        let path = after.copier.hardlinks[key]@;
        after.staged.dom().contains(path) && link_key(disk[origin(path, source, root)].key) == key
    } by {
        assert(before.copier.hardlinks.contains_key(key));
    }
    assert(sources_are_recorded(disk, after, source)) by {
        if !after.copier.sources.overflowed {
            assert forall|rest: Seq<Seq<u8>>| #[trigger]
                disk.dom().contains(below(source, rest)) implies recorded(
                after.copier.sources.snapshots@,
                below(source, rest),
            ) || reaches(now, source, rest) by {
                if recorded(before.copier.sources.snapshots@, below(source, rest)) {
                    assert(recorded(after.copier.sources.snapshots@, below(source, rest)));
                }
            }
        }
    }
}

/// Copying a file keeps a copy on course.
proof fn lemma_file_keeps_course(
    disk: Objects,
    before: CopyState,
    after: CopyState,
    visiting: Visiting,
    metadata: Metadata,
    opening: OpeningFile,
    opened: Opened,
    step: FileStep,
    whole: WholeContent,
    preserving: PreservingFile,
    lost: Dropped,
    created: Metadata,
    copier: Copier,
    source: PathModel,
    root: PathModel,
)
    requires
        sound(disk, source),
        on_course(disk, before, source, root),
        copies_file(
            disk,
            before,
            after,
            visiting,
            metadata,
            opening,
            opened,
            step,
            whole,
            preserving,
            lost,
            created,
            copier,
        ),
    ensures
        on_course(disk, after, source, root),
{
    let from = visiting.source@;
    let to = visiting.destination@;
    match step {
        FileStep::Link(linking) => {
            let key = link_key(metadata.key());
            let existing = linking.existing@;
            assert(before.copier.hardlinks.contains_key(key));
            let other = origin(existing, source, root);
            assert(before.staged.dom().contains(existing));
            assert(comes_from(disk, before.staged, existing, source, root));
            lemma_link_key_is_unique(disk[other].key, disk[from].key);
            assert(disk[other] == disk[from]);
        },
        _ => {},
    }
    assert(after.staged[to].content == disk[from].content);
    let looked = choose|looked: Option<usize>| #[trigger]
        collected(
            before.copier.sources,
            after.copier.sources,
            looked,
            visiting.source,
            metadata,
        );
    let place = choose|place: Option<usize>| #[trigger]
        collected(
            before.copier.created,
            after.copier.created,
            place,
            visiting.destination,
            created,
        );
    lemma_leaf_keeps_course(
        disk,
        before,
        after,
        visiting.source,
        visiting.destination,
        metadata,
        created,
        source,
        root,
    );
}

/// Copying a link, or going on without it, keeps a copy on course.
proof fn lemma_link_keeps_course(
    disk: Objects,
    before: CopyState,
    after: CopyState,
    visiting: Visiting,
    metadata: Metadata,
    linking: Linking,
    made: MadeLink,
    copier: Copier,
    source: PathModel,
    root: PathModel,
)
    requires
        sound(disk, source),
        on_course(disk, before, source, root),
        copies_link(disk, before, after, visiting, metadata, linking, made, copier),
    ensures
        on_course(disk, after, source, root),
{
    assert(visiting.copier@.sources == before.copier.sources);
    assert(linking.copier@.sources == after.copier.sources);
    match made {
        MadeLink::Made(created) => lemma_leaf_keeps_course(
            disk,
            before,
            after,
            visiting.source,
            visiting.destination,
            metadata,
            created,
            source,
            root,
        ),
        _ => lemma_dropped_link_keeps_course(
            disk,
            before,
            after,
            visiting.source,
            visiting.destination,
            metadata,
            source,
            root,
        ),
    }
}

proof fn lemma_run_is_on_course(
    disk: Objects,
    run: Seq<CopyState>,
    source: PathModel,
    root: PathModel,
    at: int,
)
    requires
        sound(disk, source),
        disk.dom().contains(source),
        copied_in(disk, run, source, root),
        0 <= at < run.len(),
    ensures
        on_course(disk, run[at], source, root),
    decreases at,
{
    if at == 0 {
        lemma_start_is_on_course(disk, run[0], source, root);
    } else {
        lemma_run_is_on_course(disk, run, source, root, at - 1);
        assert(goes_on(disk, run, at - 1));
        lemma_going_on_keeps_course(disk, run, at - 1, source, root);
    }
}

proof fn lemma_start_is_on_course(
    disk: Objects,
    state: CopyState,
    source: PathModel,
    root: PathModel,
)
    requires
        disk.dom().contains(source),
        state.staged == Map::<PathModel, Thing>::empty(),
        starts(state.copier, source, root),
    ensures
        on_course(disk, state, source, root),
{
    let none = Seq::<Seq<u8>>::empty();
    assert(rest_of(source, source) =~= none);
    assert(below(source, none).names =~= source.names);
    assert(below(root, none).names =~= root.names);
    assert forall|rest: Seq<Seq<u8>>| #[trigger] reaches(state.copier.steps, source, rest) by {
        assert(leads_to(state.copier.steps[0], source, rest));
    }
}

proof fn lemma_going_on_keeps_course(
    disk: Objects,
    run: Seq<CopyState>,
    at: int,
    source: PathModel,
    root: PathModel,
)
    requires
        sound(disk, source),
        on_course(disk, run[at], source, root),
        goes_on(disk, run, at),
    ensures
        on_course(disk, run[at + 1], source, root),
{
    let before = run[at];
    let after = run[at + 1];
    if exists|
        visiting: Visiting,
        metadata: Metadata,
        opening: OpeningDirectory,
        opened: Opened,
        creating: CreatingDirectory,
        made: MadeDirectory,
        copier: Copier,
    | #[trigger]
        enters(
            disk,
            before,
            after,
            visiting,
            metadata,
            opening,
            opened,
            creating,
            made,
            copier,
        ) {
        let (visiting, metadata, opening, opened, creating, made, copier) = choose|
            visiting: Visiting,
            metadata: Metadata,
            opening: OpeningDirectory,
            opened: Opened,
            creating: CreatingDirectory,
            made: MadeDirectory,
            copier: Copier,
        | #[trigger]
            enters(
                disk,
                before,
                after,
                visiting,
                metadata,
                opening,
                opened,
                creating,
                made,
                copier,
            );
        lemma_entering_keeps_course(
            disk,
            before,
            after,
            visiting,
            metadata,
            opening,
            opened,
            creating,
            made,
            copier,
            source,
            root,
        );
    } else if exists|
        visiting: Visiting,
        metadata: Metadata,
        opening: OpeningFile,
        opened: Opened,
        step: FileStep,
        whole: WholeContent,
        preserving: PreservingFile,
        lost: Dropped,
        created: Metadata,
        copier: Copier,
    | #[trigger]
        copies_file(
            disk,
            before,
            after,
            visiting,
            metadata,
            opening,
            opened,
            step,
            whole,
            preserving,
            lost,
            created,
            copier,
        ) {
        let (
            visiting,
            metadata,
            opening,
            opened,
            step,
            whole,
            preserving,
            lost,
            created,
            copier,
        ) = choose|
            visiting: Visiting,
            metadata: Metadata,
            opening: OpeningFile,
            opened: Opened,
            step: FileStep,
            whole: WholeContent,
            preserving: PreservingFile,
            lost: Dropped,
            created: Metadata,
            copier: Copier,
        | #[trigger]
            copies_file(
                disk,
                before,
                after,
                visiting,
                metadata,
                opening,
                opened,
                step,
                whole,
                preserving,
                lost,
                created,
                copier,
            );
        lemma_file_keeps_course(
            disk,
            before,
            after,
            visiting,
            metadata,
            opening,
            opened,
            step,
            whole,
            preserving,
            lost,
            created,
            copier,
            source,
            root,
        );
    } else if exists|
        visiting: Visiting,
        metadata: Metadata,
        linking: Linking,
        made: MadeLink,
        copier: Copier,
    | #[trigger] copies_link(disk, before, after, visiting, metadata, linking, made, copier) {
        let (visiting, metadata, linking, made, copier) = choose|
            visiting: Visiting,
            metadata: Metadata,
            linking: Linking,
            made: MadeLink,
            copier: Copier,
        | #[trigger] copies_link(disk, before, after, visiting, metadata, linking, made, copier);
        lemma_link_keeps_course(
            disk,
            before,
            after,
            visiting,
            metadata,
            linking,
            made,
            copier,
            source,
            root,
        );
    } else {
        let (finishing, lost, found, copier) = choose|
            finishing: Finishing,
            lost: Dropped,
            found: Metadata,
            copier: Copier,
        | #[trigger] finishes(disk, before, after, finishing, lost, found, copier);
        lemma_finishing_keeps_course(
            disk,
            before,
            after,
            finishing,
            lost,
            found,
            copier,
            source,
            root,
        );
    }
}

/// A finished copy is the whole tree. What the source has, the copy has at the
/// same names, but for links where the destination has none; it has nothing
/// else; and all of it is of the same kind, with the same content and, where
/// the destination keeps them, the same permission bits. What was made is what
/// is recorded as made, and what the source has is what is recorded of it,
/// unless the record had no room.
pub proof fn lemma_finished_copy_is_whole(
    disk: Objects,
    run: Seq<CopyState>,
    source: PathModel,
    root: PathModel,
)
    requires
        sound(disk, source),
        disk.dom().contains(source),
        copied_in(disk, run, source, root),
    ensures
        ({
            let copier = run.last().copier;
            let staged = run.last().staged;
            &&& forall|rest: Seq<Seq<u8>>| #[trigger]
                disk.dom().contains(below(source, rest)) ==> staged.dom().contains(
                    below(root, rest),
                ) || (copier.dropped.links && disk[below(source, rest)].kind is Symlink)
            &&& staged_is_copied(disk, staged, source, root)
            &&& !copier.dropped.permissions ==> forall|path: PathModel| #[trigger]
                staged.dom().contains(path) ==> staged[path].like(
                    disk[origin(path, source, root)],
                )
            &&& !copier.created.overflowed ==> forall|path: PathModel| #[trigger]
                recorded(copier.created.snapshots@, path) <==> staged.dom().contains(path)
            &&& !copier.sources.overflowed ==> forall|path: PathModel| #[trigger]
                recorded(copier.sources.snapshots@, path) <==> path == below(
                    source,
                    rest_of(path, source),
                ) && disk.dom().contains(path)
        }),
{
    let last = run.last();
    lemma_run_is_on_course(disk, run, source, root, run.len() - 1);
    assert forall|rest: Seq<Seq<u8>>| !#[trigger] reaches(last.copier.steps, source, rest) by {}
    assert forall|path: PathModel| !#[trigger] to_finish(last.copier.steps, path) by {}
    if !last.copier.sources.overflowed {
        assert forall|path: PathModel| #[trigger]
            recorded(last.copier.sources.snapshots@, path) == (path == below(
                source,
                rest_of(path, source),
            ) && disk.dom().contains(path)) by {
            if path == below(source, rest_of(path, source)) && disk.dom().contains(path) {
                assert(disk.dom().contains(below(source, rest_of(path, source))));
            }
        }
    }
}

/// Whether the root comes first among what is recorded: of the sources once,
/// and each with its kind, and of what was made.
pub open spec fn root_first(
    disk: Objects,
    state: CopyState,
    source: PathBuf,
    root: PathModel,
) -> bool {
    &&& state.copier.sources.overflowed || {
        let seen = state.copier.sources.snapshots@;
        &&& forall|i: int|
            0 <= i < seen.len() ==> (#[trigger] seen[i]).kind == disk[seen[i].path@].kind
        &&& if seen.len() == 0 {
            unbegun(state.copier.steps, source, root)
        } else {
            &&& seen[0].path == source
            &&& forall|i: int| 1 <= i < seen.len() ==> (#[trigger] seen[i]).path@ != source@
            &&& begun(state.copier.steps, source@)
        }
    }
    &&& state.copier.created.overflowed || state.copier.dropped.links || {
        let made = state.copier.created.snapshots@;
        if made.len() == 0 {
            unbegun(state.copier.steps, source, root)
        } else {
            made[0].path@ == root
        }
    }
}

/// Whether all there is to do is to look at the root.
pub open spec fn unbegun(steps: Seq<CopyStep>, source: PathBuf, root: PathModel) -> bool {
    &&& steps.len() == 1
    &&& steps[0] matches CopyStep::Visit { source: from, destination: to, .. } && from == source
        && to@ == root
}

/// Whether the root is not to be looked at again.
pub open spec fn begun(steps: Seq<CopyStep>, source: PathModel) -> bool {
    forall|i: int|
        0 <= i < steps.len() ==> (#[trigger] steps[i] matches CopyStep::Visit { source: from, .. }
            ==> from@ != source)
}

/// Looking at one more source keeps the root first.
proof fn lemma_source_keeps_root_first(
    disk: Objects,
    before: CopyState,
    after: CopyState,
    from: PathBuf,
    metadata: Metadata,
    source: PathBuf,
    root: PathModel,
)
    requires
        root_first(disk, before, source, root),
        before.copier.steps.len() > 0,
        before.copier.steps.last() matches CopyStep::Visit { source: visited, .. } && visited
            == from,
        shows(disk, from@, metadata),
        exists|place: Option<usize>| #[trigger]
            collected(before.copier.sources, after.copier.sources, place, from, metadata),
        begun(before.copier.steps.drop_last(), source@) ==> begun(after.copier.steps, source@),
    ensures
        after.copier.sources.overflowed || {
            let seen = after.copier.sources.snapshots@;
            &&& forall|i: int|
                0 <= i < seen.len() ==> (#[trigger] seen[i]).kind == disk[seen[i].path@].kind
            &&& seen.len() > 0
            &&& seen[0].path == source
            &&& forall|i: int| 1 <= i < seen.len() ==> (#[trigger] seen[i]).path@ != source@
            &&& begun(after.copier.steps, source@)
        },
{
    let place = choose|place: Option<usize>| #[trigger]
        collected(before.copier.sources, after.copier.sources, place, from, metadata);
    lemma_collected(before.copier.sources, after.copier.sources, place, from, metadata);
    if !after.copier.sources.overflowed {
        let was = before.copier.sources.snapshots@;
        let seen = after.copier.sources.snapshots@;
        let steps = before.copier.steps;
        assert(seen.drop_last() == was);
        assert(steps[steps.len() - 1] == steps.last());
        assert forall|i: int| 0 <= i < steps.drop_last().len() implies (
        #[trigger] steps.drop_last()[i] matches CopyStep::Visit { source: other, .. } ==> other@
            != source@) by {
            assert(steps.drop_last()[i] == steps[i]);
        }
        assert forall|i: int| 0 <= i < seen.len() implies (#[trigger] seen[i]).kind
            == disk[seen[i].path@].kind by {
            if i < was.len() {
                assert(seen[i] == was[i]);
            }
        }
        assert forall|i: int| 1 <= i < seen.len() implies (#[trigger] seen[i]).path@
            != source@ by {
            if i < was.len() {
                assert(seen[i] == was[i]);
            }
        }
    }
}

/// Going on keeps the root first.
proof fn lemma_going_on_keeps_root_first(
    disk: Objects,
    run: Seq<CopyState>,
    at: int,
    source: PathBuf,
    root: PathModel,
)
    requires
        sound(disk, source@),
        on_course(disk, run[at], source@, root),
        root_first(disk, run[at], source, root),
        goes_on(disk, run, at),
    ensures
        root_first(disk, run[at + 1], source, root),
{
    let before = run[at];
    let after = run[at + 1];
    let steps = before.copier.steps;
    if exists|
        visiting: Visiting,
        metadata: Metadata,
        opening: OpeningDirectory,
        opened: Opened,
        creating: CreatingDirectory,
        made: MadeDirectory,
        copier: Copier,
    | #[trigger]
        enters(
            disk,
            before,
            after,
            visiting,
            metadata,
            opening,
            opened,
            creating,
            made,
            copier,
        ) {
        let (visiting, metadata, opening, opened, creating, made, copier) = choose|
            visiting: Visiting,
            metadata: Metadata,
            opening: OpeningDirectory,
            opened: Opened,
            creating: CreatingDirectory,
            made: MadeDirectory,
            copier: Copier,
        | #[trigger]
            enters(
                disk,
                before,
                after,
                visiting,
                metadata,
                opening,
                opened,
                creating,
                made,
                copier,
            );
        lemma_entering_keeps_root_first(
            disk,
            before,
            after,
            visiting,
            metadata,
            opening,
            opened,
            creating,
            made,
            copier,
            source,
            root,
        );
    } else if exists|
        visiting: Visiting,
        metadata: Metadata,
        opening: OpeningFile,
        opened: Opened,
        step: FileStep,
        whole: WholeContent,
        preserving: PreservingFile,
        lost: Dropped,
        created: Metadata,
        copier: Copier,
    | #[trigger]
        copies_file(
            disk,
            before,
            after,
            visiting,
            metadata,
            opening,
            opened,
            step,
            whole,
            preserving,
            lost,
            created,
            copier,
        ) {
        let (
            visiting,
            metadata,
            opening,
            opened,
            step,
            whole,
            preserving,
            lost,
            created,
            copier,
        ) = choose|
            visiting: Visiting,
            metadata: Metadata,
            opening: OpeningFile,
            opened: Opened,
            step: FileStep,
            whole: WholeContent,
            preserving: PreservingFile,
            lost: Dropped,
            created: Metadata,
            copier: Copier,
        | #[trigger]
            copies_file(
                disk,
                before,
                after,
                visiting,
                metadata,
                opening,
                opened,
                step,
                whole,
                preserving,
                lost,
                created,
                copier,
            );
        let looked = choose|looked: Option<usize>| #[trigger]
            collected(
                before.copier.sources,
                after.copier.sources,
                looked,
                visiting.source,
                metadata,
            );
        let place = choose|place: Option<usize>| #[trigger]
            collected(
                before.copier.created,
                after.copier.created,
                place,
                visiting.destination,
                created,
            );
        lemma_leaf_keeps_root_first(
            disk,
            before,
            after,
            visiting.source,
            visiting.destination,
            metadata,
            created,
            source,
            root,
        );
    } else if exists|
        visiting: Visiting,
        metadata: Metadata,
        linking: Linking,
        made: MadeLink,
        copier: Copier,
    | #[trigger] copies_link(disk, before, after, visiting, metadata, linking, made, copier) {
        let (visiting, metadata, linking, made, copier) = choose|
            visiting: Visiting,
            metadata: Metadata,
            linking: Linking,
            made: MadeLink,
            copier: Copier,
        | #[trigger] copies_link(disk, before, after, visiting, metadata, linking, made, copier);
        assert(visiting.copier@.sources == before.copier.sources);
        assert(linking.copier@.sources == after.copier.sources);
        match made {
            MadeLink::Made(created) => lemma_leaf_keeps_root_first(
                disk,
                before,
                after,
                visiting.source,
                visiting.destination,
                metadata,
                created,
                source,
                root,
            ),
            _ => lemma_source_keeps_root_first(
                disk,
                before,
                after,
                visiting.source,
                metadata,
                source,
                root,
            ),
        }
    } else {
        let (finishing, lost, found, copier) = choose|
            finishing: Finishing,
            lost: Dropped,
            found: Metadata,
            copier: Copier,
        | #[trigger] finishes(disk, before, after, finishing, lost, found, copier);
        assert(step_stands(disk, before, steps[steps.len() - 1], source@, root));
        assert forall|i: int| 0 <= i < after.copier.steps.len() implies #[trigger]
            after.copier.steps[i] == steps[i] by {}
        assert(steps[0] == steps.last() || steps.len() > 1);
        let made = before.copier.created.snapshots@;
        if made.len() > 0 {
            assert(before.copier.created.snapshots.len() == made.len());
            assert(0int as usize as int == 0int);
            assert(after.copier.created.snapshots@[0].path@ == made[0].path@);
        }
    }
}

/// Making one thing that is no folder keeps the root first.
proof fn lemma_leaf_keeps_root_first(
    disk: Objects,
    before: CopyState,
    after: CopyState,
    from: PathBuf,
    to: PathBuf,
    metadata: Metadata,
    created: Metadata,
    source: PathBuf,
    root: PathModel,
)
    requires
        root_first(disk, before, source, root),
        before.copier.steps.len() > 0,
        before.copier.steps.last() matches CopyStep::Visit { source: visited, destination, .. }
            && visited == from && destination == to,
        shows(disk, from@, metadata),
        after.copier.steps == before.copier.steps.drop_last(),
        exists|place: Option<usize>| #[trigger]
            collected(before.copier.sources, after.copier.sources, place, from, metadata),
        exists|place: Option<usize>| #[trigger]
            collected(before.copier.created, after.copier.created, place, to, created),
        before.copier.dropped.links ==> after.copier.dropped.links,
    ensures
        root_first(disk, after, source, root),
{
    let place = choose|place: Option<usize>| #[trigger]
        collected(before.copier.created, after.copier.created, place, to, created);
    lemma_collected(before.copier.created, after.copier.created, place, to, created);
    lemma_source_keeps_root_first(disk, before, after, from, metadata, source, root);
    let steps = before.copier.steps;
    assert(steps[steps.len() - 1] == steps.last());
}

/// The children of a folder are none of them the root.
proof fn lemma_children_are_below_root(
    disk: Objects,
    left: Seq<CopyStep>,
    now: Seq<CopyStep>,
    directory: usize,
    from: PathModel,
    to: PathModel,
    entries: Seq<Name>,
    source: PathModel,
    root: PathModel,
)
    requires
        stand(from, to, source, root),
        listed(disk, from, entries),
        begun(left, source),
        visits_all(now, left.len() as int, directory, from, to, sorted(entries)),
        now.take(left.len() as int) == left,
        now[left.len() as int] is FinishDirectory,
    ensures
        begun(now, source),
{
    let below_it = left.len() as int;
    let ordered = sorted(entries);
    lemma_sorting_keeps_names(entries);
    assert forall|i: int| 0 <= i < now.len() implies (#[trigger] now[i] matches CopyStep::Visit {
        source: other,
        ..
    } ==> other@ != source) by {
        if i < below_it {
            assert(now[i] == now.take(below_it)[i]);
            assert(now[i] == left[i]);
        } else if i > below_it {
            let k = i - below_it - 1;
            let name = ordered[ordered.len() - 1 - k]@;
            assert(visits_child(now[below_it + 1 + k], directory, from, to, name));
            assert(lists(entries, name));
            lemma_child_stands(from, to, name, source, root);
            assert(from.join(name).names.len() > source.names.len());
        }
    }
}

/// Going into a folder keeps the root first.
proof fn lemma_entering_keeps_root_first(
    disk: Objects,
    before: CopyState,
    after: CopyState,
    visiting: Visiting,
    metadata: Metadata,
    opening: OpeningDirectory,
    opened: Opened,
    creating: CreatingDirectory,
    made: MadeDirectory,
    copier: Copier,
    source: PathBuf,
    root: PathModel,
)
    requires
        steps_stand(disk, before, source@, root),
        root_first(disk, before, source, root),
        enters(
            disk,
            before,
            after,
            visiting,
            metadata,
            opening,
            opened,
            creating,
            made,
            copier,
        ),
    ensures
        root_first(disk, after, source, root),
{
    let steps = before.copier.steps;
    let left = steps.drop_last();
    let now = after.copier.steps;
    let below_it = left.len() as int;
    let (created, directory, children) = match made {
        MadeDirectory::Made { created, directory, children } => (created, directory, children),
        _ => arbitrary(),
    };
    let from = visiting.source@;
    let to = visiting.destination@;
    assert(step_stands(disk, before, steps[steps.len() - 1], source@, root));
    let place = match now[below_it] {
        CopyStep::FinishDirectory { place, .. } => place,
        _ => None,
    };
    lemma_collected(
        before.copier.created,
        after.copier.created,
        place,
        visiting.destination,
        created,
    );
    let looked = choose|looked: Option<usize>| #[trigger]
        collected(
            before.copier.sources,
            after.copier.sources,
            looked,
            visiting.source,
            metadata,
        );
    assert(visits_all(now, below_it, directory, from, to, sorted(children@)));
    if begun(left, source@) {
        lemma_children_are_below_root(
            disk,
            left,
            now,
            directory,
            from,
            to,
            children@,
            source@,
            root,
        );
    }
    lemma_source_keeps_root_first(
        disk,
        before,
        after,
        visiting.source,
        metadata,
        source,
        root,
    );
}

proof fn lemma_run_keeps_root_first(
    disk: Objects,
    run: Seq<CopyState>,
    source: PathBuf,
    root: PathModel,
    at: int,
)
    requires
        sound(disk, source@),
        disk.dom().contains(source@),
        copied_in(disk, run, source@, root),
        unbegun(run[0].copier.steps, source, root),
        0 <= at < run.len(),
    ensures
        root_first(disk, run[at], source, root),
    decreases at,
{
    if at > 0 {
        lemma_run_keeps_root_first(disk, run, source, root, at - 1);
        lemma_run_is_on_course(disk, run, source@, root, at - 1);
        assert(goes_on(disk, run, at - 1));
        lemma_going_on_keeps_root_first(disk, run, at - 1, source, root);
    }
}

/// A finished copy has recorded the root of its source first, and once, and
/// the root of what it made first.
pub proof fn lemma_finished_copy_records_root_first(
    disk: Objects,
    run: Seq<CopyState>,
    source: PathBuf,
    root: PathModel,
)
    requires
        sound(disk, source@),
        disk.dom().contains(source@),
        copied_in(disk, run, source@, root),
        unbegun(run[0].copier.steps, source, root),
    ensures
        ({
            let copier = run.last().copier;
            let seen = copier.sources.snapshots@;
            let made = copier.created.snapshots@;
            &&& !copier.sources.overflowed ==> {
                &&& seen.len() > 0
                &&& seen[0].path == source
                &&& forall|i: int| 1 <= i < seen.len() ==> (#[trigger] seen[i]).path@ != source@
                &&& forall|i: int|
                    0 <= i < seen.len() ==> (#[trigger] seen[i]).kind == disk[seen[i].path@].kind
            }
            &&& !copier.created.overflowed && !copier.dropped.links ==> made.len() > 0
                && made[0].path@ == root
        }),
{
    lemma_run_keeps_root_first(disk, run, source, root, run.len() - 1);
}

/// Whether something is a copy of the whole tree at `source`, at `target`.
pub open spec fn replica(
    disk: Objects,
    added: Objects,
    source: PathModel,
    target: PathModel,
) -> bool {
    &&& forall|rest: Seq<Seq<u8>>| #[trigger]
        disk.dom().contains(below(source, rest)) ==> added.dom().contains(below(target, rest))
    &&& forall|path: PathModel| #[trigger]
        added.dom().contains(path) ==> path == below(target, rest_of(path, target))
            && disk.dom().contains(origin(path, source, target)) && added[path].like(
            disk[origin(path, source, target)],
        )
}

/// A finished copy that lost nothing is a copy of the whole tree.
pub proof fn lemma_finished_copy_is_a_replica(
    disk: Objects,
    run: Seq<CopyState>,
    source: PathModel,
    root: PathModel,
)
    requires
        sound(disk, source),
        disk.dom().contains(source),
        copied_in(disk, run, source, root),
        run.last().copier.dropped.is_nothing(),
    ensures
        replica(disk, run.last().staged, source, root),
{
    lemma_finished_copy_is_whole(disk, run, source, root);
}

/// What is published of a staged tree: the tree, at its destination.
pub open spec fn published(staged: Objects, root: PathModel, target: PathModel) -> Objects {
    Map::new(
        |path: PathModel|
            path == below(target, rest_of(path, target)) && staged.dom().contains(
                below(root, rest_of(path, target)),
            ),
        |path: PathModel| staged[below(root, rest_of(path, target))],
    )
}

/// Publishing a copy of a whole tree leaves it one.
pub proof fn lemma_published_replica(
    disk: Objects,
    staged: Objects,
    source: PathModel,
    root: PathModel,
    target: PathModel,
)
    requires
        replica(disk, staged, source, root),
    ensures
        replica(disk, published(staged, root, target), source, target),
{
    let added = published(staged, root, target);
    assert forall|rest: Seq<Seq<u8>>| #[trigger]
        disk.dom().contains(below(source, rest)) implies added.dom().contains(
        below(target, rest),
    ) by {
        assert(rest_of(below(target, rest), target) =~= rest);
    }
    assert forall|path: PathModel| #[trigger] added.dom().contains(path) implies path == below(
        target,
        rest_of(path, target),
    ) && disk.dom().contains(origin(path, source, target)) && added[path].like(
        disk[origin(path, source, target)],
    ) by {
        let rest = rest_of(path, target);
        assert(staged.dom().contains(below(root, rest)));
        assert(rest_of(below(root, rest), root) =~= rest);
    }
}

/// A path below a root, carried over to another, keeps its names.
pub(crate) proof fn lemma_rebased_keeps_names(path: PathModel, from: PathModel, to: PathModel)
    requires
        path.valid(),
        from.valid(),
        to.valid(),
        !from.is_empty(),
        !to.is_empty(),
        path == below(from, rest_of(path, from)),
    ensures
        path.starts_with(from),
        rebased(path, from, to) == below(to, rest_of(path, from)),
        below(to, rest_of(path, from)).valid(),
        below(to, rest_of(path, from)).starts_with(to),
{
    let rest = rest_of(path, from);
    assert(path.names.subrange(0, from.names.len() as int) =~= from.names);
    assert(from.names.is_prefix_of(path.names));
    let relative = path.strip_prefix(from).unwrap();
    assert(relative.names =~= rest);
    if rest.len() > 0 {
        let at = from.names.len() as int;
        assert(rest[0] == path.names[at]);
        assert(is_name(path.names[at], at == 0 && !path.absolute));
        assert(rebased(path, from, to).names =~= to.names + rest);
    } else {
        assert(below(to, rest).names =~= to.names);
    }
    lemma_rebased_is_valid(path, from, to);
}

/// Publishing a staged tree is renaming it: on a disk that holds it, the tree
/// is then at its destination, and everything else is where it was.
pub proof fn lemma_publishing_is_renaming(
    disk: Objects,
    staged: Objects,
    root: PathModel,
    target: PathModel,
)
    requires
        can_rename(disk.union_prefer_right(staged), root, target),
        vacant(disk, root),
        forall|path: PathModel| #[trigger]
            staged.dom().contains(path) ==> path == below(root, rest_of(path, root)),
    ensures
        renamed(disk.union_prefer_right(staged), root, target) == disk.union_prefer_right(
            published(staged, root, target),
        ),
{
    let whole = disk.union_prefer_right(staged);
    let left = renamed(whole, root, target);
    let added = published(staged, root, target);
    let right = disk.union_prefer_right(added);
    assert forall|path: PathModel|
        #![trigger left.dom().contains(path)]
        #![trigger right.dom().contains(path)]
        left.dom().contains(path) == right.dom().contains(path) && (left.dom().contains(path)
            ==> left[path] == right[path]) by {
        let rest = rest_of(path, target);
        if path == below(target, rest) && staged.dom().contains(below(root, rest)) {
            let from = below(root, rest);
            assert(rest_of(from, root) =~= rest);
            assert(whole.dom().contains(from));
            lemma_rebased_keeps_names(from, root, target);
            lemma_rebased_keeps_names(path, target, root);
            assert(!disk.dom().contains(from));
        } else if path.valid() && path.starts_with(target) {
            assert(path.names =~= target.names + rest);
            lemma_rebased_keeps_names(path, target, root);
            let from = below(root, rest);
            assert(rest_of(from, root) =~= rest);
            assert(whole.dom().contains(path) ==> !path.starts_with(target));
        } else if whole.dom().contains(path) {
            if staged.dom().contains(path) {
                assert(path == below(root, rest_of(path, root)));
                assert(path.names.subrange(0, root.names.len() as int) =~= root.names);
                assert(path.starts_with(root));
            }
        }
    }
    assert(left.dom() =~= right.dom());
    assert(left =~= right);
}

} // verus!
