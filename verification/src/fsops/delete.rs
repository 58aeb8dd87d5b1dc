//! Permanent deletion: quarantine each root with one atomic rename, plan the
//! whole removal, then erase leaves before directories with an identity check
//! at every step.

use vstd::prelude::*;

use crate::fsops::identity::{FileIdentity, Metadata, ObjectKey, SnapshotKind};
use crate::fsops::identity::{about, message_about};
use crate::fsops::local::{
    children_backwards, inspect, is_entry_name, list_error_at, list_failure, located, models,
    push_children, sorted_children, ListError, Lookup, Name,
};
use crate::fsops::staging::StageFailure;
use crate::fsops::{
    counted, failure_summary, PathFailure, TransferProgress, TransferProgressSnapshot,
};
use crate::index::sorted_distinct;
use crate::order::{in_order, sorted, Ranked};
use crate::path::{lemma_join_then_file_name, PathBuf, PathModel};

verus! {

/// What a delete plan records about one object, beyond its identity.
#[derive(Clone, Copy, Debug, PartialEq, Eq, Structural)]
pub struct DeleteIdentity {
    pub identity: FileIdentity,
    pub mode: u32,
    pub links: u64,
}

impl Metadata {
    /// What a delete plan records of this object.
    pub open spec fn planned(self) -> DeleteIdentity {
        DeleteIdentity { identity: self.identity(), mode: self.mode, links: self.links }
    }
}

impl DeleteIdentity {
    pub fn of(metadata: &Metadata) -> (identity: DeleteIdentity)
        ensures
            identity == metadata.planned(),
    {
        DeleteIdentity {
            identity: FileIdentity::of(metadata),
            mode: metadata.mode,
            links: metadata.links,
        }
    }

    /// Whether both are the same object with the same mode.
    pub open spec fn pins(self, found: DeleteIdentity) -> bool {
        self.identity.key == found.identity.key && self.mode == found.mode
    }

    pub fn same_object(self, found: DeleteIdentity) -> (same: bool)
        ensures
            same == self.pins(found),
    {
        self.identity.key == found.identity.key && self.mode == found.mode
    }

    /// Whether `found` is still the object this describes.
    pub open spec fn still(self, found: DeleteIdentity) -> bool {
        self.pins(found) && (self.identity == found.identity || self.links > 1)
    }

    /// Whether `found` is still the object this describes.
    ///
    /// Removing one hard link moves the shared object's time of last change, so
    /// a plan holding both links to a file cannot compare it for the second
    /// one: its own earlier removal is what changed it. Directories have the
    /// same problem with every child removed and are compared by `same_object`
    /// alone; a file gets the relaxation here instead, and only when it said up
    /// front that another name for it exists.
    pub fn describes(self, found: DeleteIdentity) -> (same: bool)
        ensures
            same == self.still(found),
    {
        self.same_object(found) && (self.identity == found.identity || self.links > 1)
    }
}

#[derive(Clone, Copy, Debug, PartialEq, Eq, Structural)]
pub enum DeleteKind {
    Directory,
    Other,
}

/// One object that is to be erased.
#[derive(Debug)]
pub struct DeleteEntry {
    pub path: PathBuf,
    pub identity: DeleteIdentity,
    pub kind: DeleteKind,
    pub bytes: u64,
}

impl DeleteEntry {
    /// Whether this is what a plan holds of what was found at `path`.
    pub open spec fn plans(self, path: PathBuf, metadata: Metadata) -> bool {
        &&& self.path == path
        &&& self.identity == metadata.planned()
        &&& self.kind == (if metadata.kind is Directory {
            DeleteKind::Directory
        } else {
            DeleteKind::Other
        })
        &&& self.bytes == (if metadata.kind is File {
            metadata.len
        } else {
            0
        })
    }

    /// Whether what was found is what the plan holds.
    ///
    /// Removing a directory's children moves its time of last change, so that
    /// cannot be held against it; device, inode, and mode still pin it.
    pub open spec fn still_planned(self, found: DeleteIdentity) -> bool {
        match self.kind {
            DeleteKind::Directory => self.identity.pins(found),
            DeleteKind::Other => self.identity.still(found),
        }
    }
}

/// A root that was moved aside to be deleted.
#[derive(Debug)]
pub struct QuarantinedRoot {
    pub original: PathBuf,
    pub quarantine: PathBuf,
    pub entries: Vec<DeleteEntry>,
}

/// The path the user knows an entry by, rather than its staged one.
pub open spec fn known_as(
    original: PathModel,
    quarantine: PathModel,
    staged: PathModel,
) -> PathModel {
    match staged.strip_prefix(quarantine) {
        Some(relative) if !relative.is_empty() => original.extended(relative),
        _ => original,
    }
}

/// The path the user knows an entry by, rather than its staged one.
fn display_path_of(original: &PathBuf, quarantine: &PathBuf, staged: &PathBuf) -> (path: PathBuf)
    ensures
        path@ == known_as(original@, quarantine@, staged@),
{
    match staged.strip_prefix(quarantine) {
        Some(relative) => if relative.is_absolute() || relative.name_count() > 0 {
            original.extended(&relative)
        } else {
            original.clone()
        },
        None => original.clone(),
    }
}

impl QuarantinedRoot {
    pub fn display_path(&self, staged: &PathBuf) -> (path: PathBuf)
        ensures
            path@ == known_as(self.original@, self.quarantine@, staged@),
    {
        display_path_of(&self.original, &self.quarantine, staged)
    }
}

/// What a permanent deletion did.
#[derive(Debug)]
pub struct DeleteOutcome {
    pub completed: Vec<PathBuf>,
    pub failures: Vec<PathFailure>,
    /// Whether any root left its path, even if it was put back. Its time of
    /// last change has moved then, so nothing recorded of it holds any more.
    pub touched: bool,
}

impl DeleteOutcome {
    /// A deletion that deleted nothing, why, and whether it moved something.
    pub fn failed(path: PathBuf, message: String, touched: bool) -> (outcome: DeleteOutcome)
        ensures
            outcome.completed@.len() == 0,
            outcome.failures@ == seq![PathFailure { path, message }],
            outcome.touched == touched,
    {
        let mut failures: Vec<PathFailure> = Vec::new();
        failures.push(PathFailure { path, message });
        DeleteOutcome { completed: Vec::new(), failures, touched }
    }

    pub fn summarize_failures(&self) -> (summary: String)
        ensures
            summary@ == failure_summary(self.failures@, "Permanent deletion failed"@),
    {
        PathFailure::summarize(self.failures.as_slice(), "Permanent deletion failed")
    }
}

/// Whether another requested path already contains this one.
pub open spec fn contained_in_another(paths: Seq<PathModel>, path: PathModel) -> bool {
    exists|i: int|
        0 <= i < paths.len() && #[trigger] paths[i] != path && path.starts_with(paths[i])
}

/// Whether `roots` are the requested paths that no other contains, in order
/// and each once.
pub open spec fn roots_of(paths: Seq<PathModel>, roots: Seq<PathBuf>) -> bool {
    &&& in_order(roots)
    &&& models(roots).no_duplicates()
    &&& forall|path: PathModel| #[trigger]
        models(roots).contains(path) <==> (paths.contains(path) && !contained_in_another(
            paths,
            path,
        ))
}

/// Deduplicate and drop paths that another requested path already contains.
pub fn top_level_paths(paths: &Vec<PathBuf>) -> (roots: Vec<PathBuf>)
    ensures
        roots_of(models(paths@), roots@),
{
    let mut copied: Vec<PathBuf> = Vec::new();
    let mut i: usize = 0;
    while i < paths.len()
        invariant
            i <= paths@.len(),
            copied@ == paths@.take(i as int),
        decreases paths.len() - i,
    {
        copied.push(paths[i].clone());
        assert(paths@.take(i + 1) =~= paths@.take(i as int).push(paths@[i as int]));
        i += 1;
    }
    assert(copied@ =~= paths@);
    let all = sorted_distinct(copied);
    let ghost requested = models(paths@);
    let ghost distinct = models(all@);
    assert forall|path: PathModel| contained_in_another(requested, path)
        == #[trigger] contained_in_another(distinct, path) by {
        if contained_in_another(requested, path) {
            let k = choose|k: int|
                0 <= k < requested.len() && #[trigger] requested[k] != path && path.starts_with(
                    requested[k],
                );
            assert(requested.contains(requested[k]));
            assert(distinct.contains(requested[k]));
            let j = choose|j: int| 0 <= j < distinct.len() && distinct[j] == requested[k];
            assert(distinct[j] != path);
        }
        if contained_in_another(distinct, path) {
            let k = choose|k: int|
                0 <= k < distinct.len() && #[trigger] distinct[k] != path && path.starts_with(
                    distinct[k],
                );
            assert(distinct.contains(distinct[k]));
            assert(requested.contains(distinct[k]));
            let j = choose|j: int| 0 <= j < requested.len() && requested[j] == distinct[k];
            assert(requested[j] != path);
        }
    }
    let mut roots: Vec<PathBuf> = Vec::new();
    let mut i: usize = 0;
    while i < all.len()
        invariant
            i <= all@.len(),
            in_order(all@),
            distinct == models(all@),
            distinct.no_duplicates(),
            in_order(roots@),
            models(roots@).no_duplicates(),
            forall|k: int|
                0 <= k < roots@.len() ==> kept_before(all@, distinct, i as int, #[trigger] roots@[k]),
            forall|j: int|
                0 <= j < i && !contained_in_another(distinct, (#[trigger] all@[j])@) ==> models(
                    roots@,
                ).contains(all@[j]@),
        decreases all.len() - i,
    {
        let mut inside = false;
        let mut j: usize = 0;
        while j < all.len()
            invariant
                i < all@.len(),
                j <= all@.len(),
                distinct == models(all@),
                inside <==> exists|k: int|
                    0 <= k < j && #[trigger] distinct[k] != all@[i as int]@
                        && all@[i as int]@.starts_with(distinct[k]),
            decreases all.len() - j,
        {
            assert(distinct[j as int] == all@[j as int]@);
            if !all[j].same(&all[i]) && all[i].starts_with(&all[j]) {
                inside = true;
            }
            j += 1;
        }
        assert(inside == contained_in_another(distinct, all@[i as int]@));
        let ghost before = roots@;
        if !inside {
            roots.push(all[i].clone());
            proof {
                let added = all@[i as int];
                assert(models(roots@) =~= models(before).push(added@));
                assert forall|a: int, b: int|
                    #![trigger roots@[a], roots@[b]]
                    0 <= a < b < roots@.len() implies roots@[a].ranks(&roots@[b]) by {
                    assert(roots@[a] == before[a]);
                    if b < before.len() {
                        assert(roots@[b] == before[b]);
                        assert(before[a].ranks(&before[b]));
                    } else {
                        assert(kept_before(all@, distinct, i as int, before[a]));
                    }
                }
                assert forall|a: int, b: int|
                    0 <= a < models(roots@).len() && 0 <= b < models(roots@).len() && a
                        != b implies models(roots@)[a] != models(roots@)[b] by {
                    if a < before.len() && b < before.len() {
                        assert(models(before)[a] != models(before)[b]);
                    } else {
                        let k = if a < b {
                            a
                        } else {
                            b
                        };
                        assert(kept_before(all@, distinct, i as int, before[k]));
                        let at = choose|at: int|
                            0 <= at < i && before[k] == #[trigger] all@[at]
                                && !contained_in_another(distinct, all@[at]@);
                        assert(distinct[at] != distinct[i as int]);
                    }
                }
            }
        }
        proof {
            assert forall|k: int| 0 <= k < roots@.len() implies kept_before(
                all@,
                distinct,
                i + 1,
                #[trigger] roots@[k],
            ) by {
                if k < before.len() {
                    assert(roots@[k] == before[k]);
                    assert(kept_before(all@, distinct, i as int, before[k]));
                    let at = choose|at: int|
                        0 <= at < i && before[k] == #[trigger] all@[at] && !contained_in_another(
                            distinct,
                            all@[at]@,
                        );
                    assert(all@[at] == roots@[k]);
                } else {
                    assert(all@[i as int] == roots@[k]);
                }
            }
            assert forall|j: int|
                0 <= j < i + 1 && !contained_in_another(
                    distinct,
                    (#[trigger] all@[j])@,
                ) implies models(roots@).contains(all@[j]@) by {
                if j < i {
                    let k = choose|k: int|
                        0 <= k < models(before).len() && models(before)[k] == all@[j]@;
                    assert(models(roots@)[k] == all@[j]@);
                } else {
                    assert(models(roots@)[before.len() as int] == all@[j]@);
                }
            }
        }
        i += 1;
    }
    proof {
        assert forall|path: PathModel| #[trigger] models(roots@).contains(path) <==> (
        requested.contains(path) && !contained_in_another(requested, path)) by {
            assert(contained_in_another(requested, path) == contained_in_another(distinct, path));
            assert(distinct.contains(path) <==> requested.contains(path));
            if models(roots@).contains(path) {
                let k = choose|k: int| 0 <= k < models(roots@).len() && models(roots@)[k] == path;
                assert(kept_before(all@, distinct, i as int, roots@[k]));
                let at = choose|at: int|
                    0 <= at < i && roots@[k] == #[trigger] all@[at] && !contained_in_another(
                        distinct,
                        all@[at]@,
                    );
                assert(distinct[at] == path);
            }
            if distinct.contains(path) && !contained_in_another(distinct, path) {
                let j = choose|j: int| 0 <= j < distinct.len() && distinct[j] == path;
                assert(all@[j]@ == path);
            }
        }
    }
    roots
}

/// Whether a root is one of the first paths that no other contains.
spec fn kept_before(
    all: Seq<PathBuf>,
    distinct: Seq<PathModel>,
    end: int,
    root: PathBuf,
) -> bool {
    exists|at: int|
        0 <= at < end && root == #[trigger] all[at] && !contained_in_another(distinct, all[at]@)
}

/// How far down a path goes.
pub open spec fn depth(path: PathModel) -> nat {
    path.names.len() + if path.absolute {
        1nat
    } else {
        0nat
    }
}

/// Every requested path is one of the roots or lies in one, so deleting the
/// roots deletes all that was asked for.
pub proof fn lemma_roots_cover(paths: Seq<PathModel>, roots: Seq<PathBuf>, path: PathModel)
    requires
        roots_of(paths, roots),
        paths.contains(path),
    ensures
        exists|root: PathModel| #[trigger]
            models(roots).contains(root) && path.starts_with(root),
    decreases depth(path),
{
    if contained_in_another(paths, path) {
        let i = choose|i: int|
            0 <= i < paths.len() && #[trigger] paths[i] != path && path.starts_with(paths[i]);
        let outer = paths[i];
        assert(paths.contains(outer));
        if !outer.is_empty() {
            assert(outer.names =~= path.names.subrange(0, outer.names.len() as int));
            if outer.names.len() == path.names.len() {
                assert(outer.names =~= path.names);
                assert(outer =~= path);
            }
        } else if path.names.len() == 0 && !path.absolute {
            assert(path.names =~= outer.names);
            assert(outer =~= path);
        }
        lemma_roots_cover(paths, roots, outer);
        let root = choose|root: PathModel| #[trigger]
            models(roots).contains(root) && outer.starts_with(root);
        lemma_starts_with_transitive(path, outer, root);
        assert(models(roots).contains(root) && path.starts_with(root));
    } else {
        assert(path.names.is_prefix_of(path.names)) by {
            assert(path.names.subrange(0, path.names.len() as int) =~= path.names);
        }
        assert(models(roots).contains(path) && path.starts_with(path));
    }
}

proof fn lemma_starts_with_transitive(inner: PathModel, middle: PathModel, outer: PathModel)
    requires
        inner.starts_with(middle),
        middle.starts_with(outer),
    ensures
        inner.starts_with(outer),
{
    if !outer.is_empty() {
        assert(outer.names =~= middle.names.subrange(0, outer.names.len() as int));
        if middle.is_empty() {
            assert(outer.names.len() == 0);
            assert(outer.names =~= middle.names);
        } else {
            assert(middle.names =~= inner.names.subrange(0, middle.names.len() as int));
            assert(outer.names =~= inner.names.subrange(0, outer.names.len() as int));
        }
    }
}

/// No root lies in another, so each is moved aside on its own.
pub proof fn lemma_roots_are_apart(paths: Seq<PathModel>, roots: Seq<PathBuf>, i: int, j: int)
    requires
        roots_of(paths, roots),
        0 <= i < roots.len(),
        0 <= j < roots.len(),
        i != j,
    ensures
        !roots[i]@.starts_with(roots[j]@),
{
    assert(models(roots)[i] != models(roots)[j]);
    assert(models(roots).contains(models(roots)[i]));
    assert(models(roots).contains(models(roots)[j]));
    assert(paths.contains(roots[j]@));
    let k = choose|k: int| 0 <= k < paths.len() && paths[k] == roots[j]@;
    assert(paths[k] != roots[i]@);
}

/// Whether some directory planned before `end` is what `path` lies in.
pub open spec fn parent_planned(entries: Seq<DeleteEntry>, end: int, path: PathModel) -> bool {
    exists|j: int|
        0 <= j < end && (#[trigger] entries[j]).kind is Directory && path.parent() == Some(
            entries[j].path@,
        )
}

/// Whether everything but the root comes after the directory it lies in, so
/// that erasing in reverse takes leaves before their directories.
pub open spec fn leaves_last(entries: Seq<DeleteEntry>, root: PathModel) -> bool {
    forall|k: int|
        0 <= k < entries.len() ==> (#[trigger] entries[k]).path@ == root || parent_planned(
            entries,
            k,
            entries[k].path@,
        )
}

/// A delete plan being built.
#[derive(Debug)]
pub struct DeletePlanner {
    pub root: PathBuf,
    /// What is left to look at, the next one last.
    pub pending: Vec<PathBuf>,
    pub entries: Vec<DeleteEntry>,
}

impl DeletePlanner {
    /// Whether everything planned and to be planned lies in something planned.
    pub open spec fn connected(self) -> bool {
        &&& leaves_last(self.entries@, self.root@)
        &&& forall|i: int|
            0 <= i < self.pending@.len() ==> (#[trigger] self.pending@[i])@ == self.root@
                || parent_planned(self.entries@, self.entries@.len() as int, self.pending@[i]@)
    }
}

/// What building a plan wants next.
#[derive(Debug)]
pub enum DeletePlanStep {
    Inspect(PlanInspect),
    Planned(Vec<DeleteEntry>),
}

/// The plan waits to know what is at `path`.
#[derive(Debug)]
pub struct PlanInspect {
    pub planner: DeletePlanner,
    pub path: PathBuf,
}

/// What the plan wants once an entry is known.
#[derive(Debug)]
pub enum PlanEntryStep {
    List(PlanList),
    Next(DeletePlanner),
    Failed(String),
}

/// The plan waits for the names in a directory, the last entry it holds.
#[derive(Debug)]
pub struct PlanList {
    pub planner: DeletePlanner,
    pub path: PathBuf,
}

/// Build the delete plan in pre-order using an explicit stack.
///
/// The plan is executed in reverse, so parents must precede their children.
pub fn collect_delete_plan(path: &PathBuf) -> (planner: DeletePlanner)
    ensures
        planner.root == *path,
        planner.pending@ == seq![*path],
        planner.entries@.len() == 0,
        planner.connected(),
{
    let mut pending: Vec<PathBuf> = Vec::new();
    pending.push(path.clone());
    DeletePlanner { root: path.clone(), pending, entries: Vec::new() }
}

impl DeletePlanner {
    /// Whether this is what the plan wants next.
    pub open spec fn wants(self, step: DeletePlanStep) -> bool {
        match step {
            DeletePlanStep::Planned(entries) => self.pending@.len() == 0 && entries
                == self.entries && (self.connected() ==> leaves_last(entries@, self.root@)),
            DeletePlanStep::Inspect(wanted) => self.pending@.len() > 0 && wanted.path
                == self.pending@.last() && wanted.planner.root == self.root
                && wanted.planner.entries == self.entries && wanted.planner.pending@
                == self.pending@.drop_last() && (self.connected()
                ==> wanted.planner.connected() && (wanted.path@ == self.root@
                || parent_planned(
                self.entries@,
                self.entries@.len() as int,
                wanted.path@,
            ))),
        }
    }

    pub fn next(self) -> (step: DeletePlanStep)
        ensures
            self.wants(step),
    {
        let DeletePlanner { root, pending, entries } = self;
        let mut pending = pending;
        match pending.pop() {
            None => DeletePlanStep::Planned(entries),
            Some(path) => {
                let planner = DeletePlanner { root, pending, entries };
                proof {
                    if self.connected() {
                        assert forall|i: int| 0 <= i < planner.pending@.len() implies (
                        #[trigger] planner.pending@[i])@ == planner.root@ || parent_planned(
                            planner.entries@,
                            planner.entries@.len() as int,
                            planner.pending@[i]@,
                        ) by {
                            assert(planner.pending@[i] == self.pending@[i]);
                        }
                    }
                }
                DeletePlanStep::Inspect(PlanInspect { planner, path })
            },
        }
    }
}

/// Whether a plan holds one more entry and is otherwise the same.
pub open spec fn plan_grew(
    before: DeletePlanner,
    after: DeletePlanner,
    path: PathBuf,
    metadata: Metadata,
) -> bool {
    &&& after.root == before.root
    &&& after.pending == before.pending
    &&& after.entries@.len() == before.entries@.len() + 1
    &&& after.entries@.drop_last() == before.entries@
    &&& after.entries@.last().plans(path, metadata)
}

proof fn lemma_plan_stays_connected(
    before: DeletePlanner,
    after: DeletePlanner,
    path: PathBuf,
    metadata: Metadata,
)
    requires
        before.connected(),
        path@ == before.root@ || parent_planned(
            before.entries@,
            before.entries@.len() as int,
            path@,
        ),
        plan_grew(before, after, path, metadata),
    ensures
        after.connected(),
{
    let old_entries = before.entries@;
    let entries = after.entries@;
    assert forall|i: int| 0 <= i < old_entries.len() implies entries[i] == old_entries[i] by {
        assert(entries.drop_last()[i] == entries[i]);
    }
    assert forall|end: int, at: PathModel|
        0 <= end <= old_entries.len() && parent_planned(
            old_entries,
            end,
            at,
        ) implies #[trigger] parent_planned(entries, end, at) by {
        let j = choose|j: int|
            0 <= j < end && (#[trigger] old_entries[j]).kind is Directory && at.parent() == Some(
                old_entries[j].path@,
            );
        assert(entries[j] == old_entries[j]);
    }
    assert forall|k: int| 0 <= k < entries.len() implies (#[trigger] entries[k]).path@
        == before.root@ || parent_planned(entries, k, entries[k].path@) by {
        if k < old_entries.len() {
            assert(entries[k] == old_entries[k]);
            if entries[k].path@ != before.root@ {
                assert(parent_planned(old_entries, k, old_entries[k].path@));
                assert(parent_planned(entries, k, entries[k].path@));
            }
        } else if path@ != before.root@ {
            assert(parent_planned(entries, old_entries.len() as int, path@));
        }
    }
    assert forall|i: int| 0 <= i < after.pending@.len() implies (#[trigger] after.pending@[i])@
        == after.root@ || parent_planned(entries, entries.len() as int, after.pending@[i]@) by {
        assert(after.pending@[i] == before.pending@[i]);
        if after.pending@[i]@ != after.root@ {
            let at = after.pending@[i]@;
            assert(parent_planned(old_entries, old_entries.len() as int, at));
            let j = choose|j: int|
                0 <= j < old_entries.len() && (#[trigger] old_entries[j]).kind is Directory
                    && at.parent() == Some(old_entries[j].path@);
            assert(entries[j] == old_entries[j]);
        }
    }
}

impl PlanInspect {
    /// What comes of what is at the path.
    pub open spec fn comes_to(self, found: Lookup, step: PlanEntryStep) -> bool {
        match found {
            Lookup::Found(metadata) => if metadata.kind is Directory {
                step matches PlanEntryStep::List(list) && list.path == self.path && plan_grew(
                    self.planner,
                    list.planner,
                    self.path,
                    metadata,
                ) && (self.planner.connected() && (self.path@ == self.planner.root@
                    || parent_planned(
                    self.planner.entries@,
                    self.planner.entries@.len() as int,
                    self.path@,
                )) ==> list.planner.connected())
            } else {
                step matches PlanEntryStep::Next(planner) && plan_grew(
                    self.planner,
                    planner,
                    self.path,
                    metadata,
                ) && (self.planner.connected() && (self.path@ == self.planner.root@
                    || parent_planned(
                    self.planner.entries@,
                    self.planner.entries@.len() as int,
                    self.path@,
                )) ==> planner.connected())
            },
            _ => step matches PlanEntryStep::Failed(message) && message@ == located(
                "Could not inspect"@,
                self.path.text(),
            ),
        }
    }

    /// Whether planning an entry takes the totals from `before` to `after`.
    pub open spec fn counts(
        self,
        found: Lookup,
        before: TransferProgressSnapshot,
        after: TransferProgressSnapshot,
    ) -> bool {
        after == match found {
            Lookup::Found(metadata) => TransferProgressSnapshot {
                total_items: counted(before.total_items, 1),
                total_bytes: counted(
                    before.total_bytes,
                    if metadata.kind is File {
                        metadata.len
                    } else {
                        0
                    },
                ),
                ..before
            },
            _ => before,
        }
    }

    /// What is at the path.
    pub fn found(self, found: Lookup, progress: &mut TransferProgress) -> (step: PlanEntryStep)
        ensures
            self.comes_to(found, step),
            self.counts(found, old(progress)@, final(progress)@),
    {
        let metadata = match inspect(&self.path, found) {
            Ok(metadata) => metadata,
            Err(message) => {
                return PlanEntryStep::Failed(message);
            },
        };
        let kind = if metadata.kind == SnapshotKind::Directory {
            DeleteKind::Directory
        } else {
            DeleteKind::Other
        };
        let bytes: u64 = if metadata.kind == SnapshotKind::File { metadata.len } else { 0 };
        let entry = DeleteEntry {
            path: self.path.clone(),
            identity: DeleteIdentity::of(&metadata),
            kind,
            bytes,
        };
        progress.add_total(1, bytes);
        let PlanInspect { planner, path } = self;
        let DeletePlanner { root, pending, entries } = planner;
        let ghost before = entries@;
        let mut entries = entries;
        entries.push(entry);
        assert(entries@.drop_last() =~= before);
        let planner = DeletePlanner { root, pending, entries };
        proof {
            if self.planner.connected() && (self.path@ == self.planner.root@ || parent_planned(
                self.planner.entries@,
                self.planner.entries@.len() as int,
                self.path@,
            )) {
                lemma_plan_stays_connected(self.planner, planner, path, metadata);
            }
        }
        if kind == DeleteKind::Directory {
            PlanEntryStep::List(PlanList { planner, path })
        } else {
            PlanEntryStep::Next(planner)
        }
    }
}

impl PlanList {
    /// What comes of the names in the directory.
    pub open spec fn comes_to(
        self,
        entries: Result<Vec<Name>, ListError>,
        result: Result<DeletePlanner, String>,
    ) -> bool {
        match entries {
            Ok(names) => result matches Ok(planner) && planner.root == self.planner.root
                && planner.entries == self.planner.entries && models(planner.pending@)
                == models(self.planner.pending@) + children_backwards(
                self.path@,
                sorted(names@),
            ) && (self.planner.connected() && self.planner.entries@.len() > 0
                && self.planner.entries@.last().path@ == self.path@
                && self.planner.entries@.last().kind is Directory ==> planner.connected()),
            Err(error) => result matches Err(message) && message@ == list_failure(
                error,
                self.path.text(),
            ),
        }
    }

    /// The names in the directory, or why they could not be read.
    pub fn listed(self, entries: Result<Vec<Name>, ListError>) -> (result: Result<
        DeletePlanner,
        String,
    >)
        ensures
            self.comes_to(entries, result),
    {
        let names = match entries {
            Ok(names) => sorted_children(names),
            Err(error) => {
                return Err(list_error_at(error, &self.path));
            },
        };
        let PlanList { planner, path } = self;
        let DeletePlanner { root, pending, entries } = planner;
        let mut pending = pending;
        push_children(&mut pending, &path, &names);
        let mut i: usize = 0;
        while i < names.len()
            invariant
                i <= names.len(),
                forall|j: int| 0 <= j < i ==> is_entry_name(#[trigger] names@[j]@),
            decreases names.len() - i,
        {
            let name = &names[i];
            proof {
                use_type_invariant(name);
            }
            i += 1;
        }
        let planner = DeletePlanner { root, pending, entries };
        proof {
            let before = self.planner;
            if before.connected() && before.entries@.len() > 0 && before.entries@.last().path@
                == self.path@ && before.entries@.last().kind is Directory {
                let added = children_backwards(path@, names@);
                assert(models(planner.pending@) == models(before.pending@) + added);
                assert(models(before.pending@).len() == before.pending@.len());
                let last = entries@.len() - 1;
                assert forall|k: int| 0 <= k < planner.pending@.len() implies (
                #[trigger] planner.pending@[k])@ == planner.root@ || parent_planned(
                    planner.entries@,
                    planner.entries@.len() as int,
                    planner.pending@[k]@,
                ) by {
                    assert(models(planner.pending@)[k] == planner.pending@[k]@);
                    if k < before.pending@.len() {
                        assert(models(planner.pending@)[k] == models(before.pending@)[k]);
                        assert(before.pending@[k]@ == planner.pending@[k]@);
                    } else {
                        let at = k - before.pending@.len();
                        assert(models(planner.pending@)[k] == added[at]);
                        let name = names@[names@.len() - 1 - at]@;
                        lemma_join_then_file_name(path@, name);
                        assert(entries@[last].kind is Directory);
                    }
                }
            }
        }
        Ok(planner)
    }
}

/// An object a caller has approved for deletion.
#[derive(Debug)]
pub struct Approved {
    pub path: PathBuf,
    pub key: ObjectKey,
}

/// The object approved at a path, the last one if there are several.
pub open spec fn approved_at(approved: Seq<Approved>, path: PathModel) -> Option<ObjectKey>
    decreases approved.len(),
{
    if approved.len() == 0 {
        None
    } else if approved.last().path@ == path {
        Some(approved.last().key)
    } else {
        approved_at(approved.drop_last(), path)
    }
}

/// Roots being moved aside, one after another.
#[derive(Debug)]
pub struct Deletion {
    /// What is left to move aside, the next one last.
    pub todo: Vec<PathBuf>,
    /// What was moved aside.
    pub staged: Vec<QuarantinedRoot>,
    pub approved: Vec<Approved>,
    pub allow_trash_backings: bool,
}

/// What a deletion wants next while it moves roots aside.
#[derive(Debug)]
pub enum DeletionStep {
    /// Move one root aside.
    Stage(StageWanted),
    /// Every root is aside: plan what is to be erased.
    Plan(PlanRoots),
}

/// A deletion waits for one root to be moved aside.
#[derive(Debug)]
pub struct StageWanted {
    pub deletion: Deletion,
    pub original: PathBuf,
    pub expected: Option<ObjectKey>,
}

/// Roots that are aside and being planned, up to `index`.
#[derive(Debug)]
pub struct PlanRoots {
    pub roots: Vec<QuarantinedRoot>,
    pub index: usize,
}

/// What a deletion wants next while it plans.
#[derive(Debug)]
pub enum PlanRootsStep {
    /// Plan what lies at and under a quarantine.
    Collect(CollectWanted),
    /// Everything is planned: erase it.
    Erase(Erasing),
}

/// A deletion waits for the plan of one root.
#[derive(Debug)]
pub struct CollectWanted {
    pub plan: PlanRoots,
    pub quarantine: PathBuf,
}

/// A deletion that will not happen: what was moved aside goes back.
#[derive(Debug)]
pub struct DeleteRollback {
    /// What is left to put back, the next one last.
    pub left: Vec<QuarantinedRoot>,
    pub path: PathBuf,
    pub message: String,
    /// Whether any root left its path.
    pub touched: bool,
}

/// What putting roots back wants next.
#[derive(Debug)]
pub enum DeleteRollbackStep {
    /// Rename the quarantine to the original path.
    Rename(RollbackRename),
    Done(DeleteOutcome),
}

/// A root that is to be put back.
#[derive(Debug)]
pub struct RollbackRename {
    pub rollback: DeleteRollback,
    pub root: QuarantinedRoot,
}

/// Roots being erased, one after another.
#[derive(Debug)]
pub struct Erasing {
    /// What is left to erase, the next one last.
    pub todo: Vec<QuarantinedRoot>,
    pub completed: Vec<PathBuf>,
    pub failures: Vec<PathFailure>,
    /// Whether any root left its path.
    pub touched: bool,
}

/// What a deletion wants next while it erases.
#[derive(Debug)]
pub enum ErasingStep {
    /// Erase one root.
    Erase(EraseWanted),
    Done(DeleteOutcome),
}

/// A deletion waits for one root to be erased.
#[derive(Debug)]
pub struct EraseWanted {
    pub erasing: Erasing,
    pub root: QuarantinedRoot,
}

/// Starts deleting the objects at `paths` for good.
pub fn delete_paths(paths: &Vec<PathBuf>, progress: &mut TransferProgress) -> (deletion: Deletion)
    ensures
        roots_of(models(paths@), deletion.todo@.reverse()),
        deletion.staged@.len() == 0,
        deletion.approved@.len() == 0,
        !deletion.allow_trash_backings,
        final(progress)@ == (TransferProgressSnapshot { preparing: true, ..old(progress)@ }),
{
    delete_paths_with_policy(paths, Vec::new(), false, progress)
}

/// Delete Trash payloads a purge has already identified.
///
/// Each backing arrives with the key its record was validated against, so the
/// deletion refuses a substitution rather than trusting the path. A fresh look
/// agrees with itself whatever happened since the caller decided to delete;
/// only the key carried across that boundary can tell the payload it approved
/// from what replaced it.
pub fn delete_trash_backings(backings: Vec<Approved>, progress: &mut TransferProgress) -> (deletion:
    Deletion)
    ensures
        roots_of(
            backings@.map_values(|backing: Approved| backing.path@),
            deletion.todo@.reverse(),
        ),
        deletion.staged@.len() == 0,
        deletion.approved == backings,
        deletion.allow_trash_backings,
        final(progress)@ == (TransferProgressSnapshot { preparing: true, ..old(progress)@ }),
{
    let mut paths: Vec<PathBuf> = Vec::new();
    let mut i: usize = 0;
    let ghost named = backings@.map_values(|backing: Approved| backing.path@);
    while i < backings.len()
        invariant
            i <= backings@.len(),
            named == backings@.map_values(|backing: Approved| backing.path@),
            models(paths@) == named.take(i as int),
        decreases backings.len() - i,
    {
        let ghost before = paths@;
        paths.push(backings[i].path.clone());
        proof {
            assert(models(paths@) =~= models(before).push(named[i as int]));
            assert(named.take(i + 1) =~= named.take(i as int).push(named[i as int]));
        }
        i += 1;
    }
    assert(named.take(i as int) =~= named);
    delete_paths_with_policy(&paths, backings, true, progress)
}

/// Starts deleting the one object at `path` for good, if it is still the one
/// with this key.
pub fn delete_checked(path: &PathBuf, key: ObjectKey, progress: &mut TransferProgress) -> (deletion:
    Deletion)
    ensures
        deletion.todo@.len() == 1,
        deletion.todo@[0]@ == path@,
        deletion.staged@.len() == 0,
        deletion.approved@ == seq![Approved { path: *path, key }],
        !deletion.allow_trash_backings,
        final(progress)@ == (TransferProgressSnapshot { preparing: true, ..old(progress)@ }),
{
    let mut paths: Vec<PathBuf> = Vec::new();
    paths.push(path.clone());
    let mut approved: Vec<Approved> = Vec::new();
    approved.push(Approved { path: path.clone(), key });
    let deletion = delete_paths_with_policy(&paths, approved, false, progress);
    proof {
        let requested = models(paths@);
        let roots = models(deletion.todo@.reverse());
        assert(requested.len() == 1 && requested[0] == path@);
        assert(requested.contains(path@));
        assert(!contained_in_another(requested, path@));
        assert(roots.contains(path@));
        assert forall|i: int| 0 <= i < roots.len() implies roots[i] == path@ by {
            assert(roots.contains(roots[i]));
            assert(requested.contains(roots[i]));
        }
        if roots.len() > 1 {
            assert(roots[0] == roots[1]);
        }
        assert(deletion.todo@.reverse()[0] == deletion.todo@[0]);
        assert(roots[0] == deletion.todo@[0]@);
        assert(approved@ =~= seq![Approved { path: *path, key }]);
    }
    deletion
}

fn delete_paths_with_policy(
    paths: &Vec<PathBuf>,
    approved: Vec<Approved>,
    allow_trash_backings: bool,
    progress: &mut TransferProgress,
) -> (deletion: Deletion)
    ensures
        roots_of(models(paths@), deletion.todo@.reverse()),
        deletion.staged@.len() == 0,
        deletion.approved == approved,
        deletion.allow_trash_backings == allow_trash_backings,
        final(progress)@ == (TransferProgressSnapshot { preparing: true, ..old(progress)@ }),
{
    progress.set_preparing(true);
    let roots = top_level_paths(paths);
    let mut todo: Vec<PathBuf> = Vec::new();
    let mut left: usize = roots.len();
    assert(todo@ =~= roots@.skip(roots@.len() as int).reverse());
    while left > 0
        invariant
            left <= roots@.len(),
            todo@ == roots@.skip(left as int).reverse(),
        decreases left,
    {
        left -= 1;
        let ghost before = todo@;
        todo.push(roots[left].clone());
        assert(todo@ =~= roots@.skip(left as int).reverse());
    }
    assert(todo@.reverse() =~= roots@);
    Deletion { todo, staged: Vec::new(), approved, allow_trash_backings }
}

impl Deletion {
    /// Whether this is what the deletion wants next.
    pub open spec fn wants(self, step: DeletionStep) -> bool {
        match step {
            DeletionStep::Plan(plan) => self.todo@.len() == 0 && plan.roots == self.staged
                && plan.index == 0,
            DeletionStep::Stage(wanted) => self.todo@.len() > 0 && wanted.original
                == self.todo@.last() && wanted.expected == approved_at(
                self.approved@,
                wanted.original@,
            ) && wanted.deletion.todo@ == self.todo@.drop_last() && wanted.deletion.staged
                == self.staged && wanted.deletion.approved == self.approved
                && wanted.deletion.allow_trash_backings == self.allow_trash_backings,
        }
    }

    pub fn next(self) -> (step: DeletionStep)
        ensures
            self.wants(step),
    {
        let Deletion { todo, staged, approved, allow_trash_backings } = self;
        let mut todo = todo;
        let original = match todo.pop() {
            Some(original) => original,
            None => {
                return DeletionStep::Plan(PlanRoots { roots: staged, index: 0 });
            },
        };
        let mut expected: Option<ObjectKey> = None;
        let mut i: usize = 0;
        assert(approved@.take(0) =~= Seq::empty());
        while i < approved.len()
            invariant
                i <= approved@.len(),
                expected == approved_at(approved@.take(i as int), original@),
            decreases approved.len() - i,
        {
            proof {
                assert(approved@.take(i + 1).drop_last() =~= approved@.take(i as int));
                assert(approved@.take(i + 1).last() == approved@[i as int]);
            }
            if approved[i].path.same(&original) {
                expected = Some(approved[i].key);
            }
            i += 1;
        }
        assert(approved@.take(i as int) =~= approved@);
        DeletionStep::Stage(
            StageWanted {
                deletion: Deletion { todo, staged, approved, allow_trash_backings },
                original,
                expected,
            },
        )
    }
}

impl StageWanted {
    /// What comes of moving the root aside.
    pub open spec fn settles(
        self,
        result: Result<PathBuf, StageFailure>,
        next: Result<Deletion, DeleteRollback>,
    ) -> bool {
        match (result, next) {
            (Ok(quarantine), Ok(deletion)) => {
                &&& deletion.todo == self.deletion.todo
                &&& deletion.approved == self.deletion.approved
                &&& deletion.allow_trash_backings == self.deletion.allow_trash_backings
                &&& deletion.staged@.len() == self.deletion.staged@.len() + 1
                &&& deletion.staged@.drop_last() == self.deletion.staged@
                &&& deletion.staged@.last().original == self.original
                &&& deletion.staged@.last().quarantine == quarantine
                &&& deletion.staged@.last().entries@.len() == 0
            },
            (Err(failure), Err(rollback)) => rollback == (DeleteRollback {
                left: self.deletion.staged,
                path: self.original,
                message: failure.message,
                touched: failure.touched || self.deletion.staged@.len() > 0,
            }),
            _ => false,
        }
    }

    /// Where the root was moved to, or why it was not.
    pub fn staged(self, result: Result<PathBuf, StageFailure>) -> (next: Result<
        Deletion,
        DeleteRollback,
    >)
        ensures
            self.settles(result, next),
    {
        let StageWanted { deletion, original, .. } = self;
        let quarantine = match result {
            Ok(quarantine) => quarantine,
            Err(failure) => {
                let touched = failure.touched || deletion.staged.len() > 0;
                return Err(
                    DeleteRollback {
                        left: deletion.staged,
                        path: original,
                        message: failure.message,
                        touched,
                    },
                );
            },
        };
        let Deletion { todo, staged, approved, allow_trash_backings } = deletion;
        let ghost before = staged@;
        let mut staged = staged;
        staged.push(QuarantinedRoot { original, quarantine, entries: Vec::new() });
        assert(staged@.drop_last() =~= before);
        Ok(Deletion { todo, staged, approved, allow_trash_backings })
    }
}

impl PlanRoots {
    pub fn next(self, progress: &mut TransferProgress) -> (step: PlanRootsStep)
        ensures
            match step {
                PlanRootsStep::Collect(wanted) => self.index < self.roots@.len() && wanted.plan
                    == self && wanted.quarantine == self.roots@[self.index as int].quarantine
                    && final(progress)@ == old(progress)@,
                PlanRootsStep::Erase(erasing) => self.index >= self.roots@.len()
                    && erasing.todo@.reverse() == self.roots@ && erasing.completed@.len() == 0
                    && erasing.failures@.len() == 0 && erasing.touched == (self.roots@.len() > 0)
                    && final(progress)@ == (
                TransferProgressSnapshot { preparing: false, ..old(progress)@ }),
            },
    {
        if self.index < self.roots.len() {
            let quarantine = self.roots[self.index].quarantine.clone();
            return PlanRootsStep::Collect(CollectWanted { plan: self, quarantine });
        }
        progress.set_preparing(false);
        let ghost all = self.roots@;
        let touched = self.roots.len() > 0;
        let mut roots = self.roots;
        let mut todo: Vec<QuarantinedRoot> = Vec::new();
        assert(todo@ =~= all.skip(all.len() as int).reverse());
        while roots.len() > 0
            invariant
                roots@.len() <= all.len(),
                roots@ == all.take(roots@.len() as int),
                todo@ == all.skip(roots@.len() as int).reverse(),
            decreases roots.len(),
        {
            let ghost before = roots@;
            let ghost done = todo@;
            match roots.pop() {
                Some(root) => {
                    todo.push(root);
                    proof {
                        assert(roots@ =~= all.take(roots@.len() as int));
                        assert(todo@ =~= all.skip(roots@.len() as int).reverse());
                    }
                },
                None => {},
            }
        }
        assert(todo@.reverse() =~= all);
        PlanRootsStep::Erase(Erasing { todo, completed: Vec::new(), failures: Vec::new(), touched })
    }
}

/// A deletion that could not be planned.
pub open spec fn not_planned(original: Seq<u8>, why: Seq<char>) -> Seq<char> {
    about("Could not prepare "@, original, " for permanent deletion: "@ + why)
}

impl CollectWanted {
    /// What comes of planning the root.
    pub open spec fn settles(
        self,
        result: Result<Vec<DeleteEntry>, String>,
        next: Result<PlanRoots, DeleteRollback>,
    ) -> bool {
        match (result, next) {
            (Ok(entries), Ok(plan)) => {
                let index = self.plan.index as int;
                &&& plan.index == index + 1
                &&& plan.roots@.len() == self.plan.roots@.len()
                &&& plan.roots@[index].original == self.plan.roots@[index].original
                &&& plan.roots@[index].quarantine == self.plan.roots@[index].quarantine
                &&& plan.roots@[index].entries == entries
                &&& forall|i: int|
                    0 <= i < plan.roots@.len() && i != index ==> #[trigger] plan.roots@[i]
                        == self.plan.roots@[i]
            },
            (Err(why), Err(rollback)) => rollback.left == self.plan.roots && rollback.path
                == self.plan.roots@[self.plan.index as int].original && rollback.message@
                == not_planned(rollback.path.text(), why@) && rollback.touched,
            _ => false,
        }
    }

    /// The plan for the root, or why there is none.
    pub fn collected(self, result: Result<Vec<DeleteEntry>, String>) -> (next: Result<
        PlanRoots,
        DeleteRollback,
    >)
        requires
            self.plan.index < self.plan.roots@.len(),
        ensures
            self.settles(result, next),
    {
        let PlanRoots { roots, index } = self.plan;
        let original = roots[index].original.clone();
        let quarantine = roots[index].quarantine.clone();
        match result {
            Ok(entries) => {
                let mut roots = roots;
                assert(index < roots.len());
                roots.set(index, QuarantinedRoot { original, quarantine, entries });
                Ok(PlanRoots { roots, index: index + 1 })
            },
            Err(why) => {
                let mut after = " for permanent deletion: ".to_owned();
                after.append(why.as_str());
                let message = message_about("Could not prepare ", &original, after.as_str());
                Err(DeleteRollback { left: roots, path: original, message, touched: true })
            },
        }
    }
}

impl DeleteRollback {
    /// Whether this is what putting roots back wants next.
    pub open spec fn wants(self, step: DeleteRollbackStep) -> bool {
        match step {
            DeleteRollbackStep::Done(outcome) => self.left@.len() == 0
                && outcome.completed@.len() == 0 && outcome.failures@ == seq![
                PathFailure { path: self.path, message: self.message },
            ] && outcome.touched == self.touched,
            DeleteRollbackStep::Rename(rename) => self.left@.len() > 0 && rename.root
                == self.left@.last() && rename.rollback.left@ == self.left@.drop_last()
                && rename.rollback.path == self.path && rename.rollback.message
                == self.message && rename.rollback.touched == self.touched,
        }
    }

    /// What putting roots back wants next, the last one moved aside first.
    pub fn rollback_quarantines(self) -> (step: DeleteRollbackStep)
        ensures
            self.wants(step),
    {
        let DeleteRollback { left, path, message, touched } = self;
        let mut left = left;
        match left.pop() {
            None => DeleteRollbackStep::Done(DeleteOutcome::failed(path, message, touched)),
            Some(root) => DeleteRollbackStep::Rename(
                RollbackRename { rollback: DeleteRollback { left, path, message, touched }, root },
            ),
        }
    }
}

impl RollbackRename {
    /// Whether the root was put back.
    pub fn failed_after_rollback(self, renamed: bool) -> (next: Result<
        DeleteRollback,
        DeleteOutcome,
    >)
        ensures
            match next {
                Ok(rollback) => renamed && rollback == self.rollback,
                Err(outcome) => !renamed && outcome.touched && outcome.completed@.len() == 0
                    && outcome.failures@.len() == 1 && outcome.failures@[0].path
                    == self.rollback.path && outcome.failures@[0].message@
                    == self.rollback.message@ + "; staging rollback also failed: "@ + about(
                    "Could not restore staged delete target "@,
                    self.root.original.text(),
                    about(" from "@, self.root.quarantine.text(), ""@),
                ),
            },
    {
        if renamed {
            return Ok(self.rollback);
        }
        let DeleteRollback { path, message, .. } = self.rollback;
        let mut message = message;
        message.append("; staging rollback also failed: ");
        let rest = message_about(" from ", &self.root.quarantine, "");
        let why = message_about(
            "Could not restore staged delete target ",
            &self.root.original,
            rest.as_str(),
        );
        message.append(why.as_str());
        // What could not be put back is still away from its path.
        Err(DeleteOutcome::failed(path, message, true))
    }
}

/// Whether some failure is about `path`.
pub open spec fn failed_at(failures: Seq<PathFailure>, path: PathModel) -> bool {
    exists|i: int| 0 <= i < failures.len() && (#[trigger] failures[i]).path@ == path
}

/// What is said of a root that is not gone although nothing failed on it.
pub open spec fn incomplete(original: Seq<u8>, quarantine: Seq<u8>) -> Seq<char> {
    about(
        "Permanent deletion of "@,
        original,
        about(" was incomplete; remaining data is quarantined as "@, quarantine, ""@),
    )
}

impl Erasing {
    pub fn next(self, progress: &mut TransferProgress) -> (step: ErasingStep)
        ensures
            match step {
                ErasingStep::Done(outcome) => self.todo@.len() == 0 && outcome == (DeleteOutcome {
                    completed: self.completed,
                    failures: self.failures,
                    touched: self.touched,
                }) && final(progress)@ == (TransferProgressSnapshot {
                    current_path: None,
                    ..old(progress)@
                }),
                ErasingStep::Erase(wanted) => self.todo@.len() > 0 && wanted.root
                    == self.todo@.last() && wanted.erasing.todo@ == self.todo@.drop_last()
                    && wanted.erasing.completed == self.completed && wanted.erasing.failures
                    == self.failures && wanted.erasing.touched == self.touched && final(progress)@ == old(progress)@,
            },
    {
        let Erasing { todo, completed, failures, touched } = self;
        let mut todo = todo;
        match todo.pop() {
            None => {
                progress.set_current_path(None);
                ErasingStep::Done(DeleteOutcome { completed, failures, touched })
            },
            Some(root) => ErasingStep::Erase(
                EraseWanted { erasing: Erasing { todo, completed, failures, touched }, root },
            ),
        }
    }
}

impl EraseWanted {
    /// Whether `next` is what erasing one root comes to.
    pub open spec fn settles(
        self,
        failures: Vec<PathFailure>,
        gone: bool,
        next: Erasing,
    ) -> bool {
        &&& next.todo == self.erasing.todo
        &&& next.touched == self.erasing.touched
        &&& next.completed@ == (if failures@.len() == 0 && gone {
            self.erasing.completed@.push(self.root.original)
        } else {
            self.erasing.completed@
        })
        &&& (({
            let known = self.erasing.failures@ + failures@;
            if (failures@.len() == 0 && gone) || failed_at(known, self.root.original@) {
                next.failures@ == known
            } else {
                &&& next.failures@.len() == known.len() + 1
                &&& next.failures@.drop_last() == known
                &&& next.failures@.last().path == self.root.original
                &&& next.failures@.last().message@ == incomplete(
                    self.root.original.text(),
                    self.root.quarantine.text(),
                )
            }
        }))
        &&& ((failures@.len() == 0 && gone && next.completed@.last() == self.root.original)
            || failed_at(next.failures@, self.root.original@))
    }

    /// What could not be erased, and whether nothing is left at the quarantine.
    /// Every root is accounted for: it is completed, or some failure is about
    /// it.
    pub fn erased(self, failures: Vec<PathFailure>, gone: bool) -> (next: Erasing)
        ensures
            self.settles(failures, gone, next),
    {
        let EraseWanted { erasing, root } = self;
        let Erasing { todo, completed, failures: earlier, touched } = erasing;
        let failed = failures.len() > 0;
        let mut completed = completed;
        let mut known = earlier;
        let mut failures = failures;
        let ghost all = known@ + failures@;
        known.append(&mut failures);
        assert(known@ =~= all);
        if !failed && gone {
            completed.push(root.original);
            return Erasing { todo, completed, failures: known, touched };
        }
        let mut reported = false;
        let mut i: usize = 0;
        while i < known.len()
            invariant
                i <= known@.len(),
                reported <==> exists|k: int|
                    0 <= k < i && (#[trigger] known@[k]).path@ == root.original@,
            decreases known.len() - i,
        {
            if known[i].path.same(&root.original) {
                reported = true;
            }
            i += 1;
        }
        assert(reported == failed_at(known@, root.original@));
        if !reported {
            let rest = message_about(
                " was incomplete; remaining data is quarantined as ",
                &root.quarantine,
                "",
            );
            let message = message_about("Permanent deletion of ", &root.original, rest.as_str());
            known.push(PathFailure { path: root.original, message });
            assert(known@.drop_last() =~= all);
            assert(known@[all.len() as int].path@ == root.original@);
        }
        Erasing { todo, completed, failures: known, touched }
    }
}

} // verus!
