//! Merging one directory into another.
//!
//! Merging is the union of two trees: whatever the destination already has, it
//! keeps. That makes it a pure addition. Nothing is displaced, so nothing needs
//! quarantining; undo is exactly "remove what was added", which restores the
//! previous state rather than approximating it; and a merge that fails partway
//! has added a subset of what it planned, which is describable.
//!
//! The operation as a whole cannot be published atomically the way a copy is,
//! because it writes into a tree that is already visible. Each file is still
//! published atomically on its own, so a half-written file is never reachable
//! under its final name.

use vstd::prelude::*;

use crate::fsops::conflict::describe_occupant;
use crate::fsops::copy::CopiedItem;
use crate::fsops::dropped::Dropped;
use crate::fsops::identity::{about, message_about, FileIdentity, Metadata, SnapshotKind};
use crate::fsops::journal::PathSnapshot;
use crate::fsops::local::{
    at, inspect, is_entry_name, list_error_at, list_failure, located, models, sorted_children,
    ListError, Lookup, Name,
};
use crate::fsops::snapshots::{
    found_at, lemma_special_refusal, reject_special_entries, snapshot_paths, special_refusal,
    PartialRemoval,
};
use crate::index::sorted_distinct;
use crate::order::sorted;
use crate::path::{lemma_join_then_file_name, PathBuf, PathModel};

verus! {

/// Why a merge stopped before it had added everything it planned.
#[derive(Debug)]
pub enum MergeStop {
    Failed(String),
    Cancelled,
}

/// What a merge added, and why it stopped if it did not finish.
///
/// A merge crosses one commit boundary per entry it creates, so `Result` cannot
/// describe it: after the first directory it makes the disk has changed no
/// matter what happens next, and a bare `Err` would tell the caller the
/// opposite.
#[derive(Debug)]
pub struct MergeOutcome {
    /// Exactly what reached the destination, parents before children, so
    /// removing in reverse takes leaves first.
    pub created: Vec<PathSnapshot>,
    /// Whether `created` describes every addition. False when a snapshot could
    /// not be taken or the operation's budget ran out; the additions stand
    /// either way, they simply cannot be taken back.
    pub undoable: bool,
    pub stopped: Option<MergeStop>,
    /// What the destination could not keep.
    pub dropped: Dropped,
}

/// Something that goes from one place to another.
#[derive(Debug)]
pub struct Pair {
    pub source: PathBuf,
    pub destination: PathBuf,
}

/// One directory folded into another, decided before anything is written.
#[derive(Debug)]
pub struct MergePlan {
    /// Directories to create, parents before children.
    pub directories: Vec<PathBuf>,
    /// Files, symlinks, and other leaves to copy.
    pub files: Vec<Pair>,
}

/// Whether two paths lie equally deep, under the same names, in two trees.
pub open spec fn counterpart(
    source_root: PathModel,
    destination_root: PathModel,
    source: PathModel,
    destination: PathModel,
) -> bool {
    &&& source_root.names.is_prefix_of(source.names)
    &&& destination_root.names.is_prefix_of(destination.names)
    &&& source.names.skip(source_root.names.len() as int) == destination.names.skip(
        destination_root.names.len() as int,
    )
}

/// A merge being planned.
#[derive(Debug)]
pub struct MergePlanner {
    pub plan: MergePlan,
    /// What is left to look at, the next one last.
    pub pending: Vec<Pair>,
}

impl MergePlanner {
    /// Whether everything planned keeps its place within the tree: each leaf
    /// goes where it stands in the source, and nothing leaves the destination.
    pub open spec fn in_place(self, source: PathModel, destination: PathModel) -> bool {
        &&& forall|i: int|
            0 <= i < self.pending@.len() ==> counterpart(
                source,
                destination,
                (#[trigger] self.pending@[i]).source@,
                self.pending@[i].destination@,
            )
        &&& plan_in_place(self.plan, source, destination)
    }
}

/// Whether everything planned keeps its place within the tree.
pub open spec fn plan_in_place(
    plan: MergePlan,
    source: PathModel,
    destination: PathModel,
) -> bool {
    &&& forall|i: int|
        0 <= i < plan.directories@.len() ==> destination.names.is_prefix_of(
            (#[trigger] plan.directories@[i])@.names,
        )
    &&& forall|i: int|
        0 <= i < plan.files@.len() ==> counterpart(
            source,
            destination,
            (#[trigger] plan.files@[i]).source@,
            plan.files@[i].destination@,
        )
}

/// What planning a merge wants next.
#[derive(Debug)]
pub enum MergePlanStep {
    /// Look at both sides of a pair.
    Inspect(PairWanted),
    Planned(MergePlan),
}

/// Planning waits to know what is on both sides of a pair.
#[derive(Debug)]
pub struct PairWanted {
    pub planner: MergePlanner,
    pub pair: Pair,
}

/// What a pair wants once both sides are known.
#[derive(Debug)]
pub enum PairStep {
    /// List the source directory.
    List(ChildrenWanted),
    Next(MergePlanner),
    Failed(String),
}

/// Planning waits for the children of a source directory.
#[derive(Debug)]
pub struct ChildrenWanted {
    pub planner: MergePlanner,
    pub pair: Pair,
}

/// Decide a whole merge before performing any of it.
///
/// Directories are not conflicts here — they are the points at which the two
/// trees join, so an existing directory is descended into rather than skipped.
/// Anything else already present is left exactly as it is.
pub fn plan_merge(source: &PathBuf, destination: &PathBuf) -> (planner: MergePlanner)
    ensures
        planner.plan.directories@.len() == 0,
        planner.plan.files@.len() == 0,
        planner.pending@ == seq![Pair { source: *source, destination: *destination }],
        planner.in_place(source@, destination@),
{
    let mut pending: Vec<Pair> = Vec::new();
    pending.push(Pair { source: source.clone(), destination: destination.clone() });
    assert(source@.names.skip(source@.names.len() as int) =~= destination@.names.skip(
        destination@.names.len() as int,
    ));
    MergePlanner { plan: MergePlan { directories: Vec::new(), files: Vec::new() }, pending }
}

impl MergePlanner {
    /// Whether this is what planning wants next.
    pub open spec fn wants(self, step: MergePlanStep) -> bool {
        match step {
            MergePlanStep::Planned(plan) => self.pending@.len() == 0 && plan == self.plan,
            MergePlanStep::Inspect(wanted) => self.pending@.len() > 0 && wanted.pair
                == self.pending@.last() && wanted.planner.plan == self.plan
                && wanted.planner.pending@ == self.pending@.drop_last(),
        }
    }

    /// What planning wants next.
    pub fn next(self) -> (step: MergePlanStep)
        ensures
            self.wants(step),
    {
        let MergePlanner { plan, pending } = self;
        let mut pending = pending;
        match pending.pop() {
            None => MergePlanStep::Planned(plan),
            Some(pair) => MergePlanStep::Inspect(
                PairWanted { planner: MergePlanner { plan, pending }, pair },
            ),
        }
    }
}

impl PairWanted {
    /// What follows from what is on both sides.
    pub open spec fn follows(self, source: Lookup, destination: Lookup, step: PairStep) -> bool {
        match (source, destination) {
            (Lookup::Found(metadata), Lookup::Found(occupant)) => if metadata.kind is Directory
                && occupant.kind is Directory {
                // Two directories meet: join them and keep walking.
                step matches PairStep::List(wanted) && wanted.pair == self.pair
                    && wanted.planner == self.planner
            } else {
                // A merge keeps what is there.
                step == PairStep::Next(self.planner)
            },
            (Lookup::Found(metadata), Lookup::Missing) => if metadata.kind is Directory {
                // Create it, then walk it.
                step matches PairStep::List(wanted) && wanted.pair == self.pair
                    && wanted.planner.pending == self.planner.pending
                    && wanted.planner.plan.files == self.planner.plan.files
                    && wanted.planner.plan.directories@ == self.planner.plan.directories@.push(
                    self.pair.destination,
                )
            } else {
                step matches PairStep::Next(planner) && planner.pending == self.planner.pending
                    && planner.plan.directories == self.planner.plan.directories
                    && planner.plan.files@ == self.planner.plan.files@.push(self.pair)
            },
            (Lookup::Found(_), Lookup::Failed(_)) => step matches PairStep::Failed(message)
                && message@ == located(
                "Could not inspect destination"@,
                self.pair.destination.text(),
            ),
            _ => step matches PairStep::Failed(message) && message@ == located(
                "Could not inspect"@,
                self.pair.source.text(),
            ),
        }
    }

    /// What is at the source and at the destination.
    pub fn found(self, source: Lookup, destination: &Lookup) -> (step: PairStep)
        ensures
            self.follows(source, *destination, step),
    {
        let is_dir = match inspect(&self.pair.source, source) {
            Ok(metadata) => metadata.kind == SnapshotKind::Directory,
            Err(message) => {
                return PairStep::Failed(message);
            },
        };
        let occupant = match describe_occupant(destination) {
            Ok(occupant) => occupant,
            Err(_) => {
                return PairStep::Failed(
                    at("Could not inspect destination", &self.pair.destination),
                );
            },
        };
        let PairWanted { planner, pair } = self;
        match occupant {
            Some(occupant) => if is_dir && occupant.is_directory {
                PairStep::List(ChildrenWanted { planner, pair })
            } else {
                PairStep::Next(planner)
            },
            None => {
                let mut planner = planner;
                if is_dir {
                    planner.plan.directories.push(pair.destination.clone());
                    PairStep::List(ChildrenWanted { planner, pair })
                } else {
                    planner.plan.files.push(pair);
                    PairStep::Next(planner)
                }
            },
        }
    }
}

/// Whether `pairs` are the children of a pair, the last one first.
pub open spec fn children_of(pair: Pair, children: Seq<Name>, pairs: Seq<Pair>) -> bool {
    pairs.len() == children.len() && forall|i: int|
        0 <= i < pairs.len() ==> (#[trigger] pairs[i]).source@ == pair.source@.join(
            children[children.len() - 1 - i]@,
        ) && pairs[i].destination@ == pair.destination@.join(children[children.len() - 1 - i]@)
}

impl ChildrenWanted {
    /// What follows from the names in the source directory.
    pub open spec fn follows(
        self,
        entries: Result<Vec<Name>, ListError>,
        result: Result<MergePlanner, String>,
    ) -> bool {
        match entries {
            Ok(children) => result matches Ok(planner) && planner.plan == self.planner.plan
                && planner.pending@.len() == self.planner.pending@.len() + sorted(
                children@,
            ).len() && planner.pending@.take(self.planner.pending@.len() as int)
                == self.planner.pending@ && children_of(
                self.pair,
                sorted(children@),
                planner.pending@.skip(self.planner.pending@.len() as int),
            ),
            Err(error) => result matches Err(message) && message@ == list_failure(
                error,
                self.pair.source.text(),
            ),
        }
    }

    /// The names in the source directory, or why they could not be read.
    pub fn listed(self, entries: Result<Vec<Name>, ListError>) -> (result: Result<
        MergePlanner,
        String,
    >)
        ensures
            self.follows(entries, result),
    {
        let children = match entries {
            Ok(children) => sorted_children(children),
            Err(error) => {
                return Err(list_error_at(error, &self.pair.source));
            },
        };
        let ChildrenWanted { planner, pair } = self;
        let MergePlanner { plan, pending } = planner;
        let ghost before = pending@;
        let mut pending = pending;
        let mut left: usize = children.len();
        assert(pending@.take(before.len() as int) =~= before);
        // Reversed so children are visited in enumeration order, which keeps
        // created parents ahead of their children.
        while left > 0
            invariant
                left <= children.len(),
                pending@.len() == before.len() + (children.len() - left),
                pending@.take(before.len() as int) == before,
                forall|i: int|
                    0 <= i < children.len() - left ==> (#[trigger] pending@[before.len()
                        + i]).source@ == pair.source@.join(children@[children.len() - 1 - i]@)
                        && pending@[before.len() + i].destination@ == pair.destination@.join(
                        children@[children.len() - 1 - i]@,
                    ),
            decreases left,
        {
            left -= 1;
            let ghost earlier = pending@;
            let name = children[left].as_bytes();
            let destination = pair.destination.join(name);
            let source = pair.source.join(name);
            pending.push(Pair { source, destination });
            proof {
                assert(pending@.take(before.len() as int) =~= earlier.take(before.len() as int));
                assert forall|i: int| 0 <= i < children.len() - left implies (
                #[trigger] pending@[before.len() + i]).source@ == pair.source@.join(
                    children@[children.len() - 1 - i]@,
                ) && pending@[before.len() + i].destination@ == pair.destination@.join(
                    children@[children.len() - 1 - i]@,
                ) by {
                    if i < children.len() - left - 1 {
                        assert(pending@[before.len() + i] == earlier[before.len() + i]);
                    }
                }
            }
        }
        proof {
            let added = pending@.skip(before.len() as int);
            assert forall|i: int| 0 <= i < added.len() implies (#[trigger] added[i]).source@
                == pair.source@.join(children@[children@.len() - 1 - i]@) && added[i].destination@
                == pair.destination@.join(children@[children@.len() - 1 - i]@) by {
                assert(added[i] == pending@[before.len() + i]);
            }
        }
        Ok(MergePlanner { plan, pending })
    }
}

/// Looking at a pair keeps everything in place.
pub proof fn lemma_pair_stays_in_place(
    before: MergePlanner,
    wanted: PairWanted,
    source: PathModel,
    destination: PathModel,
)
    requires
        before.in_place(source, destination),
        before.pending@.len() > 0,
        wanted.pair == before.pending@.last(),
        wanted.planner.plan == before.plan,
        wanted.planner.pending@ == before.pending@.drop_last(),
    ensures
        wanted.planner.in_place(source, destination),
        counterpart(source, destination, wanted.pair.source@, wanted.pair.destination@),
{
    assert forall|i: int| 0 <= i < wanted.planner.pending@.len() implies counterpart(
        source,
        destination,
        (#[trigger] wanted.planner.pending@[i]).source@,
        wanted.planner.pending@[i].destination@,
    ) by {
        assert(wanted.planner.pending@[i] == before.pending@[i]);
    }
}

/// Planning a vacant pair keeps everything in place.
pub proof fn lemma_planned_stays_in_place(
    before: MergePlanner,
    after: MergePlanner,
    pair: Pair,
    source: PathModel,
    destination: PathModel,
)
    requires
        before.in_place(source, destination),
        counterpart(source, destination, pair.source@, pair.destination@),
        after.pending == before.pending,
        (after.plan.files == before.plan.files && after.plan.directories@
            == before.plan.directories@.push(pair.destination)) || (after.plan.directories
            == before.plan.directories && after.plan.files@ == before.plan.files@.push(pair)),
    ensures
        after.in_place(source, destination),
{
    assert forall|i: int| 0 <= i < after.plan.directories@.len() implies destination.names.is_prefix_of(
        (#[trigger] after.plan.directories@[i])@.names,
    ) by {
        if i < before.plan.directories@.len() {
            assert(after.plan.directories@[i] == before.plan.directories@[i]);
        }
    }
    assert forall|i: int| 0 <= i < after.plan.files@.len() implies counterpart(
        source,
        destination,
        (#[trigger] after.plan.files@[i]).source@,
        after.plan.files@[i].destination@,
    ) by {
        if i < before.plan.files@.len() {
            assert(after.plan.files@[i] == before.plan.files@[i]);
        }
    }
}

/// Going down into a directory keeps everything in place.
pub proof fn lemma_children_stay_in_place(
    before: ChildrenWanted,
    after: MergePlanner,
    children: Seq<Name>,
    source: PathModel,
    destination: PathModel,
)
    requires
        before.planner.in_place(source, destination),
        counterpart(source, destination, before.pair.source@, before.pair.destination@),
        after.plan == before.planner.plan,
        after.pending@.len() == before.planner.pending@.len() + children.len(),
        after.pending@.take(before.planner.pending@.len() as int) == before.planner.pending@,
        children_of(
            before.pair,
            children,
            after.pending@.skip(before.planner.pending@.len() as int),
        ),
        forall|i: int| 0 <= i < children.len() ==> is_entry_name((#[trigger] children[i])@),
    ensures
        after.in_place(source, destination),
{
    let below = before.planner.pending@.len();
    let added = after.pending@.skip(below as int);
    assert forall|i: int| 0 <= i < after.pending@.len() implies counterpart(
        source,
        destination,
        (#[trigger] after.pending@[i]).source@,
        after.pending@[i].destination@,
    ) by {
        if i < below {
            assert(after.pending@[i] == after.pending@.take(below as int)[i]);
            assert(after.pending@[i] == before.planner.pending@[i]);
        } else {
            assert(added[i - below] == after.pending@[i]);
            let name = children[children.len() - 1 - (i - below)];
            assert(is_entry_name(name@));
            let from = before.pair.source@;
            let to = before.pair.destination@;
            lemma_join_then_file_name(from, name@);
            lemma_join_then_file_name(to, name@);
            assert(from.join(name@).names.skip(source.names.len() as int) =~= from.names.skip(
                source.names.len() as int,
            ).push(name@));
            assert(to.join(name@).names.skip(destination.names.len() as int) =~= to.names.skip(
                destination.names.len() as int,
            ).push(name@));
        }
    }
}

/// A merge under way.
#[derive(Debug)]
pub struct Merge {
    pub plan: MergePlan,
    /// How many of the planned directories are there.
    pub made: usize,
    /// How many of the planned files are there.
    pub copied: usize,
    /// What was recorded of the files that were published.
    pub files: Vec<PathSnapshot>,
    pub undoable: bool,
    pub snapshot_limit: usize,
    /// What the destination could not keep so far.
    pub dropped: Dropped,
}

impl Merge {
    /// Whether no more is recorded than is allowed, and no more is counted
    /// than was planned.
    pub open spec fn well_formed(self) -> bool {
        &&& self.made <= self.plan.directories@.len()
        &&& self.copied <= self.plan.files@.len()
        &&& self.copied > 0 ==> self.made == self.plan.directories@.len()
        &&& self.undoable && self.made + self.files@.len() > 0 ==> self.made + self.files@.len()
            < self.snapshot_limit
    }

    /// What remains of the budget.
    pub open spec fn remaining(self) -> nat {
        if !self.undoable || self.made + self.files@.len() > self.snapshot_limit {
            0
        } else {
            (self.snapshot_limit - (self.made + self.files@.len())) as nat
        }
    }
}

/// What a merge wants next.
#[derive(Debug)]
pub enum MergeStep {
    MakeDirectory(DirectoryWanted),
    /// Copy a leaf, recording at most so many entries.
    CopyLeaf(LeafWanted),
    /// Nothing more will be written.
    Finish(MergeFinish),
}

/// A merge waits for a directory.
#[derive(Debug)]
pub struct DirectoryWanted {
    pub merge: Merge,
    pub directory: PathBuf,
}

/// A merge waits for a leaf to be copied.
#[derive(Debug)]
pub struct LeafWanted {
    pub merge: Merge,
    pub source: PathBuf,
    pub destination: PathBuf,
    pub snapshot_limit: usize,
}

/// A merge that is over, but for describing the directories it made.
#[derive(Debug)]
pub struct MergeFinish {
    pub merge: Merge,
    pub stopped: Option<MergeStop>,
}

/// Perform a planned merge, reporting what it added whether or not it finished.
///
/// `snapshot_limit` is what remains of the operation's budget, not a fresh
/// allowance per merge or per leaf: a wide union is exactly the shape that would
/// otherwise grow one record without bound.
pub fn merge_directories(plan: Result<MergePlan, String>, snapshot_limit: usize) -> (start: Result<
    Merge,
    MergeOutcome,
>)
    ensures
        match plan {
            Ok(plan) => start matches Ok(merge) && merge.plan == plan && merge.made == 0
                && merge.copied == 0 && merge.files@.len() == 0 && merge.undoable
                && merge.snapshot_limit == snapshot_limit && merge.dropped.is_nothing()
                && merge.well_formed(),
            Err(error) => start matches Err(outcome) && outcome.created@.len() == 0
                && outcome.undoable && outcome.dropped.is_nothing() && outcome.stopped == Some(MergeStop::Failed(error)),
        },
{
    match plan {
        Ok(plan) => Ok(
            Merge {
                plan,
                made: 0,
                copied: 0,
                files: Vec::new(),
                undoable: true,
                snapshot_limit,
                dropped: Dropped::nothing(),
            },
        ),
        // Nothing has been created yet, so a plan that cannot be made is an
        // ordinary failure.
        Err(error) => Err(
            MergeOutcome {
                created: Vec::new(),
                undoable: true,
                stopped: Some(MergeStop::Failed(error)),
                dropped: Dropped::nothing(),
            },
        ),
    }
}

impl Merge {
    /// Whether `step` is what the merge goes on with.
    pub open spec fn goes_on(self, cancelled: bool, step: MergeStep) -> bool {
        if self.made < self.plan.directories@.len() {
            if cancelled {
                step == MergeStep::Finish(
                    MergeFinish { merge: self, stopped: Some(MergeStop::Cancelled) },
                )
            } else {
                step == MergeStep::MakeDirectory(
                    DirectoryWanted {
                        merge: self,
                        directory: self.plan.directories@[self.made as int],
                    },
                )
            }
        } else if self.copied < self.plan.files@.len() {
            if cancelled {
                step == MergeStep::Finish(
                    MergeFinish { merge: self, stopped: Some(MergeStop::Cancelled) },
                )
            } else {
                step == MergeStep::CopyLeaf(
                    LeafWanted {
                        merge: self,
                        source: self.plan.files@[self.copied as int].source,
                        destination: self.plan.files@[self.copied as int].destination,
                        snapshot_limit: (self.remaining() / 2) as usize,
                    },
                )
            }
        } else {
            step == MergeStep::Finish(MergeFinish { merge: self, stopped: None })
        }
    }

    /// What the merge wants next. `cancelled` says whether it was abandoned.
    pub fn next(self, cancelled: bool) -> (step: MergeStep)
        ensures
            self.goes_on(cancelled, step),
    {
        if self.made < self.plan.directories.len() {
            if cancelled {
                return MergeStep::Finish(
                    MergeFinish { merge: self, stopped: Some(MergeStop::Cancelled) },
                );
            }
            let directory = self.plan.directories[self.made].clone();
            return MergeStep::MakeDirectory(DirectoryWanted { merge: self, directory });
        }
        if self.copied < self.plan.files.len() {
            if cancelled {
                return MergeStep::Finish(
                    MergeFinish { merge: self, stopped: Some(MergeStop::Cancelled) },
                );
            }
            let source = self.plan.files[self.copied].source.clone();
            let destination = self.plan.files[self.copied].destination.clone();
            let remaining: usize = if self.undoable {
                self.snapshot_limit.saturating_sub(self.made).saturating_sub(self.files.len())
            } else {
                0
            };
            assert(remaining as int == self.remaining());
            return MergeStep::CopyLeaf(
                LeafWanted { merge: self, source, destination, snapshot_limit: remaining / 2 },
            );
        }
        MergeStep::Finish(MergeFinish { merge: self, stopped: None })
    }
}

impl DirectoryWanted {
    /// Whether `result` is what making the directory comes to.
    pub open spec fn passes(self, created: bool, result: Result<Merge, MergeFinish>) -> bool {
        match result {
            Ok(merge) => created && merge == (Merge {
                made: (self.merge.made + 1) as usize,
                undoable: self.merge.undoable && self.merge.made + 1
                    < self.merge.snapshot_limit,
                ..self.merge
            }) && (self.merge.well_formed() && self.merge.files@.len() == 0
                ==> merge.well_formed()),
            Err(finish) => !created && finish.merge == self.merge && (finish.stopped matches
                Some(MergeStop::Failed(message)) && message@ == located(
                "Could not create"@,
                self.directory.text(),
            )),
        }
    }

    /// Whether the directory was created.
    ///
    /// Past the budget the merge still happens; it simply stops being
    /// describable, and says so rather than filling a record half way.
    pub fn made(self, created: bool) -> (result: Result<Merge, MergeFinish>)
        requires
            self.merge.made < self.merge.plan.directories@.len(),
        ensures
            self.passes(created, result),
    {
        let DirectoryWanted { merge, directory } = self;
        if !created {
            return Err(
                MergeFinish {
                    merge,
                    stopped: Some(MergeStop::Failed(at("Could not create", &directory))),
                },
            );
        }
        let mut merge = merge;
        assert(merge.made < merge.plan.directories.len());
        merge.made = merge.made + 1;
        merge.undoable = merge.undoable && merge.made < merge.snapshot_limit;
        Ok(merge)
    }
}

impl LeafWanted {
    /// Whether `next` is what copying the file comes to.
    pub open spec fn passes(
        self,
        result: Result<CopiedItem, String>,
        next: Result<Merge, MergeFinish>,
    ) -> bool {
        match (result, next) {
            (Ok(item), Ok(merge)) => {
                &&& merge.plan == self.merge.plan
                &&& merge.made == self.merge.made
                &&& merge.copied == self.merge.copied + 1
                &&& merge.snapshot_limit == self.merge.snapshot_limit
                &&& merge.dropped == self.merge.dropped.with(item.dropped)
                &&& if item.overflowed || !item.undoable {
                    !merge.undoable && merge.files == self.merge.files
                } else if self.merge.undoable {
                    merge.files@ == self.merge.files@ + item.created@ && merge.undoable == (
                    merge.made + merge.files@.len() < merge.snapshot_limit)
                } else {
                    !merge.undoable && merge.files == self.merge.files
                }
                &&& self.merge.well_formed() && self.merge.made
                    == self.merge.plan.directories@.len() ==> merge.well_formed()
            },
            (Err(error), Err(finish)) => finish.merge == self.merge && finish.stopped == Some(
                MergeStop::Failed(error),
            ),
            _ => false,
        }
    }

    /// What copying the leaf gave.
    pub fn copied(self, result: Result<CopiedItem, String>) -> (next: Result<Merge, MergeFinish>)
        requires
            self.merge.copied < self.merge.plan.files@.len(),
        ensures
            self.passes(result, next),
    {
        let LeafWanted { merge, .. } = self;
        let item = match result {
            Ok(item) => item,
            Err(error) => {
                return Err(MergeFinish { merge, stopped: Some(MergeStop::Failed(error)) });
            },
        };
        let mut merge = merge;
        assert(merge.copied < merge.plan.files.len());
        merge.copied = merge.copied + 1;
        merge.dropped = merge.dropped.also(item.dropped);
        if item.overflowed || !item.undoable {
            merge.undoable = false;
        } else if merge.undoable {
            let mut created = item.created;
            merge.files.append(&mut created);
            merge.undoable = merge.made < merge.snapshot_limit && merge.files.len()
                < merge.snapshot_limit - merge.made;
        }
        Ok(merge)
    }
}

/// The directories that something was published into.
pub open spec fn touched_by(merge: Merge, directory: PathModel) -> bool {
    ||| exists|i: int|
        0 <= i < merge.made && (#[trigger] merge.plan.directories@[i])@.parent() == Some(directory)
    ||| exists|i: int|
        0 <= i < merge.copied && (#[trigger] merge.plan.files@[i]).destination@.parent() == Some(
            directory,
        )
}

impl MergeFinish {
    /// Every directory something was published into, to be synced once.
    pub fn touched(&self) -> (directories: Vec<PathBuf>)
        requires
            self.merge.made <= self.merge.plan.directories@.len(),
            self.merge.copied <= self.merge.plan.files@.len(),
        ensures
            models(directories@).no_duplicates(),
            forall|directory: PathModel| #[trigger]
                models(directories@).contains(directory) <==> touched_by(self.merge, directory),
    {
        let mut parents: Vec<PathBuf> = Vec::new();
        let mut i: usize = 0;
        while i < self.merge.made
            invariant
                i <= self.merge.made <= self.merge.plan.directories@.len(),
                forall|directory: PathModel| #[trigger]
                    models(parents@).contains(directory) <==> exists|k: int|
                        0 <= k < i && (#[trigger] self.merge.plan.directories@[k])@.parent()
                            == Some(directory),
            decreases self.merge.made - i,
        {
            let ghost before = parents@;
            match self.merge.plan.directories[i].parent() {
                Some(parent) => {
                    parents.push(parent);
                    proof {
                        assert(models(parents@) =~= models(before).push(parent@));
                        assert forall|directory: PathModel| #[trigger]
                            models(parents@).contains(directory) <==> (models(before).contains(
                            directory,
                        ) || directory == parent@) by {
                            lemma_push_contains(models(before), parent@, directory);
                        }
                    }
                },
                None => {},
            }
            i += 1;
        }
        let mut i: usize = 0;
        while i < self.merge.copied
            invariant
                i <= self.merge.copied <= self.merge.plan.files@.len(),
                forall|directory: PathModel| #[trigger]
                    models(parents@).contains(directory) <==> ((exists|k: int|
                        0 <= k < self.merge.made && (
                        #[trigger] self.merge.plan.directories@[k])@.parent() == Some(directory))
                        || (exists|k: int|
                        0 <= k < i && (
                        #[trigger] self.merge.plan.files@[k]).destination@.parent() == Some(
                            directory,
                        ))),
            decreases self.merge.copied - i,
        {
            let ghost before = parents@;
            match self.merge.plan.files[i].destination.parent() {
                Some(parent) => {
                    parents.push(parent);
                    proof {
                        assert(models(parents@) =~= models(before).push(parent@));
                        assert forall|directory: PathModel| #[trigger]
                            models(parents@).contains(directory) <==> (models(before).contains(
                            directory,
                        ) || directory == parent@) by {
                            lemma_push_contains(models(before), parent@, directory);
                        }
                    }
                },
                None => {},
            }
            i += 1;
        }
        sorted_distinct(parents)
    }

    /// Whether `outcome` is what the merge comes to, given what is at the
    /// directories it made.
    pub open spec fn settles(
        self,
        found: Seq<Option<Metadata>>,
        outcome: MergeOutcome,
    ) -> bool {
        &&& outcome.stopped == self.stopped
        &&& outcome.dropped == self.merge.dropped
        &&& (outcome.undoable == (self.merge.undoable && forall|i: int|
            0 <= i < self.merge.made ==> #[trigger] found_at(found, i) is Some))
        &&& if outcome.undoable {
            &&& outcome.created@.len() == self.merge.made + self.merge.files@.len()
            &&& outcome.created@.skip(self.merge.made as int) == self.merge.files@
            &&& forall|i: int|
                0 <= i < self.merge.made ==> (#[trigger] outcome.created@[i]).describes(
                    self.merge.plan.directories@[i]@,
                    found_at(found, i).unwrap(),
                )
        } else {
            outcome.created@.len() == 0
        }
        &&& (self.merge.well_formed() && outcome.created@.len() > 0 ==> outcome.created@.len()
            < self.merge.snapshot_limit)
    }

    /// What is now at each directory the merge made.
    ///
    /// The new directories are described only now, once nothing further will
    /// be written into them. Writing a file into a directory moves that
    /// directory's time of last change, so recording it at creation time would
    /// leave undo comparing against an identity its own copying invalidated. A
    /// directory that cannot be described only loses undo; the merge itself
    /// stands.
    pub fn described(self, found: &Vec<Option<Metadata>>) -> (outcome: MergeOutcome)
        requires
            self.merge.made <= self.merge.plan.directories@.len(),
        ensures
            self.settles(found@, outcome),
    {
        let MergeFinish { merge, stopped } = self;
        let dropped = merge.dropped;
        if !merge.undoable {
            return MergeOutcome { created: Vec::new(), undoable: false, stopped, dropped };
        }
        let mut created: Vec<PathSnapshot> = Vec::new();
        let mut i: usize = 0;
        while i < merge.made
            invariant
                i <= merge.made <= merge.plan.directories@.len(),
                merge == self.merge,
                stopped == self.stopped,
                dropped == self.merge.dropped,
                created@.len() == i,
                forall|k: int| 0 <= k < i ==> #[trigger] found_at(found@, k) is Some,
                forall|k: int|
                    0 <= k < i ==> (#[trigger] created@[k]).describes(
                        merge.plan.directories@[k]@,
                        found_at(found@, k).unwrap(),
                    ),
            decreases merge.made - i,
        {
            let now = if i < found.len() { found[i] } else { None };
            assert(now == found_at(found@, i as int));
            match now {
                Some(metadata) => {
                    created.push(PathSnapshot::of(&merge.plan.directories[i], &metadata));
                },
                None => {
                    return MergeOutcome { created: Vec::new(), undoable: false, stopped, dropped };
                },
            }
            i += 1;
        }
        let ghost directories = created@;
        let mut files = merge.files;
        let ghost recorded = files@;
        created.append(&mut files);
        proof {
            assert(created@ =~= directories + recorded);
            assert(created@.skip(merge.made as int) =~= recorded);
            assert forall|k: int| 0 <= k < merge.made implies (#[trigger] created@[k]).describes(
                merge.plan.directories@[k]@,
                found_at(found@, k).unwrap(),
            ) by {
                assert(created@[k] == directories[k]);
            }
        }
        MergeOutcome { created, undoable: true, stopped, dropped }
    }
}

proof fn lemma_push_contains<T>(items: Seq<T>, added: T, item: T)
    ensures
        items.push(added).contains(item) <==> items.contains(item) || item == added,
{
    let all = items.push(added);
    if items.contains(item) {
        let i = choose|i: int| 0 <= i < items.len() && items[i] == item;
        assert(all[i] == item);
    }
    assert(all[items.len() as int] == added);
}

/// Taking back what a merge added.
#[derive(Debug)]
pub struct MergeRemoval {
    /// What is still to be removed, the next one last.
    pub left: Vec<PathSnapshot>,
    pub removed: Vec<PathBuf>,
}

impl MergeRemoval {
    /// Everything there was to remove, in the order it was added.
    pub open spec fn whole(self) -> Seq<PathModel> {
        snapshot_paths(self.left@) + models(self.removed@).reverse()
    }
}

/// What taking back a merge wants next.
#[derive(Debug)]
pub enum RemovalStep {
    /// Look at an item.
    Inspect(ItemWanted),
    /// Everything is gone.
    Removed(Vec<PathBuf>),
}

/// The removal waits to know what is at an item's path.
#[derive(Debug)]
pub struct ItemWanted {
    pub removal: MergeRemoval,
    pub item: PathSnapshot,
}

/// The removal waits for an item to be removed: a directory if `directory`.
#[derive(Debug)]
pub struct RemovalWanted {
    pub removal: MergeRemoval,
    pub path: PathBuf,
    pub directory: bool,
}

/// Remove exactly what a merge added.
///
/// The whole-tree validation a copy uses cannot work here: a merged directory
/// is full of entries that were already there, so re-walking it and comparing
/// against the record would always disagree. Each item is validated on its own
/// instead, the last added first, and anything that changed since is left
/// alone.
pub fn remove_merged_items(created: Vec<PathSnapshot>) -> (removal: MergeRemoval)
    ensures
        removal.left == created,
        removal.removed@.len() == 0,
        removal.whole() == snapshot_paths(created@),
{
    let removal = MergeRemoval { left: created, removed: Vec::new() };
    assert(removal.whole() =~= snapshot_paths(created@));
    removal
}

impl MergeRemoval {
    /// Whether this is what the removal wants next.
    pub open spec fn wants(self, step: RemovalStep) -> bool {
        match step {
            RemovalStep::Removed(removed) => self.left@.len() == 0 && removed == self.removed
                && models(removed@).reverse() == self.whole(),
            RemovalStep::Inspect(wanted) => self.left@.len() > 0 && wanted.item
                == self.left@.last() && wanted.removal.left@ == self.left@.drop_last()
                && wanted.removal.removed == self.removed,
        }
    }

    /// What the removal wants next.
    pub fn next(self) -> (step: RemovalStep)
        ensures
            self.wants(step),
    {
        let ghost whole = self.whole();
        let MergeRemoval { left, removed } = self;
        let mut left = left;
        match left.pop() {
            None => {
                assert(whole =~= models(removed@).reverse());
                RemovalStep::Removed(removed)
            },
            Some(item) => RemovalStep::Inspect(
                ItemWanted { removal: MergeRemoval { left, removed }, item },
            ),
        }
    }
}

/// Whether an item is what a merge left there. A directory's time of last
/// change moves whenever its contents change, including as a direct result of
/// removing its children, so only device and inode are compared.
pub open spec fn still_merged(item: PathSnapshot, found: Metadata) -> bool {
    if item.kind is Directory {
        found.key() == item.identity.key
    } else {
        found.identity() == item.identity
    }
}

/// Why an item cannot be taken back, if it cannot.
pub open spec fn take_back_refusal(item: PathSnapshot, found: Option<Metadata>) -> Option<
    Seq<char>,
> {
    match found {
        None => Some(about("Cannot undo: "@, item.path.text(), " is missing"@)),
        Some(metadata) => if !still_merged(item, metadata) {
            Some(about("Cannot undo: "@, item.path.text(), " changed or was replaced"@))
        } else {
            special_refusal(seq![item])
        },
    }
}

impl ItemWanted {
    /// What comes of what is at the item's path.
    pub open spec fn comes_to(
        self,
        found: Option<Metadata>,
        result: Result<RemovalWanted, PartialRemoval>,
    ) -> bool {
        match result {
            Ok(wanted) => take_back_refusal(self.item, found) is None && wanted.removal
                == self.removal && wanted.path == self.item.path && wanted.directory == (
            self.item.kind is Directory),
            Err(refused) => take_back_refusal(self.item, found) == Some(refused.error@)
                && refused.removed == self.removal.removed,
        }
    }

    /// What is at the item's path.
    pub fn found(self, found: Option<Metadata>) -> (result: Result<RemovalWanted, PartialRemoval>)
        ensures
            self.comes_to(found, result),
    {
        let metadata = match found {
            Some(metadata) => metadata,
            None => {
                return Err(
                    PartialRemoval {
                        removed: self.removal.removed,
                        error: message_about("Cannot undo: ", &self.item.path, " is missing"),
                    },
                );
            },
        };
        let identity = FileIdentity::of(&metadata);
        let matches = if self.item.kind == SnapshotKind::Directory {
            identity.key == self.item.identity.key
        } else {
            identity == self.item.identity
        };
        if !matches {
            return Err(
                PartialRemoval {
                    removed: self.removal.removed,
                    error: message_about(
                        "Cannot undo: ",
                        &self.item.path,
                        " changed or was replaced",
                    ),
                },
            );
        }
        let mut one: Vec<PathSnapshot> = Vec::new();
        one.push(self.item.clone());
        assert(one@ =~= seq![self.item]);
        match reject_special_entries(one.as_slice()) {
            Ok(_) => {},
            Err(error) => {
                return Err(PartialRemoval { removed: self.removal.removed, error });
            },
        }
        let directory = self.item.kind == SnapshotKind::Directory;
        Ok(RemovalWanted { removal: self.removal, path: self.item.path, directory })
    }
}

impl RemovalWanted {
    /// What comes of whether the item was removed.
    pub open spec fn settles(
        self,
        gone: bool,
        result: Result<MergeRemoval, PartialRemoval>,
    ) -> bool {
        match result {
            Ok(removal) => gone && removal.left == self.removal.left && removal.removed@
                == self.removal.removed@.push(self.path) && removal.whole() == snapshot_paths(
                self.removal.left@,
            ) + seq![self.path@] + models(self.removal.removed@).reverse(),
            Err(stopped) => !gone && stopped.removed == self.removal.removed && stopped.error@
                == located("Could not remove"@, self.path.text()),
        }
    }

    /// Whether the item was removed.
    pub fn removed(self, gone: bool) -> (result: Result<MergeRemoval, PartialRemoval>)
        ensures
            self.settles(gone, result),
    {
        let RemovalWanted { removal, path, .. } = self;
        if !gone {
            let error = at("Could not remove", &path);
            return Err(PartialRemoval { removed: removal.removed, error });
        }
        let MergeRemoval { left, removed } = removal;
        let ghost before = removed@;
        let mut removed = removed;
        removed.push(path);
        let removal = MergeRemoval { left, removed };
        assert(models(removed@).reverse() =~= seq![path@] + models(before).reverse());
        assert(removal.whole() =~= snapshot_paths(left@) + seq![path@] + models(before).reverse());
        Ok(removal)
    }
}

/// Whether what is at a path has the device and inode that were recorded.
pub open spec fn same_place(item: PathSnapshot, found: Metadata) -> bool {
    found.device == item.identity.key.device && found.inode == item.identity.key.inode
}

/// Whether what is at a path last changed when it was recorded to have.
pub open spec fn unchanged_since(item: PathSnapshot, found: Metadata) -> bool {
    found.changed_seconds == item.identity.changed_seconds && found.changed_nanoseconds
        == item.identity.changed_nanoseconds
}

/// Undoing a merge removes what it recorded and nothing else: a file or link
/// only where what is at its path has the device, inode and time of last
/// change that were recorded, a folder only where it is the recorded one.
/// Anything else that is there, a file that changed since included, stays.
pub proof fn lemma_undoing_a_merge_spares_what_changed(
    wanted: ItemWanted,
    found: Option<Metadata>,
    result: Result<RemovalWanted, PartialRemoval>,
)
    requires
        wanted.comes_to(found, result),
    ensures
        result matches Ok(removal) ==> removal.path == wanted.item.path && (found matches Some(now)
            && same_place(wanted.item, now) && (unchanged_since(wanted.item, now)
            || wanted.item.kind is Directory)),
        result matches Err(refused) ==> refused.removed == wanted.removal.removed,
        found is None ==> result is Err,
{
}

/// Undoing a merge goes on to remove whatever is still as it was recorded. A
/// folder may have changed: taking out what is in it changes it.
pub proof fn lemma_undoing_a_merge_removes_what_stayed(
    wanted: ItemWanted,
    now: Metadata,
    result: Result<RemovalWanted, PartialRemoval>,
)
    requires
        wanted.comes_to(Some(now), result),
        same_place(wanted.item, now),
        wanted.item.kind is Directory || unchanged_since(wanted.item, now),
        wanted.item.kind is Directory || wanted.item.kind is File || wanted.item.kind is Symlink,
    ensures
        result matches Ok(removal) && removal.path == wanted.item.path && removal.directory == (
        wanted.item.kind is Directory) && removal.removal == wanted.removal,
{
    lemma_special_refusal(seq![wanted.item]);
}

/// Whether taking back a merge went on by one item, told what is at its path.
pub open spec fn takes_back_one(
    disk: Map<PathModel, Metadata>,
    before: MergeRemoval,
    after: MergeRemoval,
    wanted: ItemWanted,
    removal: RemovalWanted,
) -> bool {
    &&& before.wants(RemovalStep::Inspect(wanted))
    &&& wanted.comes_to(
        if disk.dom().contains(wanted.item.path@) {
            Some(disk[wanted.item.path@])
        } else {
            None
        },
        Ok::<RemovalWanted, PartialRemoval>(removal),
    )
    &&& removal.settles(true, Ok::<MergeRemoval, PartialRemoval>(after))
}

/// Whether taking back a merge went on from one state to the next.
pub open spec fn takes_back_at(
    disk: Map<PathModel, Metadata>,
    run: Seq<MergeRemoval>,
    at: int,
) -> bool {
    exists|wanted: ItemWanted, removal: RemovalWanted| #[trigger]
        takes_back_one(disk, run[at], run[at + 1], wanted, removal)
}

/// Whether an item is still at its path as it was recorded, but for what may
/// have been put into a folder or taken out of it.
pub open spec fn stays(disk: Map<PathModel, Metadata>, item: PathSnapshot) -> bool {
    &&& disk.dom().contains(item.path@)
    &&& same_place(item, disk[item.path@])
    &&& item.kind is Directory || unchanged_since(item, disk[item.path@])
}

/// Whether a path is that of an item, counted from the last, that stayed.
pub open spec fn removes_at(
    disk: Map<PathModel, Metadata>,
    created: Seq<PathSnapshot>,
    path: PathBuf,
    i: int,
) -> bool {
    path == created[created.len() - 1 - i].path && stays(disk, created[created.len() - 1 - i])
}

/// However far taking back a merge has come, what it removed are the last
/// items that were recorded, the last one first, and each of them was still
/// the recorded one.
pub proof fn lemma_taking_back_a_merge(
    created: Seq<PathSnapshot>,
    disk: Map<PathModel, Metadata>,
    run: Seq<MergeRemoval>,
    at: int,
)
    requires
        0 <= at < run.len(),
        run[0].left@ == created,
        run[0].removed@.len() == 0,
        forall|i: int| 0 <= i < run.len() - 1 ==> #[trigger] takes_back_at(disk, run, i),
    ensures
        at <= created.len(),
        run[at].left@ == created.take(created.len() - at),
        run[at].removed@.len() == at,
        forall|i: int|
            0 <= i < at ==> removes_at(disk, created, #[trigger] run[at].removed@[i], i),
    decreases at,
{
    if at == 0 {
        assert(created.take(created.len() as int) =~= created);
    } else {
        lemma_taking_back_a_merge(created, disk, run, at - 1);
        let before = run[at - 1];
        let after = run[at];
        assert(takes_back_at(disk, run, at - 1));
        let (wanted, removal) = choose|wanted: ItemWanted, removal: RemovalWanted| #[trigger]
            takes_back_one(disk, before, after, wanted, removal);
        assert(before.left@.drop_last() =~= created.take(created.len() - at));
        assert(wanted.item == created[created.len() - at]);
        assert forall|i: int| 0 <= i < at implies removes_at(
            disk,
            created,
            #[trigger] run[at].removed@[i],
            i,
        ) by {
            if i < at - 1 {
                assert(after.removed@[i] == before.removed@[i]);
            }
        }
    }
}

} // verus!
