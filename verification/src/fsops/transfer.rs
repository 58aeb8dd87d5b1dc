//! Copying or moving a set of sources into a destination directory, accounting
//! for every one of them exactly once.

use vstd::multiset::Multiset;
use vstd::prelude::*;

use crate::fsops::copy::CopiedItem;
use crate::fsops::dropped::Dropped;
use crate::fsops::merge::{MergeOutcome, MergeStop};
use crate::fsops::journal::{
    MoveRecord, OperationRecord, PathSnapshot, ReplacedItem, UNDO_SNAPSHOT_LIMIT,
};
use crate::fsops::moving::{MoveFailure, Moved};
use crate::fsops::plan::SourcePlan;
use crate::fsops::{DirectoryChanges, PathFailure, TransferProgress, TransferProgressSnapshot};
use crate::path::PathBuf;
use crate::text::{decimal, push_decimal};

verus! {

#[derive(Clone, Copy, Debug, PartialEq, Eq, Structural)]
pub enum TransferMode {
    Copy,
    Move,
}

impl TransferMode {
    pub open spec fn called(self) -> Seq<char> {
        match self {
            TransferMode::Copy => "copy"@,
            TransferMode::Move => "move"@,
        }
    }

    pub fn verb(self) -> (verb: &'static str)
        ensures
            verb@ == self.called(),
    {
        match self {
            TransferMode::Copy => "copy",
            TransferMode::Move => "move",
        }
    }
}

/// How many bytes of replaced data one operation may hold aside for undo.
///
/// Quarantining what a replace displaced is what makes replacement reversible,
/// but it is real disk held for as long as the record lives. Past the budget
/// the operation still happens, it simply stops being undoable and says so.
pub const REPLACEMENT_UNDO_BYTE_LIMIT: u64 = 1024 * 1024 * 1024;

/// What a transfer may spend on undo bookkeeping.
///
/// Both limits follow the same rule: past the budget the transfer still
/// happens, it just stops being undoable and says so.
#[derive(Clone, Copy, Debug, PartialEq, Eq, Structural)]
pub struct TransferBudget {
    pub undo_snapshot_limit: usize,
    pub replacement_undo_byte_limit: u64,
}

impl Default for TransferBudget {
    fn default() -> (budget: TransferBudget)
        ensures
            budget == (TransferBudget {
                undo_snapshot_limit: UNDO_SNAPSHOT_LIMIT,
                replacement_undo_byte_limit: REPLACEMENT_UNDO_BYTE_LIMIT,
            }),
    {
        TransferBudget {
            undo_snapshot_limit: UNDO_SNAPSHOT_LIMIT,
            replacement_undo_byte_limit: REPLACEMENT_UNDO_BYTE_LIMIT,
        }
    }
}

/// One source that could not be transferred, and why.
pub type TransferFailure = PathFailure;

/// One source that reached one destination. Recorded exactly rather than
/// reconstructed from file names.
#[derive(Debug)]
pub struct CompletedTransfer {
    pub source: PathBuf,
    pub destination: PathBuf,
}

/// The result of a transfer, accounting for every requested source exactly
/// once across `completed`, `skipped`, `failures`, `already_in_place`, and
/// `cancelled`.
#[derive(Debug)]
pub struct TransferOutcome {
    pub operation: Option<OperationRecord>,
    pub completed: Vec<CompletedTransfer>,
    pub failures: Vec<PathFailure>,
    /// Sources the user declined to transfer because their destination was
    /// occupied.
    pub skipped: Vec<PathBuf>,
    /// Sources that were already where they were asked to go.
    pub already_in_place: Vec<PathBuf>,
    /// Sources never attempted, because the operation was cancelled first.
    pub cancelled: Vec<PathBuf>,
    pub undo_unavailable: bool,
    /// Whether a source that failed left something changed on the disk.
    pub touched: bool,
    /// What the destination could not keep of what arrived.
    pub dropped: Dropped,
}

/// Where completed transfers came from.
pub open spec fn completed_from(completed: Seq<CompletedTransfer>) -> Seq<PathBuf> {
    completed.map_values(|transfer: CompletedTransfer| transfer.source)
}

/// Where completed transfers went.
pub open spec fn completed_to(completed: Seq<CompletedTransfer>) -> Seq<PathBuf> {
    completed.map_values(|transfer: CompletedTransfer| transfer.destination)
}

/// What failed.
pub open spec fn failed_paths(failures: Seq<PathFailure>) -> Seq<PathBuf> {
    failures.map_values(|failure: PathFailure| failure.path)
}

impl TransferOutcome {
    /// How many sources have a state.
    pub open spec fn count(self) -> nat {
        self.completed@.len() + self.failures@.len() + self.skipped@.len()
            + self.already_in_place@.len() + self.cancelled@.len()
    }

    /// Every source that has a state.
    pub open spec fn sources(self) -> Multiset<PathBuf> {
        completed_from(self.completed@).to_multiset().add(
            failed_paths(self.failures@).to_multiset(),
        ).add(self.skipped@.to_multiset()).add(self.already_in_place@.to_multiset()).add(
            self.cancelled@.to_multiset(),
        )
    }

    /// Every requested source, in the state it ended in.
    pub fn accounted(&self) -> (count: usize)
        requires
            self.count() <= usize::MAX,
        ensures
            count == self.count(),
    {
        self.completed.len() + self.failures.len() + self.skipped.len()
            + self.already_in_place.len() + self.cancelled.len()
    }

    pub fn completed_destinations(&self) -> (paths: Vec<PathBuf>)
        ensures
            paths@ == completed_to(self.completed@),
    {
        let mut paths: Vec<PathBuf> = Vec::new();
        let mut i: usize = 0;
        while i < self.completed.len()
            invariant
                i <= self.completed.len(),
                paths@ == completed_to(self.completed@).take(i as int),
            decreases self.completed.len() - i,
        {
            paths.push(self.completed[i].destination.clone());
            assert(completed_to(self.completed@).take(i + 1) =~= completed_to(
                self.completed@,
            ).take(i as int).push(self.completed@[i as int].destination));
            i += 1;
        }
        assert(completed_to(self.completed@).take(i as int) =~= completed_to(self.completed@));
        paths
    }

    pub fn completed_sources(&self) -> (paths: Vec<PathBuf>)
        ensures
            paths@ == completed_from(self.completed@),
    {
        let mut paths: Vec<PathBuf> = Vec::new();
        let mut i: usize = 0;
        while i < self.completed.len()
            invariant
                i <= self.completed.len(),
                paths@ == completed_from(self.completed@).take(i as int),
            decreases self.completed.len() - i,
        {
            paths.push(self.completed[i].source.clone());
            assert(completed_from(self.completed@).take(i + 1) =~= completed_from(
                self.completed@,
            ).take(i as int).push(self.completed@[i as int].source));
            i += 1;
        }
        assert(completed_from(self.completed@).take(i as int) =~= completed_from(self.completed@));
        paths
    }

    /// The visible effect of the transfer, taken from the exact recorded
    /// transfers rather than from an undo record that may cover only a subset.
    pub fn changes(&self, mode: TransferMode) -> (changes: DirectoryChanges)
        ensures
            changes.removed@ == (if mode is Move {
                completed_from(self.completed@)
            } else {
                Seq::empty()
            }),
            changes.upserted@ == completed_to(self.completed@),
    {
        let removed: Vec<PathBuf> = match mode {
            TransferMode::Move => self.completed_sources(),
            TransferMode::Copy => Vec::new(),
        };
        DirectoryChanges { removed, upserted: self.completed_destinations() }
    }

    /// One sentence about what failed.
    pub open spec fn failure_text(self) -> Seq<char> {
        if self.failures@.len() == 0 {
            Seq::empty()
        } else if self.failures@.len() == 1 {
            self.failures@[0].message@
        } else {
            decimal(self.failures@.len()) + " items failed; first error: "@
                + self.failures@[0].message@
        }
    }

    pub fn summarize_failures(&self) -> (summary: String)
        ensures
            summary@ == self.failure_text(),
    {
        if self.failures.len() == 0 {
            return String::new();
        }
        if self.failures.len() == 1 {
            return self.failures[0].message.clone();
        }
        let mut summary = String::new();
        push_decimal(&mut summary, self.failures.len() as u64);
        summary.append(" items failed; first error: ");
        summary.append(self.failures[0].message.as_str());
        assert(summary@ =~= self.failure_text());
        summary
    }
}

/// The visible effect of a transfer.
pub fn transfer_changes(outcome: &TransferOutcome, mode: TransferMode) -> (changes:
    DirectoryChanges)
    ensures
        changes.removed@ == (if mode is Move {
            completed_from(outcome.completed@)
        } else {
            Seq::empty()
        }),
        changes.upserted@ == completed_to(outcome.completed@),
{
    outcome.changes(mode)
}

/// Undo bookkeeping for one kind of work in a transfer, up to a shared budget.
///
/// Past the budget the work still happens; the ledger simply empties itself
/// and stops accepting entries, and the outcome reports undo as unavailable.
#[derive(Debug)]
pub struct Ledger {
    entries: Vec<PathSnapshot>,
    unavailable: bool,
}

/// What a ledger holds.
#[verifier::ext_equal]
pub struct LedgerModel {
    pub entries: Seq<PathSnapshot>,
    pub unavailable: bool,
}

impl LedgerModel {
    pub open spec fn fresh() -> LedgerModel {
        LedgerModel { entries: Seq::empty(), unavailable: false }
    }

    pub open spec fn given_up() -> LedgerModel {
        LedgerModel { entries: Seq::empty(), unavailable: true }
    }

    pub open spec fn extended(self, entries: Seq<PathSnapshot>) -> LedgerModel {
        if self.unavailable {
            self
        } else {
            LedgerModel { entries: self.entries + entries, ..self }
        }
    }
}

impl View for Ledger {
    type V = LedgerModel;

    closed spec fn view(&self) -> LedgerModel {
        LedgerModel { entries: self.entries@, unavailable: self.unavailable }
    }
}

impl Ledger {
    /// A ledger that was given up holds nothing.
    #[verifier::type_invariant]
    pub open spec fn well_formed(self) -> bool {
        self@.unavailable ==> self@.entries.len() == 0
    }

    pub fn new() -> (ledger: Ledger)
        ensures
            ledger@ == LedgerModel::fresh(),
    {
        Ledger { entries: Vec::new(), unavailable: false }
    }

    pub fn give_up(&mut self)
        ensures
            final(self)@ == LedgerModel::given_up(),
    {
        self.entries = Vec::new();
        self.unavailable = true;
        assert(self@.entries =~= Seq::empty());
    }

    pub fn extend(&mut self, entries: Vec<PathSnapshot>)
        ensures
            final(self)@ == old(self)@.extended(entries@),
    {
        proof {
            use_type_invariant(&*self);
        }
        if !self.unavailable {
            let mut held: Vec<PathSnapshot> = Vec::new();
            std::mem::swap(&mut self.entries, &mut held);
            let mut entries = entries;
            held.append(&mut entries);
            self.entries = held;
        }
    }

    fn len(&self) -> (len: usize)
        ensures
            len == self@.entries.len(),
    {
        self.entries.len()
    }
}

/// A transfer in progress, as far as its results show it.
#[verifier::ext_equal]
pub struct TransferModel {
    pub sources: Seq<PathBuf>,
    pub destination: PathBuf,
    pub mode: TransferMode,
    pub interactive: bool,
    pub budget: TransferBudget,
    /// How many of the sources have a state.
    pub index: nat,
    pub completed: Seq<CompletedTransfer>,
    pub failures: Seq<PathFailure>,
    pub skipped: Seq<PathBuf>,
    pub already_in_place: Seq<PathBuf>,
    pub cancelled: Seq<PathBuf>,
    pub copied_sources: LedgerModel,
    pub copied_created: LedgerModel,
    pub merged_created: LedgerModel,
    pub moved: Seq<MoveRecord>,
    pub moved_snapshots: nat,
    pub move_undo_unavailable: bool,
    pub replaced: Seq<ReplacedItem>,
    pub replaced_bytes: u64,
    pub replacement_undo_unavailable: bool,
    pub touched: bool,
    pub dropped: Dropped,
}

/// Whether some sources are the last ones of all.
pub open spec fn suffix_of(some: Seq<PathBuf>, all: Seq<PathBuf>) -> bool {
    exists|k: int| 0 <= k <= all.len() && some == #[trigger] all.skip(k)
}

impl TransferModel {
    /// The source whose turn it is.
    pub open spec fn current(self) -> PathBuf {
        self.sources[self.index as int]
    }

    /// Every source that has a state.
    pub open spec fn accounted_for(self) -> Multiset<PathBuf> {
        completed_from(self.completed).to_multiset().add(
            failed_paths(self.failures).to_multiset(),
        ).add(self.skipped.to_multiset()).add(self.already_in_place.to_multiset()).add(
            self.cancelled.to_multiset(),
        )
    }

    /// Whether the sources that have a state are exactly the first `index` of
    /// them, each once, and those that were never attempted come last.
    pub open spec fn balanced(self) -> bool {
        &&& self.index < self.sources.len() ==> self.cancelled.len() == 0
        &&& suffix_of(self.cancelled, self.sources)
        &&& self.index <= self.sources.len()
        &&& self.accounted_for() == self.sources.take(self.index as int).to_multiset()
        &&& self.completed.len() + self.failures.len() + self.skipped.len()
            + self.already_in_place.len() + self.cancelled.len() == self.index
    }

    /// Whether what is held aside can come back: nothing is held once the
    /// copies that displaced it can no longer be taken back, and at most one
    /// thing per completed transfer.
    pub open spec fn restorable(self) -> bool {
        &&& self.copied_created.unavailable == self.copied_sources.unavailable
        &&& self.copied_created.unavailable ==> self.mode is Copy && self.replaced.len() == 0
        &&& self.copied_created.unavailable ==> self.copied_created.entries.len() == 0
        &&& self.copied_sources.unavailable ==> self.copied_sources.entries.len() == 0
        &&& self.merged_created.unavailable ==> self.merged_created.entries.len() == 0
    }

    /// How many snapshots the copies and merges of this transfer may still
    /// record.
    pub open spec fn snapshots_left(self) -> nat {
        let used = self.copied_sources.entries.len() + self.copied_created.entries.len()
            + self.merged_created.entries.len();
        if used < self.budget.undo_snapshot_limit {
            (self.budget.undo_snapshot_limit - used) as nat
        } else {
            0
        }
    }

    /// How many snapshots a merge may record.
    pub open spec fn merge_allowance(self) -> nat {
        if self.merged_created.unavailable {
            0
        } else {
            self.snapshots_left()
        }
    }

    /// How many snapshots of its sources, and how many of its output, a copy
    /// may record.
    pub open spec fn copy_allowance(self) -> nat {
        if self.copied_created.unavailable {
            0
        } else {
            self.snapshots_left() / 2
        }
    }

    /// How many snapshots a move may record.
    pub open spec fn move_allowance(self) -> nat {
        if self.move_undo_unavailable || self.moved_snapshots
            >= self.budget.undo_snapshot_limit {
            0
        } else {
            (self.budget.undo_snapshot_limit - self.moved_snapshots) as nat
        }
    }

    /// Whether the record stays within the budget of one operation.
    pub open spec fn within_budget(self) -> bool {
        self.copied_sources.entries.len() + self.copied_created.entries.len()
            + self.merged_created.entries.len() <= self.budget.undo_snapshot_limit
    }

    /// Whether this asks for a plan for the source whose turn it is, under its
    /// own name in the destination.
    pub open spec fn plans(self, wanted: PlanWanted) -> bool {
        &&& self.index < self.sources.len()
        &&& wanted.transfer() == self
        &&& self.current()@.file_name() is Some
        &&& wanted.to()@ == self.destination@.join(self.current()@.file_name().unwrap())
    }

    /// The current source failed.
    pub open spec fn failing(self, failure: PathFailure) -> TransferModel {
        TransferModel { index: self.index + 1, failures: self.failures.push(failure), ..self }
    }

    /// The current source failed, but not before it had changed the disk.
    pub open spec fn failing_late(self, failure: PathFailure) -> TransferModel {
        TransferModel { touched: true, ..self.failing(failure) }
    }

    /// The destination could not keep everything.
    pub open spec fn dropping(self, lost: Dropped) -> TransferModel {
        TransferModel { dropped: self.dropped.with(lost), ..self }
    }

    /// The current source arrived.
    pub open spec fn completing(self, destination: PathBuf) -> TransferModel {
        TransferModel {
            index: self.index + 1,
            completed: self.completed.push(
                CompletedTransfer { source: self.current(), destination },
            ),
            ..self
        }
    }

    /// The current source was declined.
    pub open spec fn skipping(self) -> TransferModel {
        TransferModel { index: self.index + 1, skipped: self.skipped.push(self.current()), ..self }
    }

    /// The current source needs nothing.
    pub open spec fn staying(self) -> TransferModel {
        TransferModel {
            index: self.index + 1,
            already_in_place: self.already_in_place.push(self.current()),
            ..self
        }
    }

    /// Nothing from the current source on is attempted.
    pub open spec fn cancelling(self) -> TransferModel {
        TransferModel {
            index: self.sources.len(),
            cancelled: self.cancelled + self.sources.skip(self.index as int),
            ..self
        }
    }

    /// The record of an item that was displaced by a transfer that can be
    /// taken back: held aside within the byte budget, released past it.
    pub open spec fn holding(self, item: ReplacedItem, bytes: u64) -> TransferModel {
        if self.replaced_bytes + bytes > self.budget.replacement_undo_byte_limit {
            TransferModel { replacement_undo_unavailable: true, ..self }
        } else {
            TransferModel {
                replaced_bytes: (self.replaced_bytes + bytes) as u64,
                replaced: self.replaced.push(item),
                ..self
            }
        }
    }

    /// The copy of the current source was recorded, or could not be.
    pub open spec fn copying(self, copied: CopiedItem) -> TransferModel {
        if copied.overflowed || !copied.undoable {
            TransferModel {
                copied_sources: LedgerModel::given_up(),
                copied_created: LedgerModel::given_up(),
                replaced: Seq::empty(),
                ..self
            }
        } else {
            TransferModel {
                copied_sources: self.copied_sources.extended(copied.sources@),
                copied_created: self.copied_created.extended(copied.created@),
                ..self
            }
        }
    }

    /// What was displaced by a copy that has succeeded.
    pub open spec fn settling_copy(
        self,
        copied: CopiedItem,
        displaced: Option<ReplacedItem>,
        bytes: u64,
    ) -> TransferModel {
        let recorded = self.copying(copied);
        match displaced {
            Some(item) if !recorded.copied_created.unavailable => recorded.holding(item, bytes),
            _ => recorded,
        }
    }

    /// What has to be erased after a copy that has succeeded, because nothing
    /// can put it back any more.
    pub open spec fn released_by_copy(
        self,
        copied: CopiedItem,
        displaced: Option<ReplacedItem>,
        bytes: u64,
    ) -> Seq<ReplacedItem> {
        let recorded = self.copying(copied);
        let lost = if copied.overflowed || !copied.undoable {
            self.replaced
        } else {
            Seq::empty()
        };
        match displaced {
            None => lost,
            Some(item) => if recorded.copied_created.unavailable || recorded.replaced_bytes
                + bytes > recorded.budget.replacement_undo_byte_limit {
                lost.push(item)
            } else {
                lost
            },
        }
    }

    /// The move of the current source was recorded, or could not be.
    pub open spec fn moving(self, record: Option<MoveRecord>) -> TransferModel {
        match record {
            Some(record) => TransferModel {
                moved_snapshots: if self.moved_snapshots + record.expected_state@.len()
                    > usize::MAX {
                    usize::MAX as nat
                } else {
                    self.moved_snapshots + record.expected_state@.len()
                },
                moved: self.moved.push(record),
                ..self
            },
            None => TransferModel { move_undo_unavailable: true, ..self },
        }
    }

    /// What was displaced by a move that has succeeded.
    pub open spec fn settling_move(
        self,
        record: Option<MoveRecord>,
        displaced: Option<ReplacedItem>,
        bytes: u64,
    ) -> TransferModel {
        let recorded = self.moving(record);
        match displaced {
            Some(item) if record is Some => recorded.holding(item, bytes),
            _ => recorded,
        }
    }

    /// What has to be erased after a move that has succeeded, because nothing
    /// can put it back any more.
    pub open spec fn released_by_move(
        self,
        record: Option<MoveRecord>,
        displaced: Option<ReplacedItem>,
        bytes: u64,
    ) -> Seq<ReplacedItem> {
        match displaced {
            None => Seq::empty(),
            Some(item) => if record is None || self.replaced_bytes + bytes
                > self.budget.replacement_undo_byte_limit {
                seq![item]
            } else {
                Seq::empty()
            },
        }
    }

    /// What a merge added was recorded, or could not be.
    pub open spec fn merging(self, outcome: MergeOutcome) -> TransferModel {
        TransferModel {
            merged_created: if outcome.undoable {
                self.merged_created.extended(outcome.created@)
            } else {
                LedgerModel::given_up()
            },
            touched: self.touched || outcome.created@.len() > 0 || !outcome.undoable,
            dropped: self.dropped.with(outcome.dropped),
            ..self
        }
    }

    /// Whether some of the work cannot be taken back.
    pub open spec fn undo_unavailable(self) -> bool {
        self.copied_created.unavailable || self.merged_created.unavailable
            || self.move_undo_unavailable || self.replacement_undo_unavailable
    }

    /// Whether there is anything to take back.
    pub open spec fn has_record(self) -> bool {
        match self.mode {
            TransferMode::Copy => self.copied_created.entries.len() > 0
                || self.merged_created.entries.len() > 0,
            TransferMode::Move => self.moved.len() > 0,
        }
    }
}

/// What a transfer keeps about itself.
#[derive(Debug)]
struct Books {
    sources: Vec<PathBuf>,
    destination: PathBuf,
    mode: TransferMode,
    interactive: bool,
    budget: TransferBudget,
    index: usize,
    completed: Vec<CompletedTransfer>,
    failures: Vec<PathFailure>,
    skipped: Vec<PathBuf>,
    already_in_place: Vec<PathBuf>,
    cancelled: Vec<PathBuf>,
    copied_sources: Ledger,
    copied_created: Ledger,
    merged_created: Ledger,
    moved: Vec<MoveRecord>,
    moved_snapshots: usize,
    move_undo_unavailable: bool,
    replaced: Vec<ReplacedItem>,
    replaced_bytes: u64,
    replacement_undo_unavailable: bool,
    touched: bool,
    dropped: Dropped,
}

impl View for Books {
    type V = TransferModel;

    closed spec fn view(&self) -> TransferModel {
        TransferModel {
            sources: self.sources@,
            destination: self.destination,
            mode: self.mode,
            interactive: self.interactive,
            budget: self.budget,
            index: self.index as nat,
            completed: self.completed@,
            failures: self.failures@,
            skipped: self.skipped@,
            already_in_place: self.already_in_place@,
            cancelled: self.cancelled@,
            copied_sources: self.copied_sources@,
            copied_created: self.copied_created@,
            merged_created: self.merged_created@,
            moved: self.moved@,
            moved_snapshots: self.moved_snapshots as nat,
            move_undo_unavailable: self.move_undo_unavailable,
            replaced: self.replaced@,
            replaced_bytes: self.replaced_bytes,
            replacement_undo_unavailable: self.replacement_undo_unavailable,
            touched: self.touched,
            dropped: self.dropped,
        }
    }
}

/// Giving the current source a state keeps the books balanced.
proof fn lemma_step_stays_balanced(before: TransferModel)
    requires
        before.balanced(),
        before.index < before.sources.len(),
    ensures
        before.skipping().balanced(),
        before.staying().balanced(),
        before.cancelling().balanced(),
        forall|failure: PathFailure|
            failure.path == before.current() ==> (#[trigger] before.failing(failure)).balanced(),
        forall|failure: PathFailure|
            failure.path == before.current() ==> (#[trigger] before.failing_late(
                failure,
            )).balanced(),
        forall|destination: PathBuf| (#[trigger] before.completing(destination)).balanced(),
{
    broadcast use vstd::seq_lib::group_to_multiset_ensures;

    let index = before.index as int;
    let source = before.current();
    let seen = before.sources.take(index);
    assert(before.sources.take(index + 1) =~= seen.push(source));
    assert(before.sources.take(index + 1).to_multiset() =~= seen.to_multiset().insert(source));
    assert(before.skipping().accounted_for() =~= before.accounted_for().insert(source));
    assert(before.staying().accounted_for() =~= before.accounted_for().insert(source));
    assert forall|failure: PathFailure| failure.path == source implies (
    #[trigger] before.failing(failure)).balanced() by {
        assert(failed_paths(before.failures.push(failure)) =~= failed_paths(before.failures).push(
            source,
        ));
        assert(before.failing(failure).accounted_for() =~= before.accounted_for().insert(source));
    }
    assert forall|failure: PathFailure| failure.path == source implies (
    #[trigger] before.failing_late(failure)).balanced() by {
        assert(before.failing(failure).balanced());
        assert(before.failing_late(failure).accounted_for() == before.failing(
            failure,
        ).accounted_for());
    }
    assert forall|destination: PathBuf| (#[trigger] before.completing(destination)).balanced() by {
        let arrived = CompletedTransfer { source, destination };
        assert(completed_from(before.completed.push(arrived)) =~= completed_from(
            before.completed,
        ).push(source));
        assert(before.completing(destination).accounted_for() =~= before.accounted_for().insert(
            source,
        ));
    }
    let rest = before.sources.skip(index);
    assert(before.cancelled + rest =~= rest);
    assert(seen + rest =~= before.sources);
    assert(before.sources.take(before.sources.len() as int) =~= before.sources);
    vstd::seq_lib::lemma_multiset_commutative(seen, rest);
    vstd::seq_lib::lemma_multiset_commutative(before.cancelled, rest);
    assert(before.cancelling().accounted_for() =~= before.accounted_for().add(rest.to_multiset()));
}

/// One transfer, in progress.
#[derive(Debug)]
pub struct Transfer {
    books: Books,
}

impl View for Transfer {
    type V = TransferModel;

    closed spec fn view(&self) -> TransferModel {
        self.books@
    }
}

/// What a transfer wants next.
#[derive(Debug)]
pub enum TransferStep {
    /// Plan where a source goes.
    Plan(PlanWanted),
    /// Go on.
    Next(Transfer),
    /// Every source has a state.
    Finished(FinishedTransfer),
}

/// A transfer that is over, and what has to be erased because no record
/// carries it.
#[derive(Debug)]
pub struct FinishedTransfer {
    pub outcome: TransferOutcome,
    pub release: Vec<ReplacedItem>,
}

/// What a transfer wants once a source is planned.
#[derive(Debug)]
pub enum WorkStep {
    /// Go on with the next source.
    Next(Transfer),
    /// Move aside what is at the target.
    Quarantine(QuarantineWanted),
    /// Fold the source into the directory at the target.
    Merge(MergeWanted),
    /// Copy the source to the target.
    Copy(CopyWanted),
    /// Move the source to the target.
    Move(MoveWanted),
}

/// What a transfer wants after a source has failed to arrive.
#[derive(Debug)]
pub enum FailStep {
    /// Go on with the next source.
    Next(Transfer),
    /// Put back what was displaced.
    Restore(RestoreWanted),
}

/// A source to plan.
#[derive(Debug)]
pub struct PlanWanted {
    books: Books,
    target: PathBuf,
}

/// A target whose occupant has to be moved aside.
#[derive(Debug)]
pub struct QuarantineWanted {
    books: Books,
    target: PathBuf,
}

/// A source to fold into a directory.
#[derive(Debug)]
pub struct MergeWanted {
    books: Books,
    target: PathBuf,
}

/// A source to copy.
#[derive(Debug)]
pub struct CopyWanted {
    books: Books,
    target: PathBuf,
    displaced: Option<ReplacedItem>,
}

/// A source to move.
#[derive(Debug)]
pub struct MoveWanted {
    books: Books,
    target: PathBuf,
    displaced: Option<ReplacedItem>,
}

/// A displaced item to put back.
#[derive(Debug)]
pub struct RestoreWanted {
    books: Books,
    error: String,
    displaced: ReplacedItem,
}

/// Whether the books are in order and a source is left.
pub open spec fn ready(transfer: TransferModel) -> bool {
    transfer.balanced() && transfer.restorable() && transfer.index < transfer.sources.len()
}

impl PlanWanted {
    pub closed spec fn transfer(self) -> TransferModel {
        self.books@
    }

    pub closed spec fn to(self) -> PathBuf {
        self.target
    }

    #[verifier::type_invariant]
    spec fn well_formed(self) -> bool {
        ready(self.books@)
    }

    /// The source to plan.
    pub fn source(&self) -> (source: &PathBuf)
        ensures
            *source == self.transfer().current(),
    {
        proof {
            use_type_invariant(self);
        }
        &self.books.sources[self.books.index]
    }

    /// Where it would go if nothing were there.
    pub fn target(&self) -> (target: &PathBuf)
        ensures
            *target == self.to(),
    {
        &self.target
    }

    /// Whether there is someone to ask about what is there.
    pub fn interactive(&self) -> (interactive: bool)
        ensures
            interactive == self.transfer().interactive,
    {
        self.books.interactive
    }

    /// The destination directory.
    pub fn destination(&self) -> (destination: &PathBuf)
        ensures
            *destination == self.transfer().destination,
    {
        &self.books.destination
    }

    pub fn mode(&self) -> (mode: TransferMode)
        ensures
            mode == self.transfer().mode,
    {
        self.books.mode
    }
}

impl QuarantineWanted {
    pub closed spec fn transfer(self) -> TransferModel {
        self.books@
    }

    pub closed spec fn to(self) -> PathBuf {
        self.target
    }

    #[verifier::type_invariant]
    spec fn well_formed(self) -> bool {
        ready(self.books@)
    }

    /// What has to be moved aside.
    pub fn target(&self) -> (target: &PathBuf)
        ensures
            *target == self.to(),
    {
        &self.target
    }
}

impl MergeWanted {
    pub closed spec fn transfer(self) -> TransferModel {
        self.books@
    }

    pub closed spec fn to(self) -> PathBuf {
        self.target
    }

    #[verifier::type_invariant]
    spec fn well_formed(self) -> bool {
        ready(self.books@)
    }

    pub fn source(&self) -> (source: &PathBuf)
        ensures
            *source == self.transfer().current(),
    {
        proof {
            use_type_invariant(self);
        }
        &self.books.sources[self.books.index]
    }

    pub fn target(&self) -> (target: &PathBuf)
        ensures
            *target == self.to(),
    {
        &self.target
    }

    /// How many snapshots the merge may record.
    pub fn limit(&self) -> (limit: usize)
        ensures
            limit == self.transfer().merge_allowance(),
    {
        if self.books.merged_created.unavailable {
            0
        } else {
            self.books.snapshots_left()
        }
    }
}

impl CopyWanted {
    pub closed spec fn transfer(self) -> TransferModel {
        self.books@
    }

    pub closed spec fn to(self) -> PathBuf {
        self.target
    }

    /// What was moved aside for it.
    pub closed spec fn aside(self) -> Option<ReplacedItem> {
        self.displaced
    }

    #[verifier::type_invariant]
    spec fn well_formed(self) -> bool {
        ready(self.books@) && self.books@.mode is Copy
    }

    pub fn source(&self) -> (source: &PathBuf)
        ensures
            *source == self.transfer().current(),
    {
        proof {
            use_type_invariant(self);
        }
        &self.books.sources[self.books.index]
    }

    pub fn target(&self) -> (target: &PathBuf)
        ensures
            *target == self.to(),
    {
        &self.target
    }

    /// What was moved aside for it.
    pub fn displaced(&self) -> (item: Option<&ReplacedItem>)
        ensures
            match item {
                Some(item) => self.aside() == Some(*item),
                None => self.aside() is None,
            },
    {
        self.displaced.as_ref()
    }

    /// How many snapshots of its sources, and how many of its output, the copy
    /// may record.
    pub fn limit(&self) -> (limit: usize)
        ensures
            limit == self.transfer().copy_allowance(),
    {
        if self.books.copied_created.unavailable {
            0
        } else {
            self.books.snapshots_left() / 2
        }
    }
}

impl MoveWanted {
    pub closed spec fn transfer(self) -> TransferModel {
        self.books@
    }

    pub closed spec fn to(self) -> PathBuf {
        self.target
    }

    /// What was moved aside for it.
    pub closed spec fn aside(self) -> Option<ReplacedItem> {
        self.displaced
    }

    #[verifier::type_invariant]
    spec fn well_formed(self) -> bool {
        ready(self.books@) && self.books@.mode is Move
    }

    pub fn source(&self) -> (source: &PathBuf)
        ensures
            *source == self.transfer().current(),
    {
        proof {
            use_type_invariant(self);
        }
        &self.books.sources[self.books.index]
    }

    pub fn target(&self) -> (target: &PathBuf)
        ensures
            *target == self.to(),
    {
        &self.target
    }

    /// What was moved aside for it.
    pub fn displaced(&self) -> (item: Option<&ReplacedItem>)
        ensures
            match item {
                Some(item) => self.aside() == Some(*item),
                None => self.aside() is None,
            },
    {
        self.displaced.as_ref()
    }

    /// How many snapshots the move may record.
    pub fn limit(&self) -> (limit: usize)
        ensures
            limit == self.transfer().move_allowance(),
    {
        if self.books.move_undo_unavailable || self.books.moved_snapshots
            >= self.books.budget.undo_snapshot_limit {
            0
        } else {
            self.books.budget.undo_snapshot_limit - self.books.moved_snapshots
        }
    }
}

impl RestoreWanted {
    pub closed spec fn transfer(self) -> TransferModel {
        self.books@
    }

    pub closed spec fn why(self) -> Seq<char> {
        self.error@
    }

    pub closed spec fn aside(self) -> ReplacedItem {
        self.displaced
    }

    #[verifier::type_invariant]
    spec fn well_formed(self) -> bool {
        ready(self.books@)
    }

    /// What has to go back.
    pub fn item(&self) -> (item: &ReplacedItem)
        ensures
            *item == self.aside(),
    {
        &self.displaced
    }
}

impl Books {
    fn snapshots_left(&self) -> (left: usize)
        ensures
            left == self@.snapshots_left(),
    {
        self.budget.undo_snapshot_limit.saturating_sub(self.copied_sources.len()).saturating_sub(
            self.copied_created.len(),
        ).saturating_sub(self.merged_created.len())
    }

    fn source(&self) -> (source: PathBuf)
        requires
            self@.index < self@.sources.len(),
        ensures
            source == self@.current(),
    {
        self.sources[self.index].clone()
    }

    /// The current source failed.
    fn fail(self, message: String) -> (books: Books)
        requires
            self@.index < self@.sources.len(),
        ensures
            books@ == self@.failing(PathFailure { path: self@.current(), message }),
    {
        let mut books = self;
        let path = books.source();
        books.failures.push(PathFailure { path, message });
        assert(books.index < books.sources.len());
        books.index = books.index + 1;
        books
    }

    /// The current source failed, but not before it had changed the disk.
    fn fail_late(self, message: String) -> (books: Books)
        requires
            self@.index < self@.sources.len(),
        ensures
            books@ == self@.failing_late(PathFailure { path: self@.current(), message }),
    {
        let mut books = self.fail(message);
        books.touched = true;
        books
    }

    /// The current source arrived.
    fn complete(self, destination: PathBuf) -> (books: Books)
        requires
            self@.index < self@.sources.len(),
        ensures
            books@ == self@.completing(destination),
    {
        let mut books = self;
        let source = books.source();
        books.completed.push(CompletedTransfer { source, destination });
        assert(books.index < books.sources.len());
        books.index = books.index + 1;
        books
    }

    /// The current source was declined.
    fn skip(self) -> (books: Books)
        requires
            self@.index < self@.sources.len(),
        ensures
            books@ == self@.skipping(),
    {
        let mut books = self;
        let source = books.source();
        books.skipped.push(source);
        assert(books.index < books.sources.len());
        books.index = books.index + 1;
        books
    }

    /// The current source needs nothing.
    fn stay(self) -> (books: Books)
        requires
            self@.index < self@.sources.len(),
        ensures
            books@ == self@.staying(),
    {
        let mut books = self;
        let source = books.source();
        books.already_in_place.push(source);
        assert(books.index < books.sources.len());
        books.index = books.index + 1;
        books
    }

    /// Nothing from the current source on is attempted.
    fn cancel(self) -> (books: Books)
        requires
            self@.index <= self@.sources.len(),
        ensures
            books@ == self@.cancelling(),
    {
        let ghost before = self@;
        let mut books = self;
        assert(before.sources.subrange(before.index as int, before.index as int) =~= Seq::empty());
        assert(books.cancelled@ =~= before.cancelled + Seq::<PathBuf>::empty());
        while books.index < books.sources.len()
            invariant
                before.index <= books.index <= before.sources.len(),
                books@ == (TransferModel {
                    index: books.index as nat,
                    cancelled: before.cancelled + before.sources.subrange(
                        before.index as int,
                        books.index as int,
                    ),
                    ..before
                }),
            decreases before.sources.len() - books.index,
        {
            let source = books.source();
            books.cancelled.push(source);
            books.index = books.index + 1;
            proof {
                assert(before.sources.subrange(before.index as int, books.index as int)
                    =~= before.sources.subrange(before.index as int, books.index - 1).push(source));
                assert(books@.cancelled =~= before.cancelled + before.sources.subrange(
                    before.index as int,
                    books.index as int,
                ));
            }
        }
        proof {
            assert(before.sources.subrange(before.index as int, before.sources.len() as int)
                =~= before.sources.skip(before.index as int));
        }
        books
    }

    /// Records a move that has succeeded, and settles what it displaced.
    fn settle_move(
        self,
        record: Option<MoveRecord>,
        displaced: Option<ReplacedItem>,
        bytes: u64,
    ) -> (result: (Books, Vec<ReplacedItem>))
        ensures
            result.0@ == self@.settling_move(record, displaced, bytes),
            result.1@ == self@.released_by_move(record, displaced, bytes),
    {
        let ghost before = self@;
        let mut books = self;
        let mut release: Vec<ReplacedItem> = Vec::new();
        let recorded = record.is_some();
        match record {
            Some(record) => {
                books.moved_snapshots = books.moved_snapshots.saturating_add(
                    record.expected_state.len(),
                );
                books.moved.push(record);
            },
            // The move committed; only its undo record was lost.
            None => {
                books.move_undo_unavailable = true;
            },
        }
        assert(books@ == before.moving(record));
        match displaced {
            None => {},
            Some(item) => {
                if recorded {
                    books = books.hold(item, bytes, &mut release);
                } else {
                    release.push(item);
                }
            },
        }
        assert(release@ =~= before.released_by_move(record, displaced, bytes));
        (books, release)
    }

    /// Holds aside what was displaced, or hands it over to be erased.
    fn hold(self, item: ReplacedItem, bytes: u64, release: &mut Vec<ReplacedItem>) -> (books: Books)
        ensures
            books@ == self@.holding(item, bytes),
            final(release)@ == (if self@.replaced_bytes + bytes
                > self@.budget.replacement_undo_byte_limit {
                old(release)@.push(item)
            } else {
                old(release)@
            }),
    {
        let mut books = self;
        let over = match books.replaced_bytes.checked_add(bytes) {
            Some(total) => total > books.budget.replacement_undo_byte_limit,
            None => true,
        };
        if over {
            release.push(item);
            books.replacement_undo_unavailable = true;
        } else {
            books.replaced_bytes = books.replaced_bytes + bytes;
            books.replaced.push(item);
        }
        books
    }
}

/// Whether only the path being worked on changed in the published progress.
pub open spec fn working_on(
    before: TransferProgressSnapshot,
    after: TransferProgressSnapshot,
    path: PathBuf,
) -> bool {
    after == (TransferProgressSnapshot { current_path: Some(path), ..before })
}

/// A transfer nobody can answer conflicts for.
pub fn transfer_paths(sources: Vec<PathBuf>, destination: PathBuf, mode: TransferMode) -> (transfer:
    Transfer)
    ensures
        transfer@ == fresh(sources@, destination, mode, false),
{
    Transfer::new(sources, destination, mode)
}

/// A transfer nobody can answer conflicts for, and its progress being
/// prepared. A move counts its sources; a copy is measured by the caller.
pub fn transfer_paths_with_progress(
    sources: Vec<PathBuf>,
    destination: PathBuf,
    mode: TransferMode,
    progress: &mut TransferProgress,
) -> (transfer: Transfer)
    ensures
        transfer@ == fresh(sources@, destination, mode, false),
        final(progress)@ == preparing(old(progress)@, sources@.len(), mode),
{
    prepare(sources.len(), mode, progress);
    Transfer::new(sources, destination, mode)
}

/// A transfer whose conflicts can be answered, and its progress being
/// prepared.
pub fn transfer_paths_with_conflicts(
    sources: Vec<PathBuf>,
    destination: PathBuf,
    mode: TransferMode,
    progress: &mut TransferProgress,
) -> (transfer: Transfer)
    ensures
        transfer@ == fresh(sources@, destination, mode, true),
        final(progress)@ == preparing(old(progress)@, sources@.len(), mode),
{
    prepare(sources.len(), mode, progress);
    Transfer::new(sources, destination, mode).with_answers()
}

/// Progress while a transfer of `count` sources is prepared.
pub open spec fn preparing(
    before: TransferProgressSnapshot,
    count: nat,
    mode: TransferMode,
) -> TransferProgressSnapshot {
    TransferProgressSnapshot {
        preparing: true,
        total_items: if mode is Move {
            crate::fsops::counted(before.total_items, count as u64)
        } else {
            before.total_items
        },
        ..before
    }
}

fn prepare(count: usize, mode: TransferMode, progress: &mut TransferProgress)
    ensures
        final(progress)@ == preparing(old(progress)@, count as nat, mode),
{
    progress.set_preparing(true);
    match mode {
        TransferMode::Copy => {},
        TransferMode::Move => {
            progress.add_total(count as u64, 0);
        },
    }
}

/// A transfer that has done nothing yet.
pub open spec fn fresh(
    sources: Seq<PathBuf>,
    destination: PathBuf,
    mode: TransferMode,
    interactive: bool,
) -> TransferModel {
    TransferModel {
        sources,
        destination,
        mode,
        interactive,
        budget: TransferBudget {
            undo_snapshot_limit: UNDO_SNAPSHOT_LIMIT,
            replacement_undo_byte_limit: REPLACEMENT_UNDO_BYTE_LIMIT,
        },
        index: 0,
        completed: Seq::empty(),
        failures: Seq::empty(),
        skipped: Seq::empty(),
        already_in_place: Seq::empty(),
        cancelled: Seq::empty(),
        copied_sources: LedgerModel::fresh(),
        copied_created: LedgerModel::fresh(),
        merged_created: LedgerModel::fresh(),
        moved: Seq::empty(),
        moved_snapshots: 0,
        move_undo_unavailable: false,
        replaced: Seq::empty(),
        replaced_bytes: 0,
        replacement_undo_unavailable: false,
        touched: false,
        dropped: Dropped { permissions: false, attributes: false, links: false },
    }
}

impl Transfer {
    /// The books are always in order.
    #[verifier::type_invariant]
    pub open spec fn well_formed(self) -> bool {
        self@.balanced() && self@.restorable()
    }

    pub fn new(sources: Vec<PathBuf>, destination: PathBuf, mode: TransferMode) -> (transfer:
        Transfer)
        ensures
            transfer@ == fresh(sources@, destination, mode, false),
    {
        proof {
            broadcast use vstd::seq_lib::group_to_multiset_ensures;

            let start = fresh(sources@, destination, mode, false);
            assert(sources@.take(0) =~= Seq::empty());
            assert(sources@.skip(sources@.len() as int) =~= start.cancelled);
            assert(completed_from(start.completed) =~= Seq::empty());
            assert(failed_paths(start.failures) =~= Seq::empty());
            assert(start.accounted_for() =~= Seq::<PathBuf>::empty().to_multiset());
        }
        Transfer {
            books: Books {
                sources,
                destination,
                mode,
                interactive: false,
                budget: TransferBudget::default(),
                index: 0,
                completed: Vec::new(),
                failures: Vec::new(),
                skipped: Vec::new(),
                already_in_place: Vec::new(),
                cancelled: Vec::new(),
                copied_sources: Ledger::new(),
                copied_created: Ledger::new(),
                merged_created: Ledger::new(),
                moved: Vec::new(),
                moved_snapshots: 0,
                move_undo_unavailable: false,
                replaced: Vec::new(),
                replaced_bytes: 0,
                replacement_undo_unavailable: false,
                touched: false,
                dropped: Dropped::nothing(),
            },
        }
    }

    /// The same transfer with someone to ask about conflicts.
    pub fn with_answers(self) -> (transfer: Transfer)
        ensures
            transfer@ == (TransferModel { interactive: true, ..self@ }),
    {
        proof {
            use_type_invariant(&self);
        }
        let mut books = self.books;
        books.interactive = true;
        Transfer { books }
    }

    /// The same transfer with another budget.
    pub fn with_budget(self, budget: TransferBudget) -> (transfer: Transfer)
        ensures
            transfer@ == (TransferModel { budget, ..self@ }),
    {
        proof {
            use_type_invariant(&self);
        }
        let mut books = self.books;
        books.budget = budget;
        Transfer { books }
    }

    /// What the transfer wants next. `cancelled` says whether it was abandoned
    /// meanwhile.
    ///
    /// Every source that will not be attempted is accounted for, rather than
    /// recording one failure and abandoning the rest silently.
    pub fn run(self, cancelled: bool, progress: &mut TransferProgress) -> (step: TransferStep)
        ensures
            match step {
                TransferStep::Finished(finished) => {
                    &&& final(progress)@ == (TransferProgressSnapshot {
                        current_path: None,
                        ..old(progress)@
                    })
                    &&& if self@.index < self@.sources.len() {
                        cancelled && reports(finished, self@.cancelling())
                    } else {
                        reports(finished, self@)
                    }
                },
                TransferStep::Next(next) => {
                    &&& final(progress)@ == old(progress)@
                    &&& self@.index < self@.sources.len()
                    &&& !cancelled
                    &&& self@.current()@.file_name() is None
                    &&& next@.failures.len() > 0
                    &&& next@ == self@.failing(next@.failures.last())
                    &&& next@.failures.last().path == self@.current()
                    &&& next@.failures.last().message@ == "Source has no file name"@
                },
                TransferStep::Plan(wanted) => {
                    &&& final(progress)@ == old(progress)@
                    &&& !cancelled
                    &&& self@.plans(wanted)
                },
            },
    {
        proof {
            use_type_invariant(&self);
            if self@.index < self@.sources.len() {
                lemma_step_stays_balanced(self@);
            }
        }
        let ghost before = self@;
        let books = self.books;
        if books.index >= books.sources.len() {
            progress.set_current_path(None);
            return TransferStep::Finished(finish(books));
        }
        if cancelled {
            let books = books.cancel();
            progress.set_current_path(None);
            return TransferStep::Finished(finish(books));
        }
        let target = match books.sources[books.index].file_name() {
            Some(name) => Some(books.destination.join(name)),
            None => None,
        };
        match target {
            Some(target) => TransferStep::Plan(PlanWanted { books, target }),
            None => {
                let books = books.fail("Source has no file name".to_owned());
                TransferStep::Next(Transfer { books })
            },
        }
    }
}

/// Whether a finished transfer says what the books say.
pub open spec fn reports(finished: FinishedTransfer, books: TransferModel) -> bool {
    let outcome = finished.outcome;
    &&& outcome.completed@ == books.completed
    &&& outcome.failures@ == books.failures
    &&& outcome.skipped@ == books.skipped
    &&& outcome.already_in_place@ == books.already_in_place
    &&& outcome.cancelled@ == books.cancelled
    // What was never attempted is what came last.
    &&& suffix_of(outcome.cancelled@, books.sources)
    &&& outcome.undo_unavailable == books.undo_unavailable()
    &&& outcome.touched == books.touched
    &&& outcome.dropped == books.dropped
    // Every requested source has exactly one state.
    &&& outcome.sources() == books.sources.to_multiset()
    &&& outcome.count() == books.sources.len()
    // What is not carried by a record is given up.
    &&& finished.release@ == (if books.has_record() {
        Seq::empty()
    } else {
        books.replaced
    })
    &&& match outcome.operation {
        None => !books.has_record(),
        Some(OperationRecord::Copy { sources, destination, created, replaced, merged }) => {
            &&& books.has_record()
            &&& books.mode is Copy
            &&& sources@ == books.copied_sources.entries
            &&& destination == books.destination
            &&& created@ == books.copied_created.entries
            &&& replaced@ == books.replaced
            &&& merged@ == books.merged_created.entries
        },
        Some(OperationRecord::Move { transfers, replaced }) => {
            &&& books.has_record()
            &&& books.mode is Move
            &&& transfers@ == books.moved
            &&& replaced@ == books.replaced
        },
        Some(_) => false,
    }
}

fn finish(books: Books) -> (finished: FinishedTransfer)
    requires
        books@.balanced(),
        books@.index == books@.sources.len(),
    ensures
        reports(finished, books@),
{
    let ghost model = books@;
    assert(model.sources.take(model.sources.len() as int) =~= model.sources);
    let undo_unavailable = books.copied_created.unavailable || books.merged_created.unavailable
        || books.move_undo_unavailable || books.replacement_undo_unavailable;
    let Books {
        destination,
        mode,
        completed,
        failures,
        skipped,
        already_in_place,
        cancelled,
        copied_sources,
        copied_created,
        merged_created,
        moved,
        replaced,
        touched,
        dropped,
        ..
    } = books;
    let mut release: Vec<ReplacedItem> = Vec::new();
    let operation: Option<OperationRecord> = match mode {
        TransferMode::Copy => if copied_created.entries.len() > 0 || merged_created.entries.len()
            > 0 {
            Some(
                OperationRecord::Copy {
                    sources: copied_sources.entries,
                    destination,
                    created: copied_created.entries,
                    replaced,
                    merged: merged_created.entries,
                },
            )
        } else {
            release = replaced;
            None
        },
        TransferMode::Move => if moved.len() > 0 {
            Some(OperationRecord::Move { transfers: moved, replaced })
        } else {
            release = replaced;
            None
        },
    };
    let outcome = TransferOutcome {
        operation,
        completed,
        failures,
        skipped,
        already_in_place,
        cancelled,
        undo_unavailable,
        touched,
        dropped,
    };
    FinishedTransfer { outcome, release }
}

/// What a transfer does once it knows where a source goes and what was moved
/// aside for it.
pub open spec fn starts_work(
    books: TransferModel,
    target: PathBuf,
    displaced: Option<ReplacedItem>,
    step: WorkStep,
) -> bool {
    match books.mode {
        TransferMode::Copy => step matches WorkStep::Copy(wanted) && wanted.transfer() == books
            && wanted.to() == target && wanted.aside() == displaced,
        TransferMode::Move => step matches WorkStep::Move(wanted) && wanted.transfer() == books
            && wanted.to() == target && wanted.aside() == displaced,
    }
}

fn start_work(
    books: Books,
    target: PathBuf,
    displaced: Option<ReplacedItem>,
    progress: &mut TransferProgress,
) -> (step: WorkStep)
    requires
        ready(books@),
    ensures
        starts_work(books@, target, displaced, step),
        working_on(old(progress)@, final(progress)@, books@.current()),
{
    progress.set_current_path(Some(books.source()));
    match books.mode {
        TransferMode::Copy => WorkStep::Copy(CopyWanted { books, target, displaced }),
        TransferMode::Move => WorkStep::Move(MoveWanted { books, target, displaced }),
    }
}

impl PlanWanted {
    /// What follows from the plan for the source.
    pub open spec fn follows(self, plan: SourcePlan, step: WorkStep) -> bool {
        match plan {
            SourcePlan::Transfer(target) => starts_work(self.transfer(), target, None, step),
            SourcePlan::Replace(target) => step matches WorkStep::Quarantine(wanted)
                && wanted.transfer() == self.transfer() && wanted.to() == target,
            SourcePlan::Merge(target) => step matches WorkStep::Merge(wanted) && wanted.transfer()
                == self.transfer() && wanted.to() == target,
            SourcePlan::AlreadyInPlace => step matches WorkStep::Next(next) && next@
                == self.transfer().staying(),
            SourcePlan::Skip => step matches WorkStep::Next(next) && next@
                == self.transfer().skipping(),
            SourcePlan::Cancel => step matches WorkStep::Next(next) && next@
                == self.transfer().cancelling(),
            SourcePlan::Failed(message) => step matches WorkStep::Next(next) && next@
                == self.transfer().failing(
                PathFailure { path: self.transfer().current(), message },
            ),
        }
    }

    /// The plan for the source.
    pub fn planned(self, plan: SourcePlan, progress: &mut TransferProgress) -> (step: WorkStep)
        ensures
            self.follows(plan, step),
            if plan is Transfer || plan is Merge {
                working_on(old(progress)@, final(progress)@, self.transfer().current())
            } else {
                final(progress)@ == old(progress)@
            },
    {
        proof {
            use_type_invariant(&self);
            lemma_step_stays_balanced(self.books@);
        }
        let books = self.books;
        match plan {
            SourcePlan::Transfer(target) => start_work(books, target, None, progress),
            // What is there moves aside before it is published over, so the
            // replacement is never destroyed by a transfer that then fails.
            SourcePlan::Replace(target) => WorkStep::Quarantine(QuarantineWanted { books, target }),
            // A merge adds to a tree that is already there rather than
            // publishing a new one.
            SourcePlan::Merge(target) => {
                progress.set_current_path(Some(books.source()));
                WorkStep::Merge(MergeWanted { books, target })
            },
            // Not a refusal and not work: the item is where it was asked to be.
            SourcePlan::AlreadyInPlace => WorkStep::Next(Transfer { books: books.stay() }),
            SourcePlan::Skip => WorkStep::Next(Transfer { books: books.skip() }),
            SourcePlan::Cancel => WorkStep::Next(Transfer { books: books.cancel() }),
            SourcePlan::Failed(message) => WorkStep::Next(Transfer { books: books.fail(message) }),
        }
    }
}

impl QuarantineWanted {
    /// What was moved aside, or why it could not be.
    pub fn quarantined(
        self,
        result: Result<ReplacedItem, String>,
        progress: &mut TransferProgress,
    ) -> (step: WorkStep)
        ensures
            match result {
                Ok(item) => starts_work(self.transfer(), self.to(), Some(item), step) && working_on(
                    old(progress)@,
                    final(progress)@,
                    self.transfer().current(),
                ),
                Err(message) => step matches WorkStep::Next(next) && next@
                    == self.transfer().failing(
                    PathFailure { path: self.transfer().current(), message },
                ) && final(progress)@ == old(progress)@,
            },
    {
        proof {
            use_type_invariant(&self);
            lemma_step_stays_balanced(self.books@);
        }
        let QuarantineWanted { books, target } = self;
        match result {
            Ok(item) => start_work(books, target, Some(item), progress),
            Err(message) => WorkStep::Next(Transfer { books: books.fail(message) }),
        }
    }
}

impl MergeWanted {
    /// What the merge added, and why it stopped if it did not finish.
    ///
    /// A merge that stopped short still added what it added. Those additions
    /// are on disk whatever comes next, so they belong in the record.
    /// Cancelling is an answer, not a fault.
    pub fn merged(self, outcome: MergeOutcome) -> (next: Transfer)
        ensures
            match outcome.stopped {
                None => next@ == self.transfer().merging(outcome).completing(self.to()),
                Some(MergeStop::Cancelled) => next@ == self.transfer().merging(
                    outcome,
                ).cancelling(),
                Some(MergeStop::Failed(message)) => next@ == self.transfer().merging(
                    outcome,
                ).failing(PathFailure { path: self.transfer().current(), message }),
            },
            self.transfer().within_budget() && outcome.created@.len()
                <= self.transfer().merge_allowance() ==> next@.within_budget(),
    {
        proof {
            use_type_invariant(&self);
            lemma_step_stays_balanced(self.books@.merging(outcome));
        }
        let MergeWanted { books, target } = self;
        let mut books = books;
        let MergeOutcome { created, undoable, stopped, dropped } = outcome;
        books.touched = books.touched || created.len() > 0 || !undoable;
        books.dropped = books.dropped.also(dropped);
        if undoable {
            books.merged_created.extend(created);
        } else {
            books.merged_created.give_up();
        }
        let books = match stopped {
            None => books.complete(target),
            Some(MergeStop::Cancelled) => books.cancel(),
            Some(MergeStop::Failed(message)) => books.fail(message),
        };
        Transfer { books }
    }
}

impl CopyWanted {
    /// Where the transfer is once the copy arrived.
    pub open spec fn settles(self, copied: CopiedItem, bytes: u64, next: Transfer) -> bool {
        next@ == self.transfer().settling_copy(copied, self.aside(), bytes).dropping(
            copied.dropped,
        ).completing(self.to())
    }

    /// The copy arrived. `bytes` is what the displaced item holds. Returns the
    /// transfer and what has to be erased because nothing can put it back.
    ///
    /// Giving up the record of the copies empties it of every earlier copy
    /// too, so what those displaced has nowhere to return to: it is released
    /// as soon as it stops being restorable.
    pub fn copied(self, copied: CopiedItem, bytes: u64) -> (result: (Transfer, Vec<ReplacedItem>))
        ensures
            self.settles(copied, bytes, result.0),
            result.1@ == self.transfer().released_by_copy(copied, self.aside(), bytes),
            self.transfer().within_budget() && copied.sources@.len()
                <= self.transfer().copy_allowance() && copied.created@.len()
                <= self.transfer().copy_allowance() ==> result.0@.within_budget(),
    {
        let ghost settled = self.books@.settling_copy(copied, self.displaced, bytes);
        proof {
            use_type_invariant(&self);
            assert(settled.accounted_for() == self.books@.accounted_for());
            lemma_step_stays_balanced(settled.dropping(copied.dropped));
        }
        let CopyWanted { books, target, displaced } = self;
        let ghost before = books@;
        let mut books = books;
        let mut release: Vec<ReplacedItem> = Vec::new();
        let CopiedItem { sources, created, overflowed, undoable, dropped } = copied;
        if overflowed || !undoable {
            books.copied_sources.give_up();
            books.copied_created.give_up();
            std::mem::swap(&mut books.replaced, &mut release);
            assert(books@.replaced =~= Seq::empty());
        } else {
            books.copied_sources.extend(sources);
            books.copied_created.extend(created);
        }
        assert(books@ == before.copying(copied));
        match displaced {
            None => {},
            Some(item) => {
                // Holding the displaced object is what makes this undoable.
                if books.copied_created.unavailable {
                    release.push(item);
                } else {
                    books = books.hold(item, bytes, &mut release);
                }
            },
        }
        assert(books@ == settled);
        books.dropped = books.dropped.also(dropped);
        (Transfer { books: books.complete(target) }, release)
    }

    /// The copy failed, and nothing arrived.
    pub fn failed(self, error: String) -> (step: FailStep)
        ensures
            fails_with(self.transfer(), self.aside(), error, step),
    {
        proof {
            use_type_invariant(&self);
        }
        let CopyWanted { books, displaced, .. } = self;
        fail_work(books, displaced, error)
    }
}

impl MoveWanted {
    /// Where the transfer is once the move happened.
    pub open spec fn settles(self, moved: Moved, bytes: u64, next: Transfer) -> bool {
        next@ == self.transfer().settling_move(moved.record, self.aside(), bytes).dropping(
            moved.dropped,
        ).completing(self.to())
    }

    /// The move happened. `bytes` is what the displaced item holds. Returns
    /// the transfer and what has to be erased because nothing can put it back.
    ///
    /// A move whose own record was lost still stands, and so does what it
    /// displaced: recording the displaced item would have undo restore it over
    /// a destination that the record can no longer clear.
    pub fn moved(
        self,
        moved: Moved,
        bytes: u64,
        progress: &mut TransferProgress,
    ) -> (result: (Transfer, Vec<ReplacedItem>))
        ensures
            self.settles(moved, bytes, result.0),
            result.1@ == self.transfer().released_by_move(moved.record, self.aside(), bytes),
            final(progress)@ == (TransferProgressSnapshot {
                completed_items: crate::fsops::counted(old(progress)@.completed_items, 1),
                ..old(progress)@
            }),
    {
        let Moved { record, dropped } = moved;
        let ghost settled = self.books@.settling_move(record, self.displaced, bytes);
        proof {
            use_type_invariant(&self);
            assert(settled.accounted_for() == self.books@.accounted_for());
            assert(settled.dropping(dropped).accounted_for() == self.books@.accounted_for());
            lemma_step_stays_balanced(settled.dropping(dropped));
        }
        let MoveWanted { books, target, displaced } = self;
        let (books, release) = books.settle_move(record, displaced, bytes);
        let mut books = books;
        progress.complete_item();
        books.dropped = books.dropped.also(dropped);
        assert(books@ == settled.dropping(dropped));
        (Transfer { books: books.complete(target) }, release)
    }

    /// Whether `step` is what a move that failed comes to, and `released` what is
    /// to be erased.
    pub open spec fn settles_failed(
        self,
        failure: MoveFailure,
        step: FailStep,
        released: Vec<ReplacedItem>,
    ) -> bool {
        if failure.published {
            &&& step matches FailStep::Next(next)
            &&& next@ == (TransferModel {
                move_undo_unavailable: true,
                ..self.transfer()
            }).failing_late(
                PathFailure { path: self.transfer().current(), message: failure.message },
            )
            &&& released@ == (match self.aside() {
                Some(item) => seq![item],
                None => Seq::empty(),
            })
        } else {
            fails_with(self.transfer(), self.aside(), failure.message, step)
                && released@.len() == 0
        }
    }

    /// The move failed. Returns what comes next and what has to be erased.
    ///
    /// Where nothing arrived, what was displaced goes back. Where the copy
    /// arrived and only the original could not be removed, the replacement
    /// stands, and like every move without a record it keeps nothing aside.
    pub fn failed(self, failure: MoveFailure) -> (result: (FailStep, Vec<ReplacedItem>))
        ensures
            self.settles_failed(failure, result.0, result.1),
    {
        proof {
            use_type_invariant(&self);
        }
        let MoveWanted { books, displaced, .. } = self;
        let mut release: Vec<ReplacedItem> = Vec::new();
        if !failure.published {
            return (fail_work(books, displaced, failure.message), release);
        }
        let ghost before = books@;
        let mut books = books;
        books.move_undo_unavailable = true;
        proof {
            assert(books@.accounted_for() == before.accounted_for());
            lemma_step_stays_balanced(books@);
        }
        match displaced {
            Some(item) => {
                release.push(item);
            },
            None => {},
        }
        let books = books.fail_late(failure.message);
        (FailStep::Next(Transfer { books }), release)
    }
}

/// What a transfer does when the current source did not arrive.
pub open spec fn fails_with(
    books: TransferModel,
    displaced: Option<ReplacedItem>,
    error: String,
    step: FailStep,
) -> bool {
    match displaced {
        None => step matches FailStep::Next(next) && next@ == books.failing(
            PathFailure { path: books.current(), message: error },
        ),
        Some(item) => step matches FailStep::Restore(wanted) && wanted.transfer() == books
            && wanted.why() == error@ && wanted.aside() == item,
    }
}

fn fail_work(books: Books, displaced: Option<ReplacedItem>, error: String) -> (step: FailStep)
    requires
        ready(books@),
    ensures
        fails_with(books@, displaced, error, step),
{
    proof {
        lemma_step_stays_balanced(books@);
    }
    match displaced {
        None => FailStep::Next(Transfer { books: books.fail(error) }),
        Some(displaced) => FailStep::Restore(RestoreWanted { books, error, displaced }),
    }
}

impl RestoreWanted {
    /// Whether the displaced item is back where it was, or where it is now.
    ///
    /// The transfer failed, so what it displaced goes back rather than leaving
    /// the destination empty. When even that fails the quarantine holds the
    /// user's only copy, so it leaves undo storage for recovery storage, and
    /// the message says where.
    pub fn restored(self, result: Result<(), String>) -> (next: Transfer)
        ensures
            next@.failures.len() > 0,
            next@ == self.transfer().failing_late(next@.failures.last()),
            next@.failures.last().path == self.transfer().current(),
            next@.failures.last().message@ == (match result {
                Ok(_) => self.why(),
                Err(unrestored) => self.why() + "; "@ + unrestored@,
            }),
    {
        proof {
            use_type_invariant(&self);
            lemma_step_stays_balanced(self.books@);
        }
        let RestoreWanted { books, error, .. } = self;
        let mut message = error;
        match result {
            Ok(_) => {},
            Err(unrestored) => {
                message.append("; ");
                message.append(unrestored.as_str());
            },
        }
        Transfer { books: books.fail_late(message) }
    }
}

} // verus!
