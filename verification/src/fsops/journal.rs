//! What a mutation leaves behind so it can be undone: records, snapshots, and
//! the bounded stacks that hold them.

use std::collections::VecDeque;
use vstd::prelude::*;

use crate::fsops::identity::{FileIdentity, Metadata, SnapshotKind};
use crate::fsops::trash::TrashRecord;
use crate::fsops::DirectoryChanges;
use crate::path::{PathBuf, PathModel};

verus! {

/// How many operations each of the undo and redo stacks retains.
///
/// A record can carry one `PathSnapshot` per descendant, so depth multiplies
/// the worst-case cost of `UNDO_SNAPSHOT_LIMIT` rather than adding to it.
pub const OPERATION_HISTORY_LIMIT: usize = 20;

/// How many `PathSnapshot`s one transfer's undo record may hold.
///
/// One budget for the whole operation, shared by every path that contributes to
/// its record: copied sources and output, what a merge folds into an existing
/// tree, and the trees a move renames.
pub const UNDO_SNAPSHOT_LIMIT: usize = 100_000;

/// One object as it was when it was recorded.
#[derive(Debug)]
pub struct PathSnapshot {
    pub path: PathBuf,
    pub identity: FileIdentity,
    pub kind: SnapshotKind,
}

impl Clone for PathSnapshot {
    fn clone(&self) -> (copy: Self)
        ensures
            copy == *self,
    {
        PathSnapshot { path: self.path.clone(), identity: self.identity, kind: self.kind }
    }
}

impl PathSnapshot {
    /// Whether this is what was found at `path`.
    pub open spec fn describes(self, path: PathModel, metadata: Metadata) -> bool {
        self.path@ == path && self.identity == metadata.identity() && self.kind == metadata.kind
    }

    pub fn of(path: &PathBuf, metadata: &Metadata) -> (snapshot: PathSnapshot)
        ensures
            snapshot.path == *path,
            snapshot.describes(path@, *metadata),
    {
        PathSnapshot {
            path: path.clone(),
            identity: FileIdentity::of(metadata),
            kind: metadata.kind,
        }
    }
}

/// A source that was moved, and the tree it took along.
#[derive(Debug)]
pub struct MoveRecord {
    pub source: PathBuf,
    pub destination: PathBuf,
    pub expected_state: Vec<PathSnapshot>,
}

/// An object a transfer displaced, held aside so undo can put it back.
#[derive(Debug)]
pub struct ReplacedItem {
    /// Where it lived, and where undo must put it back.
    pub path: PathBuf,
    /// Where it is being held meanwhile.
    pub quarantine: PathBuf,
    pub identity: FileIdentity,
}

impl Clone for ReplacedItem {
    fn clone(&self) -> (copy: Self)
        ensures
            copy == *self,
    {
        ReplacedItem {
            path: self.path.clone(),
            quarantine: self.quarantine.clone(),
            identity: self.identity,
        }
    }
}

impl ReplacedItem {
    /// The hidden path holding this item, so an evicted record can release it.
    pub fn quarantine(&self) -> (path: &PathBuf)
        ensures
            *path == self.quarantine,
    {
        &self.quarantine
    }
}

/// One operation, as far as undoing and redoing it needs to know it.
#[allow(inconsistent_fields)]
#[derive(Debug)]
pub enum OperationRecord {
    CreateDirectory { path: PathBuf, identity: FileIdentity },
    CreateFile { path: PathBuf, identity: FileIdentity },
    Copy {
        sources: Vec<PathSnapshot>,
        destination: PathBuf,
        created: Vec<PathSnapshot>,
        replaced: Vec<ReplacedItem>,
        /// Items added by folding a directory into an existing one.
        ///
        /// Held apart from `created` because they sit scattered inside a tree
        /// that was already there, so undo has to validate them one at a time
        /// rather than by re-walking a tree it owns outright.
        merged: Vec<PathSnapshot>,
    },
    Move { transfers: Vec<MoveRecord>, replaced: Vec<ReplacedItem> },
    Trash { records: Vec<TrashRecord> },
    Restore { records: Vec<TrashRecord> },
    Rename { source: PathBuf, destination: PathBuf, identity: FileIdentity },
    /// A permission change: the bits before and after, on one object.
    SetMode { path: PathBuf, identity: FileIdentity, previous: u32, mode: u32 },
    ArchiveCreate {
        sources: Vec<PathSnapshot>,
        destination: PathBuf,
        created: Vec<PathSnapshot>,
    },
    ArchiveExtract {
        source: Vec<PathSnapshot>,
        output: PathBuf,
        /// The published tree; empty when the output was merged instead.
        created: Vec<PathSnapshot>,
        replaced: Vec<ReplacedItem>,
        /// What a merge added to a folder that was already at `output`.
        merged: Vec<PathSnapshot>,
    },
}

/// Copies snapshots.
pub fn copy_snapshots(snapshots: &Vec<PathSnapshot>) -> (copy: Vec<PathSnapshot>)
    ensures
        copy@ == snapshots@,
{
    let mut copy: Vec<PathSnapshot> = Vec::new();
    let mut i: usize = 0;
    while i < snapshots.len()
        invariant
            i <= snapshots@.len(),
            copy@ == snapshots@.take(i as int),
        decreases snapshots.len() - i,
    {
        copy.push(snapshots[i].clone());
        assert(snapshots@.take(i + 1) =~= snapshots@.take(i as int).push(snapshots@[i as int]));
        i += 1;
    }
    assert(snapshots@.take(i as int) =~= snapshots@);
    copy
}

/// Copies what was displaced.
pub fn copy_replaced(items: &Vec<ReplacedItem>) -> (copy: Vec<ReplacedItem>)
    ensures
        copy@ == items@,
{
    let mut copy: Vec<ReplacedItem> = Vec::new();
    let mut i: usize = 0;
    while i < items.len()
        invariant
            i <= items@.len(),
            copy@ == items@.take(i as int),
        decreases items.len() - i,
    {
        copy.push(items[i].clone());
        assert(items@.take(i + 1) =~= items@.take(i as int).push(items@[i as int]));
        i += 1;
    }
    assert(items@.take(i as int) =~= items@);
    copy
}

/// Copies what is known of items in the Trash.
pub fn copy_trash_records(records: &Vec<TrashRecord>) -> (copy: Vec<TrashRecord>)
    ensures
        copy@ == records@,
{
    let mut copy: Vec<TrashRecord> = Vec::new();
    let mut i: usize = 0;
    while i < records.len()
        invariant
            i <= records@.len(),
            copy@ == records@.take(i as int),
        decreases records.len() - i,
    {
        copy.push(records[i].clone());
        assert(records@.take(i + 1) =~= records@.take(i as int).push(records@[i as int]));
        i += 1;
    }
    assert(records@.take(i as int) =~= records@);
    copy
}

impl MoveRecord {
    /// Whether both say the same.
    pub open spec fn alike(self, other: MoveRecord) -> bool {
        self.source == other.source && self.destination == other.destination
            && self.expected_state@ == other.expected_state@
    }
}

impl Clone for MoveRecord {
    fn clone(&self) -> (copy: Self)
        ensures
            copy.alike(*self),
    {
        MoveRecord {
            source: self.source.clone(),
            destination: self.destination.clone(),
            expected_state: copy_snapshots(&self.expected_state),
        }
    }
}

/// Whether two lists of moves say the same.
pub open spec fn moves_alike(left: Seq<MoveRecord>, right: Seq<MoveRecord>) -> bool {
    left.len() == right.len() && forall|i: int|
        0 <= i < left.len() ==> (#[trigger] left[i]).alike(right[i])
}

/// Copies moves.
pub fn copy_moves(transfers: &Vec<MoveRecord>) -> (copy: Vec<MoveRecord>)
    ensures
        moves_alike(copy@, transfers@),
{
    let mut copy: Vec<MoveRecord> = Vec::new();
    let mut i: usize = 0;
    while i < transfers.len()
        invariant
            i <= transfers@.len(),
            copy@.len() == i,
            forall|k: int| 0 <= k < i ==> (#[trigger] copy@[k]).alike(transfers@[k]),
        decreases transfers.len() - i,
    {
        copy.push(transfers[i].clone());
        i += 1;
    }
    copy
}

impl OperationRecord {
    /// Whether both say the same.
    pub open spec fn alike(self, other: OperationRecord) -> bool {
        match (self, other) {
            (
                OperationRecord::CreateDirectory { path, identity },
                OperationRecord::CreateDirectory { path: other_path, identity: other_identity },
            ) => path == other_path && identity == other_identity,
            (
                OperationRecord::CreateFile { path, identity },
                OperationRecord::CreateFile { path: other_path, identity: other_identity },
            ) => path == other_path && identity == other_identity,
            (
                OperationRecord::Copy { sources, destination, created, replaced, merged },
                OperationRecord::Copy {
                    sources: other_sources,
                    destination: other_destination,
                    created: other_created,
                    replaced: other_replaced,
                    merged: other_merged,
                },
            ) => sources@ == other_sources@ && destination == other_destination && created@
                == other_created@ && replaced@ == other_replaced@ && merged@ == other_merged@,
            (
                OperationRecord::Move { transfers, replaced },
                OperationRecord::Move { transfers: other_transfers, replaced: other_replaced },
            ) => moves_alike(transfers@, other_transfers@) && replaced@ == other_replaced@,
            (
                OperationRecord::Trash { records },
                OperationRecord::Trash { records: other_records },
            ) => records@ == other_records@,
            (
                OperationRecord::Restore { records },
                OperationRecord::Restore { records: other_records },
            ) => records@ == other_records@,
            (
                OperationRecord::Rename { source, destination, identity },
                OperationRecord::Rename {
                    source: other_source,
                    destination: other_destination,
                    identity: other_identity,
                },
            ) => source == other_source && destination == other_destination && identity
                == other_identity,
            (
                OperationRecord::SetMode { path, identity, previous, mode },
                OperationRecord::SetMode {
                    path: other_path,
                    identity: other_identity,
                    previous: other_previous,
                    mode: other_mode,
                },
            ) => path == other_path && identity == other_identity && previous == other_previous
                && mode == other_mode,
            (
                OperationRecord::ArchiveCreate { sources, destination, created },
                OperationRecord::ArchiveCreate {
                    sources: other_sources,
                    destination: other_destination,
                    created: other_created,
                },
            ) => sources@ == other_sources@ && destination == other_destination && created@
                == other_created@,
            (
                OperationRecord::ArchiveExtract { source, output, created, replaced, merged },
                OperationRecord::ArchiveExtract {
                    source: other_source,
                    output: other_output,
                    created: other_created,
                    replaced: other_replaced,
                    merged: other_merged,
                },
            ) => source@ == other_source@ && output == other_output && created@ == other_created@
                && replaced@ == other_replaced@ && merged@ == other_merged@,
            _ => false,
        }
    }
}

impl Clone for OperationRecord {
    fn clone(&self) -> (copy: Self)
        ensures
            copy.alike(*self),
    {
        match self {
            OperationRecord::CreateDirectory { path, identity } => OperationRecord::CreateDirectory {
                path: path.clone(),
                identity: *identity,
            },
            OperationRecord::CreateFile { path, identity } => OperationRecord::CreateFile {
                path: path.clone(),
                identity: *identity,
            },
            OperationRecord::Copy { sources, destination, created, replaced, merged } => {
                OperationRecord::Copy {
                    sources: copy_snapshots(sources),
                    destination: destination.clone(),
                    created: copy_snapshots(created),
                    replaced: copy_replaced(replaced),
                    merged: copy_snapshots(merged),
                }
            },
            OperationRecord::Move { transfers, replaced } => OperationRecord::Move {
                transfers: copy_moves(transfers),
                replaced: copy_replaced(replaced),
            },
            OperationRecord::Trash { records } => OperationRecord::Trash {
                records: copy_trash_records(records),
            },
            OperationRecord::Restore { records } => OperationRecord::Restore {
                records: copy_trash_records(records),
            },
            OperationRecord::Rename { source, destination, identity } => OperationRecord::Rename {
                source: source.clone(),
                destination: destination.clone(),
                identity: *identity,
            },
            OperationRecord::SetMode { path, identity, previous, mode } => OperationRecord::SetMode {
                path: path.clone(),
                identity: *identity,
                previous: *previous,
                mode: *mode,
            },
            OperationRecord::ArchiveCreate { sources, destination, created } => {
                OperationRecord::ArchiveCreate {
                    sources: copy_snapshots(sources),
                    destination: destination.clone(),
                    created: copy_snapshots(created),
                }
            },
            OperationRecord::ArchiveExtract { source, output, created, replaced, merged } => {
                OperationRecord::ArchiveExtract {
                    source: copy_snapshots(source),
                    output: output.clone(),
                    created: copy_snapshots(created),
                    replaced: copy_replaced(replaced),
                    merged: copy_snapshots(merged),
                }
            },
        }
    }
}

/// The path that says nothing.
pub open spec fn nowhere() -> PathModel {
    PathModel { absolute: false, names: Seq::empty() }
}

/// Where moved things came from.
pub open spec fn move_sources(transfers: Seq<MoveRecord>) -> Seq<PathBuf> {
    transfers.map_values(|transfer: MoveRecord| transfer.source)
}

/// Where moved things went.
pub open spec fn move_destinations(transfers: Seq<MoveRecord>) -> Seq<PathBuf> {
    transfers.map_values(|transfer: MoveRecord| transfer.destination)
}

/// Where trashed things lived.
pub open spec fn trash_origins(records: Seq<TrashRecord>) -> Seq<PathBuf> {
    records.map_values(|record: TrashRecord| record.original)
}

/// The paths among `created` that lie directly in `directory`.
pub open spec fn created_in(created: Seq<PathSnapshot>, directory: PathModel) -> Seq<PathBuf>
    decreases created.len(),
{
    if created.len() == 0 {
        Seq::empty()
    } else {
        let before = created_in(created.drop_last(), directory);
        if created.last().path@.parent() == Some(directory) {
            before.push(created.last().path)
        } else {
            before
        }
    }
}

impl OperationRecord {
    /// Where the result of the operation is.
    pub open spec fn result_path(self) -> PathModel {
        match self {
            OperationRecord::CreateDirectory { path, .. } => path@,
            OperationRecord::CreateFile { path, .. } => path@,
            OperationRecord::Copy { destination, created, .. } => if created@.len() > 0 {
                created@[0].path@
            } else {
                destination@
            },
            OperationRecord::Move { transfers, .. } => if transfers@.len() > 0 {
                transfers@[0].destination@
            } else {
                nowhere()
            },
            OperationRecord::Trash { records } => if records@.len() > 0 {
                records@[0].original@
            } else {
                nowhere()
            },
            OperationRecord::Restore { records } => if records@.len() > 0 {
                records@[0].original@
            } else {
                nowhere()
            },
            OperationRecord::Rename { destination, .. } => destination@,
            OperationRecord::SetMode { path, .. } => path@,
            OperationRecord::ArchiveCreate { destination, .. } => destination@,
            OperationRecord::ArchiveExtract { output, .. } => output@,
        }
    }

    /// The paths that the operation took away.
    pub open spec fn takes_away(self) -> Seq<PathBuf> {
        match self {
            OperationRecord::Move { transfers, .. } => move_sources(transfers@),
            OperationRecord::Trash { records } => trash_origins(records@),
            OperationRecord::Rename { source, .. } => seq![source],
            _ => Seq::empty(),
        }
    }

    /// The paths that the operation made or changed.
    pub open spec fn brings(self) -> Seq<PathBuf> {
        match self {
            OperationRecord::CreateDirectory { path, .. } => seq![path],
            OperationRecord::CreateFile { path, .. } => seq![path],
            OperationRecord::Copy { destination, created, .. } => created_in(
                created@,
                destination@,
            ),
            OperationRecord::Move { transfers, .. } => move_destinations(transfers@),
            OperationRecord::Trash { .. } => Seq::empty(),
            OperationRecord::Restore { records } => trash_origins(records@),
            OperationRecord::Rename { destination, .. } => seq![destination],
            OperationRecord::SetMode { path, .. } => seq![path],
            OperationRecord::ArchiveCreate { destination, .. } => seq![destination],
            OperationRecord::ArchiveExtract { output, .. } => seq![output],
        }
    }

    /// The objects the operation is holding aside.
    pub open spec fn held_aside(self) -> Seq<ReplacedItem> {
        match self {
            OperationRecord::Copy { replaced, .. } => replaced@,
            OperationRecord::Move { replaced, .. } => replaced@,
            OperationRecord::ArchiveExtract { replaced, .. } => replaced@,
            _ => Seq::empty(),
        }
    }

    pub fn path(&self) -> (path: PathBuf)
        ensures
            path@ == self.result_path(),
    {
        match self {
            OperationRecord::CreateDirectory { path, .. } => path.clone(),
            OperationRecord::CreateFile { path, .. } => path.clone(),
            OperationRecord::Copy { destination, created, .. } => if created.len() > 0 {
                created[0].path.clone()
            } else {
                destination.clone()
            },
            OperationRecord::Move { transfers, .. } => if transfers.len() > 0 {
                transfers[0].destination.clone()
            } else {
                empty_path()
            },
            OperationRecord::Trash { records } => first_origin(records),
            OperationRecord::Restore { records } => first_origin(records),
            OperationRecord::Rename { destination, .. } => destination.clone(),
            OperationRecord::SetMode { path, .. } => path.clone(),
            OperationRecord::ArchiveCreate { destination, .. } => destination.clone(),
            OperationRecord::ArchiveExtract { output, .. } => output.clone(),
        }
    }

    pub fn forward_directory_changes(&self) -> (changes: DirectoryChanges)
        ensures
            changes.removed@ == self.takes_away(),
            changes.upserted@ == self.brings(),
    {
        match self {
            OperationRecord::CreateDirectory { path, .. } => upserted_one(path),
            OperationRecord::CreateFile { path, .. } => upserted_one(path),
            OperationRecord::Copy { destination, created, .. } => DirectoryChanges::upserted(
                paths_created_in(created, destination),
            ),
            OperationRecord::Move { transfers, .. } => DirectoryChanges {
                removed: sources_of(transfers),
                upserted: destinations_of(transfers),
            },
            OperationRecord::Trash { records } => DirectoryChanges::removed(
                original_paths(records),
            ),
            OperationRecord::Restore { records } => DirectoryChanges::upserted(
                original_paths(records),
            ),
            OperationRecord::Rename { source, destination, .. } => {
                let mut removed: Vec<PathBuf> = Vec::new();
                removed.push(source.clone());
                let mut upserted: Vec<PathBuf> = Vec::new();
                upserted.push(destination.clone());
                DirectoryChanges { removed, upserted }
            },
            OperationRecord::SetMode { path, .. } => upserted_one(path),
            OperationRecord::ArchiveCreate { destination, .. } => upserted_one(destination),
            OperationRecord::ArchiveExtract { output, .. } => upserted_one(output),
        }
    }

    pub fn reverse_directory_changes(&self) -> (changes: DirectoryChanges)
        ensures
            changes.removed@ == self.brings(),
            changes.upserted@ == self.takes_away(),
    {
        self.forward_directory_changes().reversed()
    }

    /// The objects this record is holding aside so undo can restore them.
    pub fn replaced_items(&self) -> (items: &[ReplacedItem])
        ensures
            items@ == self.held_aside(),
    {
        match self {
            OperationRecord::Copy { replaced, .. } => replaced.as_slice(),
            OperationRecord::Move { replaced, .. } => replaced.as_slice(),
            OperationRecord::ArchiveExtract { replaced, .. } => replaced.as_slice(),
            _ => {
                let none: &[ReplacedItem] = &[];
                none
            },
        }
    }

    /// Give up everything this record was holding aside: the items to erase.
    ///
    /// Called when the record can no longer be reached, which makes its
    /// quarantines unreachable rather than merely unused.
    pub fn release_quarantines(self) -> (items: Vec<ReplacedItem>)
        ensures
            items@ == self.held_aside(),
    {
        match self {
            OperationRecord::Copy { replaced, .. } => replaced,
            OperationRecord::Move { replaced, .. } => replaced,
            OperationRecord::ArchiveExtract { replaced, .. } => replaced,
            _ => Vec::new(),
        }
    }

    pub fn trash_records(&self) -> (records: Option<&[TrashRecord]>)
        ensures
            match *self {
                OperationRecord::Trash { records: all } => records is Some && records.unwrap()@
                    == all@,
                OperationRecord::Restore { records: all } => records is Some && records.unwrap()@
                    == all@,
                _ => records is None,
            },
    {
        match self {
            OperationRecord::Trash { records } => Some(records.as_slice()),
            OperationRecord::Restore { records } => Some(records.as_slice()),
            _ => None,
        }
    }
}

/// Undoing shows the opposite of what doing showed.
pub proof fn lemma_reverse_changes_flip_forward(
    forward: DirectoryChanges,
    reverse: DirectoryChanges,
    record: OperationRecord,
)
    requires
        forward.removed@ == record.takes_away(),
        forward.upserted@ == record.brings(),
        reverse.removed@ == record.brings(),
        reverse.upserted@ == record.takes_away(),
    ensures
        reverse.removed@ == forward.flipped().removed@,
        reverse.upserted@ == forward.flipped().upserted@,
{
}

fn empty_path() -> (path: PathBuf)
    ensures
        path@ == nowhere(),
{
    let path = PathBuf::new();
    assert(path@.names =~= Seq::empty());
    path
}

fn first_origin(records: &Vec<TrashRecord>) -> (path: PathBuf)
    ensures
        path@ == if records@.len() > 0 {
            records@[0].original@
        } else {
            nowhere()
        },
{
    if records.len() > 0 {
        records[0].original_path().clone()
    } else {
        empty_path()
    }
}

/// One path that appeared or changed.
pub fn upserted_one(path: &PathBuf) -> (changes: DirectoryChanges)
    ensures
        changes.removed@ == Seq::<PathBuf>::empty(),
        changes.upserted@ == seq![*path],
{
    let mut upserted: Vec<PathBuf> = Vec::new();
    upserted.push(path.clone());
    let changes = DirectoryChanges::upserted(upserted);
    assert(changes.removed@ =~= Seq::<PathBuf>::empty());
    assert(changes.upserted@ =~= seq![*path]);
    changes
}

fn paths_created_in(created: &Vec<PathSnapshot>, directory: &PathBuf) -> (paths: Vec<PathBuf>)
    ensures
        paths@ == created_in(created@, directory@),
{
    let mut paths: Vec<PathBuf> = Vec::new();
    let mut i: usize = 0;
    assert(created@.take(0) =~= Seq::empty());
    while i < created.len()
        invariant
            i <= created.len(),
            paths@ == created_in(created@.take(i as int), directory@),
        decreases created.len() - i,
    {
        proof {
            assert(created@.take(i + 1).drop_last() =~= created@.take(i as int));
            assert(created@.take(i + 1).last() == created@[i as int]);
        }
        let inside = match created[i].path.parent() {
            Some(parent) => parent.same(directory),
            None => false,
        };
        if inside {
            paths.push(created[i].path.clone());
        }
        i += 1;
    }
    assert(created@.take(i as int) =~= created@);
    paths
}

/// Where moved things came from.
pub fn sources_of(transfers: &Vec<MoveRecord>) -> (paths: Vec<PathBuf>)
    ensures
        paths@ == move_sources(transfers@),
{
    let mut paths: Vec<PathBuf> = Vec::new();
    let mut i: usize = 0;
    while i < transfers.len()
        invariant
            i <= transfers.len(),
            paths@ == move_sources(transfers@).take(i as int),
        decreases transfers.len() - i,
    {
        paths.push(transfers[i].source.clone());
        assert(move_sources(transfers@).take(i + 1) =~= move_sources(transfers@).take(
            i as int,
        ).push(transfers@[i as int].source));
        i += 1;
    }
    assert(move_sources(transfers@).take(i as int) =~= move_sources(transfers@));
    paths
}

/// Where moved things went.
pub fn destinations_of(transfers: &Vec<MoveRecord>) -> (paths: Vec<PathBuf>)
    ensures
        paths@ == move_destinations(transfers@),
{
    let mut paths: Vec<PathBuf> = Vec::new();
    let mut i: usize = 0;
    while i < transfers.len()
        invariant
            i <= transfers.len(),
            paths@ == move_destinations(transfers@).take(i as int),
        decreases transfers.len() - i,
    {
        paths.push(transfers[i].destination.clone());
        assert(move_destinations(transfers@).take(i + 1) =~= move_destinations(transfers@).take(
            i as int,
        ).push(transfers@[i as int].destination));
        i += 1;
    }
    assert(move_destinations(transfers@).take(i as int) =~= move_destinations(transfers@));
    paths
}

/// Where trashed things lived.
pub fn original_paths(records: &Vec<TrashRecord>) -> (paths: Vec<PathBuf>)
    ensures
        paths@ == trash_origins(records@),
{
    let mut paths: Vec<PathBuf> = Vec::new();
    let mut i: usize = 0;
    while i < records.len()
        invariant
            i <= records.len(),
            paths@ == trash_origins(records@).take(i as int),
        decreases records.len() - i,
    {
        paths.push(records[i].original_path().clone());
        assert(trash_origins(records@).take(i + 1) =~= trash_origins(records@).take(i as int).push(
            records@[i as int].original,
        ));
        i += 1;
    }
    assert(trash_origins(records@).take(i as int) =~= trash_origins(records@));
    paths
}

/// The outcome of a mutation that has already committed to the filesystem.
///
/// Mutations follow one rule: every fallible traversal, validation, and journal
/// construction happens *before* the filesystem is touched (prepare), the
/// mutation itself is one minimal call (commit), and everything afterwards is
/// infallible in-memory work (finalize).
///
/// `record` is `None` when the mutation succeeded but its undo bookkeeping
/// could not be captured. Callers must present that as success without undo.
#[derive(Debug)]
pub struct CommittedOperation {
    pub path: PathBuf,
    pub changes: DirectoryChanges,
    pub record: Option<OperationRecord>,
}

impl CommittedOperation {
    /// A commit whose undo record was captured successfully.
    pub fn recorded(record: OperationRecord) -> (committed: CommittedOperation)
        ensures
            committed.path@ == record.result_path(),
            committed.changes.removed@ == record.takes_away(),
            committed.changes.upserted@ == record.brings(),
            committed.record == Some(record),
    {
        CommittedOperation {
            path: record.path(),
            changes: record.forward_directory_changes(),
            record: Some(record),
        }
    }

    /// A commit whose observable effect is known even when `record` is `None`.
    pub fn new(path: PathBuf, changes: DirectoryChanges, record: Option<OperationRecord>) -> (
        committed: CommittedOperation)
        ensures
            committed == (CommittedOperation { path, changes, record }),
    {
        CommittedOperation { path, changes, record }
    }

    /// A commit that published one new path, undoable when `record` is present.
    pub fn published(path: PathBuf, record: Option<OperationRecord>) -> (committed:
        CommittedOperation)
        ensures
            committed.path == path,
            committed.changes.removed@ == Seq::<PathBuf>::empty(),
            committed.changes.upserted@ == seq![path],
            committed.record == record,
    {
        let changes = upserted_one(&path);
        CommittedOperation::new(path, changes, record)
    }

    /// The published path, which is known whether or not undo was retained.
    pub fn path(&self) -> (path: &PathBuf)
        ensures
            *path == self.path,
    {
        &self.path
    }

    /// What a browser has to re-check after the commit. Always populated, so
    /// the browser stays consistent with the disk even when undo was lost.
    pub fn changes(&self) -> (changes: &DirectoryChanges)
        ensures
            *changes == self.changes,
    {
        &self.changes
    }

    pub fn is_undoable(&self) -> (undoable: bool)
        ensures
            undoable == self.record is Some,
    {
        self.record.is_some()
    }

    pub fn into_record(self) -> (record: Option<OperationRecord>)
        ensures
            record == self.record,
    {
        self.record
    }
}

/// The outcome of a mutation that may cross more than one commit point.
///
/// `CommittedOperation` models a single commit, but undo, redo, and the Trash
/// paths can rename item A, fail on item B, and then compensate. A failure that
/// provably never reached the disk keeps the record retryable, and anything
/// past the first commit discards it.
#[derive(Debug)]
pub enum MutationOutcome {
    /// Nothing reached the filesystem. The history record still describes the
    /// disk, so the caller keeps it and the user can retry.
    Unchanged(String),
    /// The mutation committed. Undo bookkeeping may still be absent.
    Committed(CommittedOperation),
    /// The mutation crossed its commit point and then failed.
    ///
    /// `changes` describes whatever reached the disk, which may be empty when
    /// compensation put everything back. Empty does *not* mean retryable: a
    /// compensating rename moves the root's time of last change, so the record
    /// that produced this attempt can no longer validate and must be discarded.
    Discarded { changes: DirectoryChanges, error: String },
}

impl MutationOutcome {
    /// Treat a failure that has not reached the filesystem as retryable.
    pub fn unchanged(error: String) -> (outcome: MutationOutcome)
        ensures
            outcome == MutationOutcome::Unchanged(error),
    {
        MutationOutcome::Unchanged(error)
    }

    /// Treat a failure past the first commit as history-invalidating.
    pub fn discarded(changes: DirectoryChanges, error: String) -> (outcome: MutationOutcome)
        ensures
            outcome == (MutationOutcome::Discarded { changes, error }),
    {
        MutationOutcome::Discarded { changes, error }
    }

    /// Whether the history record survives this outcome.
    ///
    /// `Unchanged` is the only failure a caller may retry: every other failure
    /// crossed a commit point and left the record describing a disk state that
    /// no longer exists.
    pub fn keeps_history(&self) -> (keeps: bool)
        ensures
            keeps == (*self is Unchanged),
    {
        matches!(self, MutationOutcome::Unchanged(_))
    }

    /// Whether the mutation did not commit.
    pub fn is_err(&self) -> (failed: bool)
        ensures
            failed == !(*self is Committed),
    {
        !matches!(self, MutationOutcome::Committed(_))
    }

    /// The commit.
    pub fn unwrap(self) -> (committed: CommittedOperation)
        requires
            self is Committed,
        ensures
            self == MutationOutcome::Committed(committed),
    {
        match self {
            MutationOutcome::Committed(committed) => committed,
            MutationOutcome::Unchanged(_) => CommittedOperation::published(PathBuf::new(), None),
            MutationOutcome::Discarded { .. } => CommittedOperation::published(
                PathBuf::new(),
                None,
            ),
        }
    }
}

/// A single-commit mutation: it either happened or it did not.
impl From<Result<CommittedOperation, String>> for MutationOutcome {
    fn from(result: Result<CommittedOperation, String>) -> (outcome: Self) {
        match result {
            Ok(committed) => MutationOutcome::Committed(committed),
            Err(error) => MutationOutcome::Unchanged(error),
        }
    }
}

impl vstd::std_specs::convert::FromSpecImpl<Result<CommittedOperation, String>> for MutationOutcome {
    open spec fn obeys_from_spec() -> bool {
        true
    }

    open spec fn from_spec(result: Result<CommittedOperation, String>) -> Self {
        match result {
            Ok(committed) => MutationOutcome::Committed(committed),
            Err(error) => MutationOutcome::Unchanged(error),
        }
    }
}

/// Which way through the journal a step goes.
#[derive(Clone, Copy, Debug, PartialEq, Eq, Structural)]
pub enum HistoryDirection {
    Undo,
    Redo,
}

impl HistoryDirection {
    /// The other way.
    pub open spec fn other(self) -> HistoryDirection {
        match self {
            HistoryDirection::Undo => HistoryDirection::Redo,
            HistoryDirection::Redo => HistoryDirection::Undo,
        }
    }

    pub fn opposite(self) -> (other: HistoryDirection)
        ensures
            other == self.other(),
    {
        match self {
            HistoryDirection::Undo => HistoryDirection::Redo,
            HistoryDirection::Redo => HistoryDirection::Undo,
        }
    }
}

/// The other way of the other way is the way itself.
pub proof fn lemma_opposite_twice(direction: HistoryDirection)
    ensures
        direction.other().other() == direction,
        direction.other() != direction,
{
}

/// What a journal holds, oldest first.
#[verifier::ext_equal]
pub struct JournalModel {
    pub undo: Seq<OperationRecord>,
    pub redo: Seq<OperationRecord>,
    pub limit: nat,
}

/// How many of the oldest have to go before one more fits.
pub open spec fn surplus(stack: Seq<OperationRecord>, limit: nat) -> int {
    if stack.len() + 1 > limit {
        stack.len() + 1 - limit
    } else {
        0
    }
}

/// A stack with one more on it, the oldest making room.
pub open spec fn pushed(stack: Seq<OperationRecord>, operation: OperationRecord, limit: nat) -> Seq<
    OperationRecord,
> {
    if limit == 0 {
        stack
    } else {
        stack.skip(surplus(stack, limit)).push(operation)
    }
}

/// What making room for one more displaces.
pub open spec fn displaced(
    stack: Seq<OperationRecord>,
    operation: OperationRecord,
    limit: nat,
) -> Seq<OperationRecord> {
    if limit == 0 {
        seq![operation]
    } else {
        stack.take(surplus(stack, limit))
    }
}

impl JournalModel {
    /// Whether neither stack holds more than the limit.
    pub open spec fn bounded(self) -> bool {
        self.undo.len() <= self.limit && self.redo.len() <= self.limit
    }

    /// The stack a step of `direction` takes from.
    pub open spec fn stack(self, direction: HistoryDirection) -> Seq<OperationRecord> {
        match direction {
            HistoryDirection::Undo => self.undo,
            HistoryDirection::Redo => self.redo,
        }
    }

    /// The journal with another stack for `direction`.
    pub open spec fn with_stack(
        self,
        direction: HistoryDirection,
        stack: Seq<OperationRecord>,
    ) -> JournalModel {
        match direction {
            HistoryDirection::Undo => JournalModel { undo: stack, ..self },
            HistoryDirection::Redo => JournalModel { redo: stack, ..self },
        }
    }

    /// The journal with an operation put back or put across.
    pub open spec fn with_pushed(
        self,
        direction: HistoryDirection,
        operation: OperationRecord,
    ) -> JournalModel {
        self.with_stack(direction, pushed(self.stack(direction), operation, self.limit))
    }
}

/// Making room loses nothing: what was displaced and what is kept are together
/// what was there and what came.
pub proof fn lemma_push_loses_nothing(
    stack: Seq<OperationRecord>,
    operation: OperationRecord,
    limit: nat,
)
    requires
        stack.len() <= limit,
    ensures
        displaced(stack, operation, limit) + pushed(stack, operation, limit) == stack.push(
            operation,
        ),
        pushed(stack, operation, limit).len() <= limit,
{
    if limit == 0 {
        assert(stack =~= Seq::empty());
    }
    assert(displaced(stack, operation, limit) + pushed(stack, operation, limit) =~= stack.push(
        operation,
    ));
}

/// A step that is begun and then cancelled leaves the journal as it was.
pub proof fn lemma_cancel_reverses_begin(journal: JournalModel, direction: HistoryDirection)
    requires
        journal.bounded(),
        journal.stack(direction).len() > 0,
    ensures
        journal.with_stack(direction, journal.stack(direction).drop_last()).with_pushed(
            direction,
            journal.stack(direction).last(),
        ) == journal,
{
    let stack = journal.stack(direction);
    let rest = stack.drop_last();
    assert(rest.skip(0) =~= rest);
    assert(rest.push(stack.last()) =~= stack);
}

/// Undoing and redoing the same operation leaves the journal as it was.
pub proof fn lemma_redo_reverses_undo(journal: JournalModel, direction: HistoryDirection)
    requires
        journal.bounded(),
        journal.stack(direction).len() > 0,
        journal.stack(direction.other()).len() < journal.limit,
    ensures
        ({
            let operation = journal.stack(direction).last();
            let begun = journal.with_stack(direction, journal.stack(direction).drop_last());
            let finished = begun.with_pushed(direction.other(), operation);
            let back = finished.with_stack(
                direction.other(),
                finished.stack(direction.other()).drop_last(),
            );
            finished.stack(direction.other()).last() == operation && back.with_pushed(
                direction,
                operation,
            ) == journal
        }),
{
    let stack = journal.stack(direction);
    let other = journal.stack(direction.other());
    let rest = stack.drop_last();
    assert(rest.skip(0) =~= rest);
    assert(other.skip(0) =~= other);
    assert(other.push(stack.last()).drop_last() =~= other);
    assert(rest.push(stack.last()) =~= stack);
}

/// The operations that can be undone and redone.
#[derive(Debug)]
pub struct OperationJournal {
    undo: VecDeque<OperationRecord>,
    redo: VecDeque<OperationRecord>,
    limit: usize,
}

impl View for OperationJournal {
    type V = JournalModel;

    closed spec fn view(&self) -> JournalModel {
        JournalModel { undo: self.undo@, redo: self.redo@, limit: self.limit as nat }
    }
}

impl Default for OperationJournal {
    fn default() -> (journal: OperationJournal)
        ensures
            journal@ == (JournalModel {
                undo: Seq::empty(),
                redo: Seq::empty(),
                limit: OPERATION_HISTORY_LIMIT as nat,
            }),
    {
        OperationJournal::new(OPERATION_HISTORY_LIMIT)
    }
}

/// Puts `operation` on a stack, the oldest making room, and returns what that
/// displaced.
fn push_bounded(
    stack: &mut VecDeque<OperationRecord>,
    operation: OperationRecord,
    limit: usize,
) -> (evicted: Vec<OperationRecord>)
    ensures
        final(stack)@ == pushed(old(stack)@, operation, limit as nat),
        evicted@ == displaced(old(stack)@, operation, limit as nat),
{
    let mut evicted: Vec<OperationRecord> = Vec::new();
    if limit == 0 {
        evicted.push(operation);
        return evicted;
    }
    let ghost all = stack@;
    assert(all.skip(0) =~= all);
    assert(all.take(0) =~= Seq::empty());
    while stack.len() >= limit
        invariant
            limit > 0,
            evicted@.len() <= surplus(all, limit as nat),
            evicted@ == all.take(evicted@.len() as int),
            stack@ == all.skip(evicted@.len() as int),
        decreases stack.len(),
    {
        let ghost gone = evicted@.len() as int;
        let oldest = stack.pop_front();
        match oldest {
            Some(record) => {
                evicted.push(record);
                assert(all.take(gone + 1) =~= all.take(gone).push(all[gone]));
                assert(all.skip(gone).subrange(1, all.len() - gone) =~= all.skip(gone + 1));
            },
            None => {},
        }
    }
    stack.push_back(operation);
    evicted
}

impl OperationJournal {
    /// Neither stack ever holds more than the limit.
    #[verifier::type_invariant]
    pub open spec fn well_formed(self) -> bool {
        self@.bounded()
    }

    pub fn new(limit: usize) -> (journal: OperationJournal)
        ensures
            journal@ == (JournalModel {
                undo: Seq::empty(),
                redo: Seq::empty(),
                limit: limit as nat,
            }),
    {
        OperationJournal { undo: VecDeque::new(), redo: VecDeque::new(), limit }
    }

    /// Take every record out, leaving the journal empty.
    ///
    /// Used when the journal is going away, so its records can release what
    /// they were holding aside before they are dropped.
    pub fn drain(&mut self) -> (records: Vec<OperationRecord>)
        ensures
            records@ == old(self)@.undo + old(self)@.redo,
            final(self)@ == (JournalModel {
                undo: Seq::empty(),
                redo: Seq::empty(),
                limit: old(self)@.limit,
            }),
    {
        proof {
            use_type_invariant(&*self);
        }
        let mut undo: VecDeque<OperationRecord> = VecDeque::new();
        let mut redo: VecDeque<OperationRecord> = VecDeque::new();
        std::mem::swap(&mut self.undo, &mut undo);
        std::mem::swap(&mut self.redo, &mut redo);
        let mut records = into_records(undo);
        let mut rest = into_records(redo);
        records.append(&mut rest);
        records
    }

    pub fn can_undo(&self) -> (can: bool)
        ensures
            can == (self@.undo.len() > 0),
    {
        self.undo.len() > 0
    }

    pub fn can_redo(&self) -> (can: bool)
        ensures
            can == (self@.redo.len() > 0),
    {
        self.redo.len() > 0
    }

    /// Record an operation, returning every record this displaced.
    ///
    /// A displaced record can never be reached again, so anything it was
    /// holding aside — a replaced file waiting to be restored — is now
    /// unreachable garbage. Returning them rather than dropping them silently
    /// is what keeps quarantines from accumulating for the life of the process.
    #[must_use]
    pub fn record(&mut self, operation: OperationRecord) -> (evicted: Vec<OperationRecord>)
        ensures
            evicted@ == old(self)@.redo + displaced(old(self)@.undo, operation, old(self)@.limit),
            final(self)@ == (JournalModel {
                undo: pushed(old(self)@.undo, operation, old(self)@.limit),
                redo: Seq::empty(),
                limit: old(self)@.limit,
            }),
    {
        proof {
            use_type_invariant(&*self);
            lemma_push_loses_nothing(self@.undo, operation, self@.limit);
        }
        let mut redo: VecDeque<OperationRecord> = VecDeque::new();
        std::mem::swap(&mut self.redo, &mut redo);
        let mut undo: VecDeque<OperationRecord> = VecDeque::new();
        std::mem::swap(&mut self.undo, &mut undo);
        let mut evicted = into_records(redo);
        let mut displaced = push_bounded(&mut undo, operation, self.limit);
        self.undo = undo;
        evicted.append(&mut displaced);
        evicted
    }

    /// Take the record the next step of `direction` would apply.
    pub fn begin(&mut self, direction: HistoryDirection) -> (operation: Option<OperationRecord>)
        ensures
            match operation {
                Some(operation) => old(self)@.stack(direction).len() > 0 && operation == old(
                    self,
                )@.stack(direction).last() && final(self)@ == old(self)@.with_stack(
                    direction,
                    old(self)@.stack(direction).drop_last(),
                ),
                None => old(self)@.stack(direction).len() == 0 && final(self)@ == old(self)@,
            },
    {
        proof {
            use_type_invariant(&*self);
        }
        let ghost before = self@;
        let mut stack: VecDeque<OperationRecord> = VecDeque::new();
        match direction {
            HistoryDirection::Undo => {
                std::mem::swap(&mut self.undo, &mut stack);
                let operation = stack.pop_back();
                self.undo = stack;
                assert(operation is Some ==> self@.undo =~= before.undo.drop_last());
                operation
            },
            HistoryDirection::Redo => {
                std::mem::swap(&mut self.redo, &mut stack);
                let operation = stack.pop_back();
                self.redo = stack;
                assert(operation is Some ==> self@.redo =~= before.redo.drop_last());
                operation
            },
        }
    }

    /// Puts an operation on the stack of `direction`.
    fn push_on(&mut self, direction: HistoryDirection, operation: OperationRecord)
        ensures
            final(self)@ == old(self)@.with_pushed(direction, operation),
    {
        proof {
            use_type_invariant(&*self);
            lemma_push_loses_nothing(self@.undo, operation, self@.limit);
            lemma_push_loses_nothing(self@.redo, operation, self@.limit);
        }
        let mut stack: VecDeque<OperationRecord> = VecDeque::new();
        match direction {
            HistoryDirection::Undo => {
                std::mem::swap(&mut self.undo, &mut stack);
                let _ = push_bounded(&mut stack, operation, self.limit);
                self.undo = stack;
            },
            HistoryDirection::Redo => {
                std::mem::swap(&mut self.redo, &mut stack);
                let _ = push_bounded(&mut stack, operation, self.limit);
                self.redo = stack;
            },
        }
    }

    /// A finished step lands its replacement on the opposite stack.
    pub fn finish(&mut self, direction: HistoryDirection, operation: OperationRecord)
        ensures
            final(self)@ == old(self)@.with_pushed(direction.other(), operation),
    {
        self.push_on(direction.opposite(), operation);
    }

    /// A step that never reached the disk goes back where it came from.
    pub fn cancel(&mut self, direction: HistoryDirection, operation: OperationRecord)
        ensures
            final(self)@ == old(self)@.with_pushed(direction, operation),
    {
        self.push_on(direction, operation);
    }

    pub fn begin_undo(&mut self) -> (operation: Option<OperationRecord>)
        ensures
            match operation {
                Some(operation) => old(self)@.undo.len() > 0 && operation == old(self)@.undo.last()
                    && final(self)@ == (JournalModel {
                    undo: old(self)@.undo.drop_last(),
                    ..old(self)@
                }),
                None => old(self)@.undo.len() == 0 && final(self)@ == old(self)@,
            },
    {
        self.begin(HistoryDirection::Undo)
    }

    pub fn finish_undo(&mut self, operation: OperationRecord)
        ensures
            final(self)@ == (JournalModel {
                redo: pushed(old(self)@.redo, operation, old(self)@.limit),
                ..old(self)@
            }),
    {
        self.finish(HistoryDirection::Undo, operation);
    }

    pub fn cancel_undo(&mut self, operation: OperationRecord)
        ensures
            final(self)@ == (JournalModel {
                undo: pushed(old(self)@.undo, operation, old(self)@.limit),
                ..old(self)@
            }),
    {
        self.cancel(HistoryDirection::Undo, operation);
    }

    pub fn begin_redo(&mut self) -> (operation: Option<OperationRecord>)
        ensures
            match operation {
                Some(operation) => old(self)@.redo.len() > 0 && operation == old(self)@.redo.last()
                    && final(self)@ == (JournalModel {
                    redo: old(self)@.redo.drop_last(),
                    ..old(self)@
                }),
                None => old(self)@.redo.len() == 0 && final(self)@ == old(self)@,
            },
    {
        self.begin(HistoryDirection::Redo)
    }

    pub fn finish_redo(&mut self, operation: OperationRecord)
        ensures
            final(self)@ == (JournalModel {
                undo: pushed(old(self)@.undo, operation, old(self)@.limit),
                ..old(self)@
            }),
    {
        self.finish(HistoryDirection::Redo, operation);
    }

    pub fn cancel_redo(&mut self, operation: OperationRecord)
        ensures
            final(self)@ == (JournalModel {
                redo: pushed(old(self)@.redo, operation, old(self)@.limit),
                ..old(self)@
            }),
    {
        self.cancel(HistoryDirection::Redo, operation);
    }
}

fn into_records(stack: VecDeque<OperationRecord>) -> (records: Vec<OperationRecord>)
    ensures
        records@ == stack@,
{
    let ghost all = stack@;
    let mut stack = stack;
    let mut records: Vec<OperationRecord> = Vec::new();
    assert(all.skip(0) =~= all);
    assert(all.take(0) =~= Seq::empty());
    while stack.len() > 0
        invariant
            records@.len() <= all.len(),
            records@ == all.take(records@.len() as int),
            stack@ == all.skip(records@.len() as int),
        decreases stack.len(),
    {
        let ghost taken = records@.len() as int;
        match stack.pop_front() {
            Some(record) => {
                records.push(record);
                assert(all.take(taken + 1) =~= all.take(taken).push(all[taken]));
                assert(all.skip(taken).subrange(1, all.len() - taken) =~= all.skip(taken + 1));
            },
            None => {},
        }
    }
    assert(all.take(records@.len() as int) =~= all);
    records
}

} // verus!
