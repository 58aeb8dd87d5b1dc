//! Whole operations, driven step by step against a disk that lives in memory.

use std::collections::{BTreeMap, BTreeSet};

use marcel::fsops::archive::{ArchiveEntry, ArchiveOutcome, MAX_EXPANDED_BYTES};
use marcel::fsops::carry::CarryAcross;
use marcel::fsops::compress::{
    create_zip_archive, create_zip_operation, SelectionEntryStep, SelectionStep, SelectionWalk,
    SourceStep, ZipOperationStep,
};
use marcel::fsops::conflict::{
    ConflictDecision, ConflictPolicy, ConflictRequest, ConflictResponse,
};
use marcel::fsops::containment::{ensure_not_self_containing, Ancestor, ContainmentStep};
use marcel::fsops::copier::{
    Copier, FileStep, MadeDirectory, MadeLink, Opened, StagedCopy, TreeStep, VisitStep,
};
use marcel::fsops::copy::{
    copy_file_cancellable, preserve_metadata, supported_xattr_name, sync_staged_directory,
    AttributeError, AttributeOutcome, BufferedCopy, BufferedStep, ContentStep, CopiedItem, Restarted,
    Synced, WholeContent,
};
use marcel::fsops::delete::{
    collect_delete_plan, delete_paths, delete_trash_backings, Approved, DeleteEntry,
    DeleteOutcome, DeletePlanStep, DeleteRollback, DeleteRollbackStep, Deletion, DeletionStep,
    ErasingStep, PlanEntryStep, PlanRootsStep, QuarantinedRoot,
};
use marcel::fsops::dropped::{kept_despite, Dropped, Kept};
use marcel::fsops::erase::{
    erase_root, DirectoryOpened, EntryPin, EraseStep, OpenWithin, ParentHeld, PinStep,
};
use marcel::fsops::extract::{
    extract_archive, extract_archive_operation, walk_staged, ExtractRecord, ExtractRecordStep,
    ExtractedStep,
    Extraction, PublishExtracted, PublishStep, PublishedStep, StagedDirectoryStep, StagedEntry,
    StagedListing, StagedName, StagedStep, StagingReserved, TopLevelError,
};
use marcel::fsops::history::{
    redo_operation, undo_operation, MoveBackStep, RedoStep, RedoTransfer, RedoTransferStep,
    RemoveCreated, RollbackMoveStep, RollbackMoves, RollbackMovesStep, UndoMovesStep, UndoStep,
};
use marcel::fsops::identity::{FileIdentity, Metadata, ObjectKey, SnapshotKind};
use marcel::fsops::journal::{
    CommittedOperation, HistoryDirection, MutationOutcome, OperationJournal, OperationRecord,
    PathSnapshot, ReplacedItem,
};
use marcel::fsops::local::{
    ensure_unoccupied, inspect, path_occupancy, require_regular_file, ListError, Lookup, Name,
    PathOccupancy, RenameError, RenameErrorKind,
};
use marcel::fsops::merge::{
    merge_directories, plan_merge, MergeFinish, MergeOutcome, MergePlan, MergePlanStep,
    MergeRemoval, MergeStep, MergeStop, PairStep, RemovalStep,
};
use marcel::fsops::moving::{
    measure_entry, move_one, MeasureStep, MoveConfirm, MoveFailure, MoveStep, Moved,
};
use marcel::fsops::mutations::{
    create_directory, create_file, rename_entry, set_mode, DirectoryToCreate, FileToCreate,
    ModeChange, Pinned, RenameReady, ReverseRename,
};
use marcel::fsops::plan::{plan_source, PlanStep, SourcePlan};
use marcel::fsops::quarantine::{
    preserve_unrestored, promote_to_recovery, quarantine_for_replacement, CandidateStep,
    HeldEntryStep, HeldStep, PromotionStep, Restoring, UnrestoredItems,
};
use marcel::fsops::snapshots::{
    refresh_snapshot_identities, remove_snapshotted_tree, top_level_paths, EntryStep,
    PartialRemoval, SnapshotStep, SnapshotWalk, Walked,
};
use marcel::fsops::sparse::{try_copy_sparse, ChunkOutcome, Seek, SparseStep};
use marcel::fsops::staging::{stage_root, ReserveStep, StageFailure, StageStep, VerifyStep};
use marcel::fsops::sweep::{
    erase_replacement_quarantine, process_entry, reclaim_abandoned_quarantines, CheckStep,
    OwnerStep, ScanStep, SweepStep,
};
use marcel::fsops::transfer::{
    transfer_changes, transfer_paths, transfer_paths_with_conflicts, transfer_paths_with_progress, FailStep,
    Transfer, TransferBudget, TransferMode, TransferOutcome, TransferStep, WorkStep,
};
use marcel::fsops::trash::{RestoredRecords, TrashMutationFailure, TrashRecord};
use marcel::fsops::working::{
    boot_id, is_internal_working_name, is_recovery_remnant_name, is_replacement_quarantine_name,
    owner_prefix, staging_prefix, BootId, Erasure, WorkingKind, RECOVERY_REMNANT_PREFIX,
};
use marcel::fsops::{PathFailure, TransferProgress};
use marcel::path::PathBuf;

const PROCESS: u32 = 4242;
const PARENT_PROCESS: u32 = 4000;
const BLOCK: usize = 4096;

fn boot() -> BootId {
    boot_id(Some(b"0123456789abcdef0123456789abcdef"))
}

fn boot_text() -> String {
    String::from_utf8(boot().as_bytes().to_vec()).unwrap()
}

// ---------------------------------------------------------------------------
// The disk.

#[derive(Clone, Debug)]
struct Node {
    kind: SnapshotKind,
    mode: u32,
    changed: i64,
    modified: i64,
    accessed: i64,
    links: u64,
    length: u64,
    data: Vec<u8>,
    /// Blocks of a file that take up space.
    blocks: BTreeSet<usize>,
    target: Vec<u8>,
    parent: u64,
    children: BTreeMap<Vec<u8>, u64>,
    attributes: BTreeMap<Vec<u8>, Vec<u8>>,
}

type Interference = Box<dyn FnMut(&mut Disk, &PathBuf)>;

struct Disk {
    nodes: BTreeMap<u64, Node>,
    next_inode: u64,
    clock: i64,
    sequence: u64,
    /// Names nothing can be renamed to.
    failing: Vec<Vec<u8>>,
    /// Directories whose entries cannot change.
    sealed: BTreeSet<u64>,
    cancelled: bool,
    /// What another writer does between looking at a source and opening it.
    interference: Option<Interference>,
    /// Directories that are held open.
    held: Vec<u64>,
    running: Vec<u32>,
    /// Directories that other filesystems are mounted on, and whether those
    /// keep nothing but names and bytes.
    mounts: Vec<(PathBuf, bool)>,
}

const ROOT: u64 = 1;

impl Disk {
    fn new() -> Disk {
        let mut disk = Disk {
            nodes: BTreeMap::new(),
            next_inode: ROOT,
            clock: 100,
            sequence: 0,
            failing: Vec::new(),
            sealed: BTreeSet::new(),
            cancelled: false,
            interference: None,
            held: Vec::new(),
            running: vec![PROCESS, PARENT_PROCESS],
            mounts: Vec::new(),
        };
        disk.add_node(SnapshotKind::Directory, 0o755);
        disk
    }

    fn add_node(&mut self, kind: SnapshotKind, mode: u32) -> u64 {
        let inode = self.next_inode;
        self.next_inode += 1;
        self.clock += 1;
        self.nodes.insert(
            inode,
            Node {
                kind,
                mode,
                changed: self.clock,
                modified: self.clock,
                accessed: self.clock,
                links: 1,
                length: 0,
                data: Vec::new(),
                blocks: BTreeSet::new(),
                target: Vec::new(),
                parent: ROOT,
                children: BTreeMap::new(),
                attributes: BTreeMap::new(),
            },
        );
        inode
    }

    fn node(&self, inode: u64) -> &Node {
        &self.nodes[&inode]
    }

    fn node_mut(&mut self, inode: u64) -> &mut Node {
        self.nodes.get_mut(&inode).unwrap()
    }

    fn touch(&mut self, inode: u64) {
        self.clock += 1;
        let clock = self.clock;
        self.node_mut(inode).changed = clock;
    }

    fn names_of(path: &PathBuf) -> Vec<Vec<u8>> {
        (0..path.name_count()).map(|i| path.name_at(i).to_vec()).collect()
    }

    /// The directory reached by following `names` from `start`, links and all.
    fn follow(&self, start: u64, names: &[Vec<u8>], depth: usize) -> Option<u64> {
        if depth > 40 {
            return None;
        }
        let mut at = start;
        for name in names {
            if name == b".." {
                at = self.node(at).parent;
                continue;
            }
            let next = *self.node(at).children.get(name)?;
            let node = self.node(next);
            at = if node.kind == SnapshotKind::Symlink {
                let target = PathBuf::from_bytes(&node.target);
                let from = if target.is_absolute() { ROOT } else { at };
                self.follow(from, &Disk::names_of(&target), depth + 1)?
            } else {
                next
            };
        }
        Some(at)
    }

    /// The directory a path is named in, and its name there.
    fn entry(&self, path: &PathBuf) -> Option<(u64, Vec<u8>)> {
        let mut names = Disk::names_of(path);
        let name = names.pop()?;
        let directory = self.follow(ROOT, &names, 0)?;
        (self.node(directory).kind == SnapshotKind::Directory).then_some((directory, name))
    }

    /// What is at a path, the last link not followed.
    fn at(&self, path: &PathBuf) -> Option<u64> {
        if path.name_count() == 0 {
            return Some(ROOT);
        }
        let (directory, name) = self.entry(path)?;
        self.node(directory).children.get(&name).copied()
    }

    fn metadata(&self, inode: u64) -> Metadata {
        let node = self.node(inode);
        Metadata {
            device: 7,
            inode,
            changed_seconds: node.changed,
            changed_nanoseconds: 0,
            kind: node.kind,
            len: node.length,
            mode: node.mode,
            links: node.links,
        }
    }

    fn found(&self, path: &PathBuf) -> Option<Metadata> {
        self.at(path).map(|inode| self.metadata(inode))
    }

    fn lookup(&self, path: &PathBuf) -> Lookup {
        match self.found(path) {
            Some(metadata) => Lookup::Found(metadata),
            None => Lookup::Missing,
        }
    }

    fn inspected(&self, path: &PathBuf) -> Result<Metadata, String> {
        self.found(path).ok_or_else(|| "No such file or directory (os error 2)".to_string())
    }

    fn names_in(&self, inode: u64) -> Vec<Name> {
        self.node(inode).children.keys().map(|name| Name::new(name.clone()).unwrap()).collect()
    }

    fn list(&self, path: &PathBuf) -> Result<Vec<Name>, ListError> {
        match self.at(path) {
            Some(inode) if self.node(inode).kind == SnapshotKind::Directory => {
                Ok(self.names_in(inode))
            }
            _ => Err(ListError::Directory),
        }
    }

    fn put(&mut self, directory: u64, name: Vec<u8>, inode: u64) -> bool {
        if self.sealed.contains(&directory) || self.node(directory).children.contains_key(&name) {
            return false;
        }
        self.node_mut(directory).children.insert(name, inode);
        self.node_mut(inode).parent = directory;
        self.touch(directory);
        true
    }

    fn add(&mut self, path: &PathBuf, kind: SnapshotKind, mode: u32) -> Option<u64> {
        let (directory, name) = self.entry(path)?;
        let inode = self.add_node(kind, mode);
        if self.put(directory, name, inode) {
            Some(inode)
        } else {
            self.nodes.remove(&inode);
            None
        }
    }

    fn make_directory(&mut self, path: &PathBuf) -> bool {
        self.add(path, SnapshotKind::Directory, 0o755).is_some()
    }

    fn make_all(&mut self, path: &PathBuf) {
        if let Some(parent) = path.parent() {
            if self.at(&parent).is_none() {
                self.make_all(&parent);
            }
        }
        if self.at(path).is_none() {
            assert!(self.make_directory(path));
        }
    }

    fn fill(&mut self, inode: u64, data: &[u8]) {
        let node = self.node_mut(inode);
        node.data = data.to_vec();
        node.length = data.len() as u64;
        node.blocks = (0..data.len().div_ceil(BLOCK)).collect();
        self.touch(inode);
    }

    fn write(&mut self, path: &PathBuf, data: &[u8]) {
        let inode = match self.at(path) {
            Some(inode) => inode,
            None => self.add(path, SnapshotKind::File, 0o644).unwrap(),
        };
        self.fill(inode, data);
    }

    fn read(&self, path: &PathBuf) -> Vec<u8> {
        let inode = self.at(path).unwrap_or_else(|| panic!("{} is missing", path.display()));
        assert_eq!(self.node(inode).kind, SnapshotKind::File);
        self.node(inode).data.clone()
    }

    fn symlink(&mut self, target: &[u8], path: &PathBuf) -> bool {
        match self.add(path, SnapshotKind::Symlink, 0o777) {
            Some(inode) => {
                self.node_mut(inode).target = target.to_vec();
                true
            }
            None => false,
        }
    }

    fn hard_link(&mut self, existing: &PathBuf, path: &PathBuf) -> bool {
        let (Some(inode), Some((directory, name))) = (self.at(existing), self.entry(path)) else {
            return false;
        };
        let made = self.put(directory, name, inode);
        if made {
            self.node_mut(inode).links += 1;
            self.touch(inode);
        }
        made
    }

    fn unlink(&mut self, directory: u64, name: &[u8], expect_directory: bool) -> bool {
        let Some(inode) = self.node(directory).children.get(name).copied() else {
            return false;
        };
        let is_directory = self.node(inode).kind == SnapshotKind::Directory;
        if self.sealed.contains(&directory)
            || is_directory != expect_directory
            || !self.node(inode).children.is_empty()
        {
            return false;
        }
        self.node_mut(directory).children.remove(name);
        self.touch(directory);
        self.node_mut(inode).links -= 1;
        if self.node(inode).links > 0 {
            self.touch(inode);
        }
        true
    }

    fn remove_file(&mut self, path: &PathBuf) -> bool {
        self.entry(path).is_some_and(|(directory, name)| self.unlink(directory, &name, false))
    }

    fn remove_directory(&mut self, path: &PathBuf) -> bool {
        self.entry(path).is_some_and(|(directory, name)| self.unlink(directory, &name, true))
    }

    fn remove_tree(&mut self, path: &PathBuf) -> bool {
        if let Ok(names) = self.list(path) {
            for name in names {
                self.remove_tree(&path.join(name.as_bytes()));
            }
            return self.remove_directory(path);
        }
        self.remove_file(path)
    }

    /// Renames without replacing anything.
    fn rename(&mut self, from: &PathBuf, to: &PathBuf) -> Result<(), RenameError> {
        let refused = |kind: RenameErrorKind, text: &str| {
            Err(RenameError { kind, text: text.to_string() })
        };
        let (Some((old, old_name)), Some((new, new_name))) = (self.entry(from), self.entry(to))
        else {
            return refused(RenameErrorKind::Other, "No such file or directory (os error 2)");
        };
        if self.failing.contains(&new_name) {
            return refused(RenameErrorKind::Other, "injected fault");
        }
        if self.mount_of(from) != self.mount_of(to) {
            return refused(
                RenameErrorKind::CrossesDevices,
                "Invalid cross-device link (os error 18)",
            );
        }
        let Some(inode) = self.node(old).children.get(&old_name).copied() else {
            return refused(RenameErrorKind::Other, "No such file or directory (os error 2)");
        };
        if self.node(new).children.contains_key(&new_name) {
            return refused(RenameErrorKind::AlreadyExists, "File exists (os error 17)");
        }
        if self.sealed.contains(&old) || self.sealed.contains(&new) {
            return refused(RenameErrorKind::Other, "Permission denied (os error 13)");
        }
        self.node_mut(old).children.remove(&old_name);
        self.node_mut(new).children.insert(new_name, inode);
        self.node_mut(inode).parent = new;
        self.touch(old);
        self.touch(new);
        self.touch(inode);
        Ok(())
    }

    /// Which of the mounted filesystems a path is on.
    fn mount_of(&self, path: &PathBuf) -> Option<usize> {
        self.mounts.iter().position(|(root, _)| path.starts_with(root))
    }

    /// Whether the filesystem a path is on keeps names and bytes only.
    fn is_bare(&self, path: &PathBuf) -> bool {
        self.mount_of(path).is_some_and(|mount| self.mounts[mount].1)
    }

    /// Renames over whatever is there, the way another writer would.
    fn rename_over(&mut self, from: &PathBuf, to: &PathBuf) {
        self.remove_tree(to);
        self.rename(from, to).unwrap();
    }

    fn set_permissions(&mut self, path: &PathBuf, mode: u32) {
        let inode = self.at(path).unwrap();
        self.node_mut(inode).mode = mode;
        self.touch(inode);
    }

    fn mode_of(&self, path: &PathBuf) -> u32 {
        self.found(path).unwrap().mode & 0o7777
    }

    fn seal(&mut self, path: &PathBuf, sealed: bool) {
        let inode = self.at(path).unwrap();
        if sealed {
            self.sealed.insert(inode);
        } else {
            self.sealed.remove(&inode);
        }
    }

    fn holds(&self, path: &PathBuf) -> bool {
        self.at(path).is_some()
    }

    fn is_dir(&self, path: &PathBuf) -> bool {
        self.found(path).is_some_and(|metadata| metadata.kind == SnapshotKind::Directory)
    }

    fn is_file(&self, path: &PathBuf) -> bool {
        self.found(path).is_some_and(|metadata| metadata.kind == SnapshotKind::File)
    }

    fn next_sequence(&mut self) -> u64 {
        self.sequence += 1;
        self.sequence - 1
    }

    fn interfere(&mut self, path: &PathBuf) {
        if let Some(mut interference) = self.interference.take() {
            interference(self, path);
            self.interference = Some(interference);
        }
    }

    fn reserve(&mut self, parent: &PathBuf, kind: WorkingKind) -> PathBuf {
        let sequence = self.next_sequence();
        let mut name = staging_prefix(kind, &boot(), PROCESS, sequence);
        name.extend_from_slice(b"a1b2c3");
        let staging = parent.join(&name);
        assert!(self.make_directory(&staging));
        staging
    }
}

// ---------------------------------------------------------------------------
// A corner of the disk to work in.

fn p(text: &str) -> PathBuf {
    PathBuf::from_bytes(text.as_bytes())
}

fn below(path: &PathBuf, text: &str) -> PathBuf {
    path.join(text.as_bytes())
}

const SANDBOX: &str = "/home/me/sandbox";

struct Sandbox {
    disk: Disk,
}

impl Sandbox {
    fn new() -> Sandbox {
        let mut disk = Disk::new();
        disk.make_all(&p(SANDBOX));
        Sandbox { disk }
    }

    fn root(&self) -> PathBuf {
        p(SANDBOX)
    }

    fn path(&self, name: &str) -> PathBuf {
        below(&self.root(), name)
    }

    fn dir(&mut self, name: &str) -> PathBuf {
        let path = self.path(name);
        self.disk.make_all(&path);
        path
    }

    fn file(&mut self, name: &str, data: impl AsRef<[u8]>) -> PathBuf {
        let path = self.path(name);
        self.disk.make_all(&path.parent().unwrap());
        self.disk.write(&path, data.as_ref());
        path
    }

    fn special(&mut self, name: &str, kind: SnapshotKind) -> PathBuf {
        let path = self.path(name);
        self.disk.make_all(&path.parent().unwrap());
        self.disk.add(&path, kind, 0o600).unwrap();
        path
    }

    fn socket(&mut self, name: &str) -> PathBuf {
        self.special(name, SnapshotKind::Socket)
    }

    fn link(&mut self, target: &PathBuf, name: &str) -> PathBuf {
        let path = self.path(name);
        assert!(self.disk.symlink(&target.to_bytes(), &path));
        path
    }

    fn names(&self, directory: &str) -> Vec<String> {
        let path = if directory.is_empty() { self.root() } else { self.path(directory) };
        let names = self.disk.list(&path).unwrap();
        names.iter().map(|name| String::from_utf8(name.as_bytes().to_vec()).unwrap()).collect()
    }
}

fn same(left: &PathBuf, right: &PathBuf) -> bool {
    left.same(right)
}

fn same_all(left: &[PathBuf], right: &[PathBuf]) -> bool {
    left.len() == right.len() && left.iter().zip(right).all(|(a, b)| a.same(b))
}

// ---------------------------------------------------------------------------
// Carrying out what each step asks for.

fn founds<'a>(disk: &Disk, paths: impl Iterator<Item = &'a PathBuf>) -> Vec<Option<Metadata>> {
    paths.map(|path| disk.found(path)).collect()
}

fn snapshot_tree(disk: &Disk, root: &PathBuf, limit: usize) -> Result<Vec<PathSnapshot>, String> {
    let mut walk = SnapshotWalk::new(root, limit);
    loop {
        walk = match walk.next() {
            SnapshotStep::Finished(snapshots) => return Ok(snapshots),
            SnapshotStep::Refused(message) => return Err(message),
            SnapshotStep::Inspect(entry) => {
                let found = disk.lookup(entry.path());
                match entry.found(found) {
                    EntryStep::Walk(walk) => walk,
                    EntryStep::Refused(message) => return Err(message),
                    EntryStep::List(list) => {
                        let names = disk.list(list.path());
                        list.listed(names)?
                    }
                }
            }
        };
    }
}

/// Everything below what a record names, as it is now.
fn walk_recorded(disk: &Disk, snapshots: &Vec<PathSnapshot>) -> Walked {
    let mut seen = Vec::new();
    for root in top_level_paths(snapshots) {
        match snapshot_tree(disk, &root, usize::MAX) {
            Ok(snapshots) => seen.extend(snapshots),
            Err(_) => return Walked::Lost(root),
        }
    }
    Walked::Seen(seen)
}

fn contain(
    disk: &Disk,
    source: &PathBuf,
    destination: &PathBuf,
    mode: TransferMode,
) -> Result<(), String> {
    let found = disk.lookup(source);
    let mut step = ensure_not_self_containing(source, destination, mode, found);
    let mut below: Option<u64> = None;
    loop {
        step = match step {
            ContainmentStep::Clear => return Ok(()),
            ContainmentStep::Refused(message) => return Err(message),
            ContainmentStep::Hold(wanted) => {
                let next = match below {
                    None => disk.follow(ROOT, &Disk::names_of(&wanted.parent), 0),
                    Some(inode) => Some(disk.node(inode).parent),
                };
                below = next;
                match next {
                    None => wanted.met(Ancestor::Unresolved),
                    Some(inode) => {
                        let key = ObjectKey::of(&disk.metadata(inode));
                        wanted.met(Ancestor::Met(key))
                    }
                }
            }
        };
    }
}

/// A name in a directory that is held open, or a whole path.
fn named(disk: &Disk, parent: Option<usize>, path: &PathBuf) -> Option<u64> {
    match parent {
        None => disk.at(path),
        Some(handle) => {
            disk.node(disk.held[handle]).children.get(path.file_name().unwrap()).copied()
        }
    }
}

fn opened_as(disk: &Disk, inode: Option<u64>, kind: SnapshotKind) -> Opened {
    match inode {
        Some(inode) if disk.node(inode).kind == kind => Opened::As(disk.metadata(inode)),
        _ => Opened::Refused,
    }
}

/// Whether the extents that hold data were copied.
fn copy_extents(
    disk: &mut Disk,
    inode: u64,
    copy: u64,
    source: &PathBuf,
    progress: &mut TransferProgress,
) -> Result<bool, String> {
    let length = disk.node(inode).length;
    let mut step = try_copy_sparse(source, Some(length));
    loop {
        let data = |disk: &Disk, offset: u64, wanted: bool| -> Seek {
            let mut block = offset as usize / BLOCK;
            let mut at = offset;
            loop {
                if at >= length {
                    return if wanted { Seek::PastEnd } else { Seek::At(length) };
                }
                if disk.node(inode).blocks.contains(&block) == wanted {
                    return Seek::At(at);
                }
                block += 1;
                at = (block * BLOCK) as u64;
            }
        };
        step = match step {
            SparseStep::Plain => return Ok(false),
            SparseStep::Failed(message) => return Err(message),
            SparseStep::SeekData(wanted) => {
                let at = data(disk, wanted.offset(), true);
                wanted.found(at)
            }
            SparseStep::SeekHole(wanted) => {
                let at = data(disk, wanted.offset(), false);
                wanted.found(at, disk.cancelled)
            }
            SparseStep::Copy(chunk) => {
                let (from, count) = chunk.range();
                let to = from + count;
                let bytes = disk.node(inode).data[from as usize..to as usize].to_vec();
                let node = disk.node_mut(copy);
                node.data.resize(node.data.len().max(to as usize), 0);
                node.data[from as usize..to as usize].copy_from_slice(&bytes);
                node.blocks.extend(from as usize / BLOCK..(to as usize).div_ceil(BLOCK));
                chunk.copied(ChunkOutcome::Copied, disk.cancelled)
            }
            SparseStep::Finish(wanted) => {
                let node = disk.node_mut(copy);
                node.data.resize(wanted.length as usize, 0);
                node.length = wanted.length;
                disk.touch(copy);
                return wanted.sized(true, progress).map(|()| true);
            }
        };
    }
}

fn copy_bytes(
    disk: &mut Disk,
    inode: u64,
    copy: u64,
    mut buffered: BufferedCopy,
    progress: &mut TransferProgress,
) -> Result<(), String> {
    let bytes = disk.node(inode).data.clone();
    let mut position = 0;
    loop {
        let reading = buffered.copy_buffered(disk.cancelled)?;
        let length = (bytes.len() - position).min(3) as u64;
        buffered = match reading.read(Some(length)) {
            BufferedStep::Done => return Ok(()),
            BufferedStep::Failed(message) => return Err(message),
            BufferedStep::Write(writing) => {
                position += length as usize;
                disk.fill(copy, &bytes[..position]);
                writing.written(true, progress)?
            }
        };
    }
}

fn copy_content(
    disk: &mut Disk,
    inode: u64,
    mut step: ContentStep,
    source: &PathBuf,
    progress: &mut TransferProgress,
) -> Result<WholeContent, String> {
    let mut copy = None;
    loop {
        step = match step {
            ContentStep::Create(wanted) => {
                copy = disk.add(&wanted.content.destination, SnapshotKind::File, wanted.mode);
                wanted.created(copy.is_some())
            }
            ContentStep::Sparse(wanted) => {
                let result = copy_extents(disk, inode, copy.unwrap(), source, progress);
                wanted.copied(result)
            }
            ContentStep::Restart(wanted) => {
                disk.fill(copy.unwrap(), b"");
                wanted.restarted(Restarted::Done)
            }
            ContentStep::Plain(wanted) => {
                let result = copy_bytes(disk, inode, copy.unwrap(), wanted.copy(), progress);
                wanted.copied(result)
            }
            ContentStep::Sync(wanted) => wanted.synced(true),
            ContentStep::Done(whole) => return Ok(whole),
            ContentStep::Failed(message) => return Err(message),
        };
    }
}

fn preserve(
    disk: &mut Disk,
    inode: u64,
    source: &PathBuf,
    destination: &PathBuf,
) -> Result<Dropped, String> {
    let copy = disk.at(destination).unwrap();
    let bare = disk.is_bare(destination);
    let names = disk.node(inode).attributes.keys().cloned().collect();
    let carry = preserve_metadata(source, destination).preserve_supported_xattrs(Ok(names))?;
    let mut outcomes = Vec::new();
    for name in &carry.names {
        if bare {
            outcomes.push(AttributeOutcome::Unsupported);
            continue;
        }
        let value = disk.node(inode).attributes[name].clone();
        disk.node_mut(copy).attributes.insert(name.clone(), value);
        outcomes.push(AttributeOutcome::Carried);
    }
    let times = carry.carried(&outcomes)?;
    let (modified, accessed) = (disk.node(inode).modified, disk.node(inode).accessed);
    disk.node_mut(copy).modified = modified;
    disk.node_mut(copy).accessed = accessed;
    let mode = times.set(true)?;
    if bare {
        return mode.set(kept_despite(AttributeError { unsupported: false, code: Some(1) }));
    }
    let bits = disk.node(inode).mode;
    disk.node_mut(copy).mode = bits;
    disk.touch(copy);
    mode.set(Kept::Done)
}

fn run_copier(
    disk: &mut Disk,
    copier: Copier,
    progress: &mut TransferProgress,
) -> Result<StagedCopy, String> {
    let mut copier = copier;
    loop {
        copier = match copier.copy_tree(disk.cancelled) {
            TreeStep::Staged(staged) => return Ok(staged),
            TreeStep::Failed(message) => return Err(message),
            TreeStep::FinishDirectory(finishing) => {
                let inode = disk.held[finishing.directory()];
                let (source, destination) =
                    (finishing.source().clone(), finishing.destination().clone());
                let result = preserve(disk, inode, &source, &destination);
                let found = disk.found(&destination);
                finishing.finished(result, found, progress)?
            }
            TreeStep::Visit(visiting) => {
                let (parent, source) = (visiting.parent, visiting.source.clone());
                let found = named(disk, parent, &source).map(|inode| disk.metadata(inode));
                match visiting.visit(found, progress) {
                    VisitStep::Failed(message) => return Err(message),
                    VisitStep::OpenDirectory(opening) => {
                        disk.interfere(&source);
                        let inode = named(disk, parent, &source);
                        let opened = opened_as(disk, inode, SnapshotKind::Directory);
                        let creating = opening.opened(opened)?;
                        let destination = creating.destination.clone();
                        let made = if disk.make_directory(&destination) {
                            disk.held.push(inode.unwrap());
                            MadeDirectory::Made {
                                created: disk.found(&destination).unwrap(),
                                directory: disk.held.len() - 1,
                                children: disk.names_in(inode.unwrap()),
                            }
                        } else {
                            MadeDirectory::NotCreated
                        };
                        creating.created(made)?
                    }
                    VisitStep::OpenFile(opening) => {
                        disk.interfere(&source);
                        let inode = named(disk, parent, &source);
                        let opened = opened_as(disk, inode, SnapshotKind::File);
                        let preserving = match opening.copy_regular_file(opened) {
                            FileStep::Failed(message) => return Err(message),
                            FileStep::Link(linking) => {
                                let made =
                                    disk.hard_link(&linking.existing, &linking.destination);
                                linking.linked(made, progress)?
                            }
                            FileStep::Content(content) => {
                                let result = copy_content(
                                    disk,
                                    inode.unwrap(),
                                    content.content(),
                                    &source,
                                    progress,
                                );
                                content.copied(result)?
                            }
                        };
                        let destination = preserving.destination.clone();
                        let result = preserve(disk, inode.unwrap(), &source, &destination);
                        let created = disk.found(&destination);
                        preserving.preserved(result, created, progress)?
                    }
                    VisitStep::CopyLink(linking) => {
                        let inode = named(disk, parent, &source).unwrap();
                        let target = disk.node(inode).target.clone();
                        let destination = linking.destination.clone();
                        let made = if disk.is_bare(&destination) {
                            MadeLink::Unsupported
                        } else if disk.symlink(&target, &destination) {
                            MadeLink::Made(disk.found(&destination).unwrap())
                        } else {
                            MadeLink::NotCreated
                        };
                        linking.linked(made, progress)?
                    }
                }
            }
        };
    }
}

fn copy_one(
    disk: &mut Disk,
    source: &PathBuf,
    destination: &PathBuf,
    limit: usize,
    progress: &mut TransferProgress,
) -> Result<CopiedItem, String> {
    let found = disk.lookup(destination);
    let preparing = marcel::fsops::copy::copy_one(source, destination, limit, &found)?;
    let verdict = contain(disk, source, destination, TransferMode::Copy);
    let wanted = preparing.contained(verdict)?;
    let staging = disk.reserve(&wanted.parent, WorkingKind::Copy);
    let (copier, publish) = wanted.reserved(Some(staging.clone()))?;
    let staged = run_copier(disk, copier, progress);
    let result = staged.and_then(|staged| {
        for directory in &staged.directories {
            sync_staged_directory(directory, Synced::Done)?;
        }
        let renamed = disk.rename(&publish.staged, &publish.destination).is_ok();
        publish.published(staged, renamed)
    });
    disk.remove_tree(&staging);
    let confirm = result?;
    let found = founds(disk, confirm.created.iter().map(|snapshot| &snapshot.path));
    Ok(confirm.confirmed(&found))
}

fn merge_plan(disk: &Disk, source: &PathBuf, target: &PathBuf) -> Result<MergePlan, String> {
    let mut planner = plan_merge(source, target);
    loop {
        planner = match planner.next() {
            MergePlanStep::Planned(plan) => return Ok(plan),
            MergePlanStep::Inspect(wanted) => {
                let source = disk.lookup(&wanted.pair.source);
                let destination = disk.lookup(&wanted.pair.destination);
                match wanted.found(source, &destination) {
                    PairStep::Next(planner) => planner,
                    PairStep::Failed(message) => return Err(message),
                    PairStep::List(wanted) => {
                        let names = disk.list(&wanted.pair.source);
                        wanted.listed(names)?
                    }
                }
            }
        };
    }
}

fn merge_into(
    disk: &mut Disk,
    source: &PathBuf,
    target: &PathBuf,
    limit: usize,
    progress: &mut TransferProgress,
) -> MergeOutcome {
    let plan = merge_plan(disk, source, target);
    let finish = |disk: &Disk, finish: MergeFinish| {
        for directory in finish.touched() {
            assert!(disk.is_dir(&directory));
        }
        let made = &finish.merge.plan.directories[..finish.merge.made];
        let found = founds(disk, made.iter());
        finish.described(&found)
    };
    let mut merge = match merge_directories(plan, limit) {
        Ok(merge) => merge,
        Err(outcome) => return outcome,
    };
    loop {
        let next = match merge.next(disk.cancelled) {
            MergeStep::Finish(done) => return finish(disk, done),
            MergeStep::MakeDirectory(wanted) => {
                let created = disk.make_directory(&wanted.directory);
                wanted.made(created)
            }
            MergeStep::CopyLeaf(wanted) => {
                let (source, destination) = (wanted.source.clone(), wanted.destination.clone());
                let result =
                    copy_one(disk, &source, &destination, wanted.snapshot_limit, progress);
                wanted.copied(result)
            }
        };
        merge = match next {
            Ok(merge) => merge,
            Err(done) => return finish(disk, done),
        };
    }
}

type Answer<'a> = &'a mut dyn FnMut(&ConflictRequest) -> ConflictDecision;

fn nobody(_: &ConflictRequest) -> ConflictDecision {
    panic!("nobody can be asked")
}

fn plan_target(
    disk: &Disk,
    source: &PathBuf,
    directory: &PathBuf,
    target: PathBuf,
    mode: TransferMode,
    interactive: bool,
    policy: &mut ConflictPolicy,
    answer: Answer,
) -> SourcePlan {
    let found = disk.inspected(source);
    let mut step = plan_source(source, directory, target, mode, interactive, found);
    loop {
        step = match step {
            PlanStep::Done(plan) => return plan,
            PlanStep::Inspect(wanted) => {
                let found = disk.lookup(&wanted.target);
                wanted.found(found)
            }
            PlanStep::FindName(wanted) => {
                let found = disk.lookup(&wanted.candidate());
                wanted.found(&found)
            }
            PlanStep::Ask(wanted) => match wanted.known(policy) {
                Ok(step) => step,
                Err(wanted) => {
                    let decision = answer(&wanted.request);
                    wanted.decided(decision, policy)
                }
            },
        };
    }
}

fn set_aside(disk: &mut Disk, path: &PathBuf) -> Result<ReplacedItem, String> {
    let prefix = owner_prefix(WorkingKind::Replaced, &boot(), PROCESS);
    let found = disk.lookup(path);
    let mut quarantining = quarantine_for_replacement(path, prefix, found)?;
    loop {
        let sequence = disk.next_sequence();
        let wanted = quarantining.next(sequence)?;
        let found = disk.lookup(&wanted.candidate);
        quarantining = match wanted.found(&found) {
            CandidateStep::Again(quarantining) => quarantining,
            CandidateStep::Failed(message) => return Err(message),
            CandidateStep::Rename(wanted) => {
                let renamed = disk.rename(&wanted.path, &wanted.candidate).is_ok();
                let confirm = wanted.renamed(renamed)?;
                let found = disk.found(&confirm.candidate);
                return confirm.found(found);
            }
        };
    }
}

fn promote(disk: &mut Disk, item: &ReplacedItem) -> Result<PathBuf, String> {
    let mut promoting = promote_to_recovery(item)?;
    loop {
        let sequence = disk.next_sequence();
        let wanted = promoting.next(sequence)?;
        let renamed = disk.rename(&item.quarantine, &wanted.candidate);
        promoting = match wanted.renamed(renamed.map_err(|error| error.kind)) {
            PromotionStep::Promoted(path) => return Ok(path),
            PromotionStep::Failed(message) => return Err(message),
            PromotionStep::Again(promoting) => promoting,
        };
    }
}

fn keep_unrestored(disk: &mut Disk, unrestored: UnrestoredItems) -> String {
    let mut promoted = Vec::new();
    for item in &unrestored.remaining {
        promoted.push(promote(disk, item));
    }
    preserve_unrestored(unrestored, &promoted)
}

fn restore(disk: &mut Disk, restoring: Restoring) -> Result<(), String> {
    let mut restoring = restoring;
    loop {
        let Some(check) = restoring.next() else {
            return Ok(());
        };
        let found = disk.found(&check.item.quarantine);
        let put_back = match check.found(found) {
            Ok(put_back) => put_back,
            Err(unrestored) => return Err(keep_unrestored(disk, unrestored)),
        };
        let renamed = disk.rename(&put_back.item.quarantine, &put_back.item.path).is_ok();
        restoring = match put_back.renamed(renamed) {
            Ok(restoring) => restoring,
            Err(unrestored) => return Err(keep_unrestored(disk, unrestored)),
        };
    }
}

fn release(disk: &mut Disk, item: &ReplacedItem) {
    let found = disk.found(&item.quarantine);
    match erase_replacement_quarantine(item, found) {
        Erasure::Leave => {}
        Erasure::RemoveTree => assert!(disk.remove_tree(&item.quarantine)),
        Erasure::RemoveFile => assert!(disk.remove_file(&item.quarantine)),
    }
}

fn held_bytes(disk: &Disk, item: Option<&ReplacedItem>) -> u64 {
    let Some(item) = item else {
        return 0;
    };
    let mut held = item.bytes();
    loop {
        held = match held.next() {
            HeldStep::Total(total) => return total,
            HeldStep::Inspect(wanted) => {
                let found = disk.found(&wanted.path);
                match wanted.found(found) {
                    HeldEntryStep::Next(held) => held,
                    HeldEntryStep::List(list) => {
                        let names = disk.list(&list.path).unwrap_or_default();
                        list.listed(&names)
                    }
                }
            }
        };
    }
}

fn measure(disk: &Disk, source: &PathBuf, progress: &mut TransferProgress) {
    let mut measuring = measure_entry(source);
    while let Some(wanted) = measuring.next(disk.cancelled) {
        let found = disk.found(&wanted.path);
        measuring = match wanted.found(found, progress) {
            MeasureStep::Next(measuring) => measuring,
            MeasureStep::List(list) => {
                let names = disk.list(&list.path).unwrap_or_default();
                list.listed(&names)
            }
        };
    }
}

fn run_transfer(
    disk: &mut Disk,
    transfer: Transfer,
    progress: &mut TransferProgress,
    answer: Answer,
) -> TransferOutcome {
    let mut policy = ConflictPolicy::new();
    let mut transfer = transfer;
    loop {
        let wanted = match transfer.run(disk.cancelled, progress) {
            TransferStep::Finished(finished) => {
                for item in &finished.release {
                    release(disk, item);
                }
                return finished.outcome;
            }
            TransferStep::Next(next) => {
                transfer = next;
                continue;
            }
            TransferStep::Plan(wanted) => wanted,
        };
        let plan = plan_target(
            disk,
            wanted.source(),
            wanted.destination(),
            wanted.target().clone(),
            wanted.mode(),
            wanted.interactive(),
            &mut policy,
            answer,
        );
        let mut step = wanted.planned(plan, progress);
        if let WorkStep::Quarantine(wanted) = step {
            let target = wanted.target().clone();
            let result = set_aside(disk, &target);
            step = wanted.quarantined(result, progress);
        }
        let failed = match step {
            WorkStep::Quarantine(_) => unreachable!("an item is moved aside once"),
            WorkStep::Next(next) => {
                transfer = next;
                continue;
            }
            WorkStep::Merge(wanted) => {
                let (source, target) = (wanted.source().clone(), wanted.target().clone());
                let outcome = merge_into(disk, &source, &target, wanted.limit(), progress);
                transfer = wanted.merged(outcome);
                continue;
            }
            WorkStep::Copy(wanted) => {
                let (source, target) = (wanted.source().clone(), wanted.target().clone());
                match copy_one(disk, &source, &target, wanted.limit(), progress) {
                    Ok(copied) => {
                        let bytes = held_bytes(disk, wanted.displaced());
                        let (next, released) = wanted.copied(copied, bytes);
                        released.iter().for_each(|item| release(disk, item));
                        transfer = next;
                        continue;
                    }
                    Err(message) => wanted.failed(message),
                }
            }
            WorkStep::Move(wanted) => {
                let (source, target) = (wanted.source().clone(), wanted.target().clone());
                match run_move(disk, &source, &target, wanted.limit()) {
                    Ok(moved) => {
                        let bytes = held_bytes(disk, wanted.displaced());
                        let (next, released) = wanted.moved(moved, bytes, progress);
                        released.iter().for_each(|item| release(disk, item));
                        transfer = next;
                        continue;
                    }
                    Err(failure) => {
                        let (step, released) = wanted.failed(failure);
                        released.iter().for_each(|item| release(disk, item));
                        step
                    }
                }
            }
        };
        transfer = match failed {
            FailStep::Next(next) => next,
            FailStep::Restore(wanted) => {
                let items = vec![wanted.item().clone()];
                let restoring = marcel::fsops::quarantine::restore_replaced_items(items);
                let result = restore(disk, restoring);
                wanted.restored(result)
            }
        };
    }
}

fn run_move(
    disk: &mut Disk,
    source: &PathBuf,
    target: &PathBuf,
    limit: usize,
) -> Result<Moved, MoveFailure> {
    let found = disk.lookup(target);
    let preparing = move_one(source, target, limit, &found)?;
    let verdict = contain(disk, source, target, TransferMode::Move);
    let ready = preparing.contained(verdict)?;
    let prepared = snapshot_tree(disk, source, limit).ok();
    let renamed = disk.rename(&ready.source, &ready.destination);
    let confirm = match ready.renamed(prepared, renamed) {
        MoveStep::Confirm(confirm) => confirm,
        MoveStep::Carry(across) => carry(disk, across)?,
        MoveStep::Failed(failure) => return Err(failure),
    };
    let found = match &confirm.expected_state {
        Some(state) => founds(disk, state.iter().map(|snapshot| &snapshot.path)),
        None => Vec::new(),
    };
    Ok(confirm.confirmed(&found))
}

/// Copies to another filesystem, checks, publishes, and removes the original.
fn carry(disk: &mut Disk, across: CarryAcross) -> Result<MoveConfirm, MoveFailure> {
    let refused = MoveFailure::refused;
    let mut progress = TransferProgress::default();
    let (wanted, checking) = across.stage().map_err(refused)?;
    let staging = disk.reserve(&wanted.parent, WorkingKind::Copy);
    let (copier, publish) = wanted.reserved(Some(staging.clone())).map_err(refused)?;
    let result = run_copier(disk, copier, &mut progress).and_then(|staged| {
        disk.interfere(&publish.staged);
        let original = walk_recorded(disk, &staged.sources.snapshots);
        let copy = walk_recorded(disk, &staged.created.snapshots);
        checking.staged(publish, staged, &original, &copy)
    });
    let removal = result.map_err(refused).and_then(|checked| {
        let renamed = disk.rename(&checked.publish.staged, &checked.publish.destination).is_ok();
        checked.renamed(renamed)
    });
    disk.remove_tree(&staging);
    let removal = removal?;
    let deletion = removal.remove(&mut progress);
    let outcome = run_deletion(disk, deletion, &mut progress);
    removal.deleted(outcome)
}

fn stage(
    disk: &mut Disk,
    original: &PathBuf,
    expected: Option<ObjectKey>,
    allow_trash_backings: bool,
) -> Result<PathBuf, StageFailure> {
    let refused = StageFailure::refused;
    let inspecting = match stage_root(original, expected, allow_trash_backings) {
        StageStep::CheckTrash(check) => check.overlaps(Ok(false)).map_err(refused)?,
        StageStep::Inspect(inspecting) => inspecting,
    };
    let found = disk.inspected(original);
    let mut reserving = inspecting.found(found, PROCESS).map_err(refused)?;
    let ready = loop {
        let sequence = disk.next_sequence();
        let wanted = reserving.reserve_quarantine_path(sequence).map_err(refused)?;
        let found = disk.lookup(&wanted.candidate);
        reserving = match wanted.found(&found) {
            ReserveStep::Again(reserving) => reserving,
            ReserveStep::Failed(message) => return Err(refused(message)),
            ReserveStep::Ready(ready) => break ready,
        };
    };
    let rename = ready.validated(disk.inspected(original)).map_err(refused)?;
    let renamed = disk.rename(&rename.original, &rename.quarantine);
    let verify = rename.renamed(renamed).map_err(refused)?;
    let found = disk.inspected(&verify.quarantine);
    match verify.found(found) {
        VerifyStep::Staged(path) => Ok(path),
        VerifyStep::PutBack(put_back) => {
            let renamed = disk.rename(&put_back.quarantine, &put_back.original);
            Err(put_back.renamed(renamed))
        }
    }
}

fn roll_back(disk: &mut Disk, rollback: DeleteRollback) -> DeleteOutcome {
    let mut rollback = rollback;
    loop {
        rollback = match rollback.rollback_quarantines() {
            DeleteRollbackStep::Done(outcome) => return outcome,
            DeleteRollbackStep::Rename(wanted) => {
                let renamed = disk.rename(&wanted.root.quarantine, &wanted.root.original).is_ok();
                match wanted.failed_after_rollback(renamed) {
                    Ok(rollback) => rollback,
                    Err(outcome) => return outcome,
                }
            }
        };
    }
}

fn delete_plan(
    disk: &Disk,
    path: &PathBuf,
    progress: &mut TransferProgress,
) -> Result<Vec<DeleteEntry>, String> {
    let mut planner = collect_delete_plan(path);
    loop {
        planner = match planner.next() {
            DeletePlanStep::Planned(entries) => return Ok(entries),
            DeletePlanStep::Inspect(wanted) => {
                let found = disk.lookup(&wanted.path);
                match wanted.found(found, progress) {
                    PlanEntryStep::Next(planner) => planner,
                    PlanEntryStep::Failed(message) => return Err(message),
                    PlanEntryStep::List(list) => {
                        let names = disk.list(&list.path);
                        list.listed(names)?
                    }
                }
            }
        };
    }
}

fn erase(
    disk: &mut Disk,
    root: QuarantinedRoot,
    progress: &mut TransferProgress,
) -> Vec<PathFailure> {
    let wanted = match erase_root(root) {
        Ok(wanted) => wanted,
        Err(failures) => return failures,
    };
    let outside = disk.follow(ROOT, &Disk::names_of(&wanted.outside), 0);
    let mut erasing = match wanted.opened(outside.is_some()) {
        Ok(erasing) => erasing,
        Err(failures) => return failures,
    };
    let outside = outside.unwrap();
    let (mut root, mut last) = (outside, outside);
    let child = |disk: &Disk, directory: u64, name: &[u8]| {
        disk.node(directory).children.get(name).copied()
    };
    loop {
        let mut step = erasing.next(progress);
        while let EraseStep::Open(open) = step {
            let within = match open.within {
                OpenWithin::Outside => outside,
                OpenWithin::Root => root,
                OpenWithin::Last => last,
            };
            let inode = child(disk, within, &open.name);
            let opened = match inode {
                Some(inode) if disk.node(inode).kind == SnapshotKind::Directory => {
                    match open.within {
                        OpenWithin::Outside => root = inode,
                        _ => last = inode,
                    }
                    DirectoryOpened::As(disk.metadata(inode))
                }
                _ => DirectoryOpened::Refused("Not a directory (os error 20)".to_string()),
            };
            step = open.opened(opened);
        }
        let wanted = match step {
            EraseStep::Open(_) => unreachable!("every open was answered"),
            EraseStep::Done(failures) => return failures,
            EraseStep::Next(next) => {
                erasing = next;
                continue;
            }
            EraseStep::Pin(wanted) => wanted,
        };
        let held = |within: ParentHeld| match within {
            ParentHeld::Outside => outside,
            ParentHeld::Root => root,
            ParentHeld::Below => last,
        };
        let pin = match child(disk, held(wanted.within), &wanted.name) {
            Some(inode) => EntryPin::As(disk.metadata(inode)),
            None => EntryPin::Refused("No such file or directory (os error 2)".to_string()),
        };
        erasing = match wanted.pinned(pin) {
            PinStep::Next(next) => next,
            PinStep::Unlink(wanted) => {
                let directory = held(wanted.within);
                let gone = disk.unlink(directory, &wanted.name, wanted.directory);
                wanted.unlinked(gone, progress)
            }
        };
    }
}

fn run_deletion(
    disk: &mut Disk,
    deletion: Deletion,
    progress: &mut TransferProgress,
) -> DeleteOutcome {
    let mut deletion = deletion;
    let mut roots = loop {
        match deletion.next() {
            DeletionStep::Plan(roots) => break roots,
            DeletionStep::Stage(wanted) => {
                let allow = wanted.deletion.allow_trash_backings;
                let original = wanted.original.clone();
                let result = stage(disk, &original, wanted.expected, allow);
                deletion = match wanted.staged(result) {
                    Ok(deletion) => deletion,
                    Err(rollback) => return roll_back(disk, rollback),
                };
            }
        }
    };
    let mut erasing = loop {
        match roots.next(progress) {
            PlanRootsStep::Erase(erasing) => break erasing,
            PlanRootsStep::Collect(wanted) => {
                let result = delete_plan(disk, &wanted.quarantine, progress);
                roots = match wanted.collected(result) {
                    Ok(roots) => roots,
                    Err(rollback) => return roll_back(disk, rollback),
                };
            }
        }
    };
    loop {
        erasing = match erasing.next(progress) {
            ErasingStep::Done(outcome) => return outcome,
            ErasingStep::Erase(wanted) => {
                let root = QuarantinedRoot {
                    original: wanted.root.original.clone(),
                    quarantine: wanted.root.quarantine.clone(),
                    entries: copy_entries(&wanted.root.entries),
                };
                let quarantine = root.quarantine.clone();
                let failures = erase(disk, root, progress);
                let gone = !disk.holds(&quarantine);
                wanted.erased(failures, gone)
            }
        };
    }
}

fn copy_entries(entries: &[DeleteEntry]) -> Vec<DeleteEntry> {
    entries
        .iter()
        .map(|entry| DeleteEntry {
            path: entry.path.clone(),
            identity: entry.identity,
            kind: entry.kind,
            bytes: entry.bytes,
        })
        .collect()
}

fn delete_with(
    disk: &mut Disk,
    paths: &[PathBuf],
    progress: &mut TransferProgress,
) -> DeleteOutcome {
    let deletion = delete_paths(&paths.to_vec(), progress);
    run_deletion(disk, deletion, progress)
}

fn delete(disk: &mut Disk, paths: &[PathBuf]) -> DeleteOutcome {
    delete_with(disk, paths, &mut TransferProgress::default())
}

fn run_removal(disk: &mut Disk, removal: MergeRemoval) -> Result<(), PartialRemoval> {
    let mut removal = removal;
    loop {
        removal = match removal.next() {
            RemovalStep::Removed(_) => return Ok(()),
            RemovalStep::Inspect(wanted) => {
                let found = disk.found(&wanted.item.path);
                let wanted = wanted.found(found)?;
                let gone = if wanted.directory {
                    disk.remove_directory(&wanted.path)
                } else {
                    disk.remove_file(&wanted.path)
                };
                wanted.removed(gone)?
            }
        };
    }
}

fn remove_created(disk: &mut Disk, removal: RemoveCreated) -> MutationOutcome {
    let walked = walk_recorded(disk, &removal.created);
    let deleting = match removal.walked(&walked) {
        Ok(deleting) => deleting,
        Err(outcome) => return outcome,
    };
    let outcome = delete(disk, &deleting.roots);
    let (restoring, displaced) = match deleting.deleted(outcome) {
        Ok(next) => next,
        Err(outcome) => return outcome,
    };
    let result = restore(disk, restoring);
    displaced.restored(result)
}

fn roll_back_moves(disk: &mut Disk, rollback: RollbackMoves) -> MutationOutcome {
    let mut rollback = rollback;
    loop {
        rollback = match rollback.rollback_undone_moves() {
            RollbackMovesStep::Done(outcome) => return outcome,
            RollbackMovesStep::Rename(wanted) => {
                let renamed = disk.rename(&wanted.source, &wanted.destination);
                match wanted.renamed(renamed.map_err(|error| error.kind)) {
                    RollbackMoveStep::Next(rollback) => rollback,
                    RollbackMoveStep::Failed(outcome) => return outcome,
                    RollbackMoveStep::Carry(across, wanted) => {
                        let result = carry(disk, across);
                        match wanted.carried(result) {
                            Ok(rollback) => rollback,
                            Err(outcome) => return outcome,
                        }
                    }
                }
            }
        };
    }
}

fn commit_rename(disk: &mut Disk, ready: RenameReady) -> Result<CommittedOperation, String> {
    let renamed = disk.rename(&ready.from, &ready.to).is_ok();
    let found = disk.found(&ready.to);
    ready.rename_committing(renamed, found)
}

fn reverse(disk: &mut Disk, rename: ReverseRename) -> MutationOutcome {
    let renamed = disk.found(&rename.destination);
    let before = disk.lookup(&rename.source);
    let result = rename.checked(renamed, &before).and_then(|ready| commit_rename(disk, ready));
    MutationOutcome::from(result)
}

fn change(disk: &mut Disk, change: ModeChange) -> Result<CommittedOperation, String> {
    let path = change.path.clone();
    let pinned = match disk.found(&path) {
        Some(metadata) => Pinned::As(metadata),
        None => Pinned::Gone,
    };
    let ready = change.change_mode(pinned)?;
    disk.set_permissions(&path, ready.to);
    let found = disk.found(&path);
    ready.changed(true, found)
}

fn undo(disk: &mut Disk, operation: &OperationRecord) -> MutationOutcome {
    match undo_operation(operation) {
        UndoStep::CheckDirectory(entry) => {
            let found = disk.found(&entry.path);
            let empty = disk.list(&entry.path).ok().map(|names| names.is_empty());
            match entry.directory_checked(found, empty, found) {
                Ok(removal) => {
                    let gone = disk.remove_directory(&removal.path);
                    removal.removed(gone)
                }
                Err(outcome) => outcome,
            }
        }
        UndoStep::CheckFile(entry) => {
            let found = disk.found(&entry.path);
            match entry.file_checked(found, found) {
                Ok(removal) => {
                    let gone = disk.remove_file(&removal.path);
                    removal.removed(gone)
                }
                Err(outcome) => outcome,
            }
        }
        UndoStep::ValidateCreated(validate) => {
            let walked = walk_recorded(disk, &validate.created);
            let (removal, next) = match validate.walked(&walked) {
                Ok(next) => next,
                Err(outcome) => return outcome,
            };
            let result = run_removal(disk, removal);
            match next.removed(result) {
                Ok(removal) => remove_created(disk, removal),
                Err(outcome) => outcome,
            }
        }
        UndoStep::RemoveCreated(removal) => remove_created(disk, removal),
        UndoStep::ValidateMoves(validate) => {
            let walked = validate
                .transfers
                .iter()
                .map(|transfer| walk_recorded(disk, &transfer.expected_state))
                .collect();
            let found =
                validate.transfers.iter().map(|transfer| disk.lookup(&transfer.source)).collect();
            let mut moves = match validate.validated(&walked, &found) {
                Ok(moves) => moves,
                Err(outcome) => return outcome,
            };
            loop {
                moves = match moves.next() {
                    UndoMovesStep::Restore(restoring, next) => {
                        let result = restore(disk, restoring);
                        return next.restored(result);
                    }
                    UndoMovesStep::Rename(back) => {
                        let (from, to) =
                            (back.transfer.destination.clone(), back.transfer.source.clone());
                        let renamed = disk.rename(&from, &to);
                        let mut step = back.renamed(renamed);
                        if let MoveBackStep::Carry(across, wanted) = step {
                            let result = carry(disk, across);
                            step = wanted.carried(result);
                        }
                        match step {
                            MoveBackStep::Carry(..) => unreachable!("an entry is carried once"),
                            MoveBackStep::Stopped(outcome) => return outcome,
                            MoveBackStep::Rollback(rollback) => {
                                return roll_back_moves(disk, rollback)
                            }
                            MoveBackStep::Confirm(confirm) => {
                                let state = confirm.expected_state.iter();
                                let found = founds(disk, state.map(|snapshot| &snapshot.path));
                                confirm.found(&found)
                            }
                        }
                    }
                };
            }
        }
        UndoStep::RestoreTrash(_) | UndoStep::Retrash(_) => panic!("there is no Trash here"),
        UndoStep::Rename(rename) => reverse(disk, rename),
        UndoStep::Mode(mode) => MutationOutcome::from(change(disk, mode)),
    }
}

fn transfer_again(disk: &mut Disk, redo: RedoTransfer) -> MutationOutcome {
    let transfer = transfer_paths(redo.sources.clone(), redo.destination.clone(), redo.mode);
    let mut progress = TransferProgress::default();
    let outcome = run_transfer(disk, transfer, &mut progress, &mut nobody);
    match redo.redo_transfer(outcome) {
        RedoTransferStep::Done(outcome) => outcome,
        RedoTransferStep::Undo(rollback) => {
            let outcome = undo(disk, &rollback.partial);
            rollback.undone(outcome)
        }
    }
}

fn redo(disk: &mut Disk, operation: &OperationRecord) -> MutationOutcome {
    redo_with(disk, operation, Backend::Packing)
}

fn redo_with(disk: &mut Disk, operation: &OperationRecord, backend: Backend) -> MutationOutcome {
    match redo_operation(operation) {
        RedoStep::CreateDirectory(wanted) => MutationOutcome::from(make(disk, wanted)),
        RedoStep::CreateFile(wanted) => MutationOutcome::from(make_file(disk, wanted)),
        RedoStep::ValidateCopy(copy) => {
            let walked = walk_recorded(disk, &copy.sources);
            match copy.walked(&walked) {
                Ok(redo) => transfer_again(disk, redo),
                Err(outcome) => outcome,
            }
        }
        RedoStep::ValidateMoves(moves) => {
            let walked = moves
                .transfers
                .iter()
                .map(|transfer| walk_recorded(disk, &transfer.expected_state))
                .collect();
            match moves.validated(&walked) {
                Ok(redo) => transfer_again(disk, redo),
                Err(outcome) => outcome,
            }
        }
        RedoStep::Retrash(_) | RedoStep::RestoreTrash(_) => panic!("there is no Trash here"),
        RedoStep::Rename(rename) => reverse(disk, rename),
        RedoStep::Mode(mode) => MutationOutcome::from(change(disk, mode)),
        RedoStep::ValidateZip(zip) => {
            let walked = walk_recorded(disk, &zip.sources);
            match zip.walked(&walked) {
                Ok(again) => MutationOutcome::from(compress_operation(
                    disk,
                    backend,
                    &again.sources,
                    &again.destination,
                )),
                Err(outcome) => outcome,
            }
        }
        RedoStep::ValidateExtract(extract) => {
            let walked = walk_recorded(disk, &extract.source);
            match extract.walked(&walked) {
                Ok(archive) => MutationOutcome::from(extract_operation(
                    disk,
                    backend,
                    &archive,
                    false,
                    &mut nobody,
                )),
                Err(outcome) => outcome,
            }
        }
    }
}

fn make(disk: &mut Disk, wanted: DirectoryToCreate) -> Result<CommittedOperation, String> {
    let created = disk.make_directory(&wanted.path);
    let found = disk.found(&wanted.path);
    wanted.create_directory_at(created, found)
}

fn make_file(disk: &mut Disk, wanted: FileToCreate) -> Result<CommittedOperation, String> {
    let created = disk.add(&wanted.path, SnapshotKind::File, 0o644).is_some();
    let opened = disk.found(&wanted.path);
    wanted.create_file_at(created, opened)
}

fn new_directory(
    disk: &mut Disk,
    parent: &PathBuf,
    name: &str,
) -> Result<CommittedOperation, String> {
    create_directory(parent, name).and_then(|wanted| make(disk, wanted))
}

fn new_file(disk: &mut Disk, parent: &PathBuf, name: &str) -> Result<CommittedOperation, String> {
    create_file(parent, name).and_then(|wanted| make_file(disk, wanted))
}

fn rename_to(disk: &mut Disk, source: &PathBuf, name: &str) -> Result<CommittedOperation, String> {
    let check = rename_entry(source, name)?;
    let destination = disk.lookup(&check.destination);
    let found = disk.lookup(source);
    let again = disk.found(source);
    let ready = check.checked(&destination, found, again)?;
    commit_rename(disk, ready)
}

fn chmod(disk: &mut Disk, path: &PathBuf, mode: u32) -> Result<CommittedOperation, String> {
    let found = disk.lookup(path);
    let wanted = set_mode(path, mode, found)?;
    change(disk, wanted)
}

fn sweep(disk: &mut Disk, directory: &PathBuf) -> usize {
    let names = disk.list(directory).unwrap();
    let mut sweep = reclaim_abandoned_quarantines(directory.clone(), names, boot(), PROCESS);
    loop {
        sweep = match sweep.next() {
            SweepStep::Finished(released) => return released,
            SweepStep::Next(sweep) => sweep,
            SweepStep::Owner(wanted) => {
                let running = disk.running.contains(&wanted.owner.process);
                match wanted.running(running) {
                    OwnerStep::Next(sweep) => sweep,
                    OwnerStep::Scan(wanted) => {
                        let scanned = disk.found(&wanted.path);
                        match wanted.scanned(scanned) {
                            ScanStep::Next(sweep) => sweep,
                            ScanStep::Check(check) => {
                                let found = disk.found(&check.path);
                                match check.found(found) {
                                    CheckStep::Next(sweep) => sweep,
                                    CheckStep::Erase(entry) => {
                                        let path = entry.path.clone();
                                        let removed = if entry.tree {
                                            disk.remove_tree(&path)
                                        } else {
                                            disk.remove_file(&path)
                                        };
                                        entry.removed(removed)
                                    }
                                }
                            }
                        }
                    }
                }
            }
        };
    }
}

// ---------------------------------------------------------------------------
// Archives.

/// What stands in for the archive program.
#[derive(Clone, Copy)]
enum Backend {
    One,
    Multiple,
    Symlink,
    Empty,
    OversizedSparse,
    ReservedName,
    /// Leaves one tar, and what is in the tar the second time.
    WrappedTar,
    /// Keeps what it is given: a name, a line break, the bytes.
    Packing,
}

impl Backend {
    fn list(self, disk: &Disk, archive: &PathBuf) -> Result<Vec<ArchiveEntry>, String> {
        let (path, size) = match self {
            Backend::Packing => {
                let packed = disk.read(archive);
                let cut = packed.iter().position(|byte| *byte == b'\n').unwrap();
                (PathBuf::from_bytes(&packed[..cut]), (packed.len() - cut - 1) as u64)
            }
            _ => (p("file.txt"), 4),
        };
        Ok(vec![ArchiveEntry { path, size, is_dir: false }])
    }

    fn extract(
        self,
        disk: &mut Disk,
        archive: &PathBuf,
        destination: &PathBuf,
    ) -> Result<(), String> {
        let staging = destination.parent().unwrap();
        assert!(is_internal_working_name(staging.file_name().unwrap(), &boot()));
        match self {
            Backend::One => disk.write(&below(destination, "file.txt"), b"test"),
            Backend::Multiple => {
                disk.write(&below(destination, "one.txt"), b"one");
                disk.write(&below(destination, "two.txt"), b"two");
            }
            Backend::Symlink => {
                assert!(disk.symlink(b"../outside", &below(destination, "link")));
            }
            Backend::Empty => {}
            Backend::ReservedName => {
                disk.make_directory(&below(destination, ".marcel-copy-x"));
                disk.write(&below(destination, ".marcel-copy-x/file.txt"), b"hidden");
            }
            Backend::OversizedSparse => {
                let path = below(destination, "dishonest.bin");
                let inode = disk.add(&path, SnapshotKind::File, 0o644).unwrap();
                disk.node_mut(inode).length = MAX_EXPANDED_BYTES + 1;
            }
            Backend::WrappedTar => {
                if archive.file_name() == Some(b"bundle.tar") {
                    disk.write(&below(destination, "payload.txt"), b"compound tar");
                } else {
                    disk.write(&below(destination, "bundle.tar"), b"a tar");
                }
            }
            Backend::Packing => {
                let packed = disk.read(archive);
                let cut = packed.iter().position(|byte| *byte == b'\n').unwrap();
                disk.write(&destination.join(&packed[..cut]), &packed[cut + 1..]);
            }
        }
        Ok(())
    }

    fn create_zip(
        self,
        disk: &mut Disk,
        sources: &[PathBuf],
        destination: &PathBuf,
    ) -> Result<(), String> {
        let packed = match self {
            Backend::Packing => {
                let mut packed = sources[0].file_name().unwrap().to_vec();
                packed.push(b'\n');
                packed.extend_from_slice(&disk.read(&sources[0]));
                packed
            }
            _ => b"fake zip".to_vec(),
        };
        disk.write(destination, &packed);
        Ok(())
    }
}

fn staged_entries(disk: &Disk, root: &PathBuf) -> Result<Vec<StagedEntry>, String> {
    let mut walk = walk_staged(root, false);
    loop {
        let list = match walk.next(disk.cancelled)? {
            StagedStep::Finished(entries) => return Ok(entries),
            StagedStep::List(list) => list,
        };
        let listing = match disk.list(&list.directory) {
            Ok(names) => StagedListing::Names(names.into_iter().map(StagedName::Named).collect()),
            Err(_) => StagedListing::Failed,
        };
        let mut directory = list.listed(listing)?;
        walk = loop {
            directory = match directory.next(disk.cancelled)? {
                StagedDirectoryStep::Walk(walk) => break walk,
                StagedDirectoryStep::Next(directory) => directory,
                StagedDirectoryStep::Inspect(wanted) => {
                    let found = disk.lookup(&wanted.path);
                    wanted.found(&found)?
                }
            };
        };
    }
}

fn publish_output(
    disk: &mut Disk,
    publish: PublishExtracted,
    interactive: bool,
    answer: Answer,
) -> Result<ArchiveOutcome, String> {
    let plan = plan_target(
        disk,
        &publish.source,
        &publish.parent,
        publish.destination.clone(),
        TransferMode::Copy,
        interactive,
        &mut ConflictPolicy::new(),
        answer,
    );
    let rename = match publish.publish_extracted(plan) {
        PublishStep::Failed(message) => return Err(message),
        PublishStep::Rename(rename) => rename,
        PublishStep::Quarantine(wanted) => {
            let target = wanted.target.clone();
            let result = set_aside(disk, &target);
            wanted.quarantined(result)?
        }
        PublishStep::Merge(wanted) => {
            let mut progress = TransferProgress::default();
            let (source, target) = (wanted.source.clone(), wanted.target.clone());
            let outcome = merge_into(disk, &source, &target, usize::MAX, &mut progress);
            return wanted.merged(outcome);
        }
    };
    let renamed = disk.rename(&rename.source, &rename.target).is_ok();
    match rename.renamed(renamed) {
        PublishedStep::Published(outcome) => Ok(outcome),
        PublishedStep::Failed(message) => Err(message),
        PublishedStep::Restore(restoring, failed) => {
            let result = restore(disk, restoring);
            Err(failed.restored(result))
        }
    }
}

fn run_extraction(
    disk: &mut Disk,
    backend: Backend,
    extraction: Extraction,
    interactive: bool,
    answer: Answer,
) -> Result<ArchiveOutcome, String> {
    let mut stagings = Vec::new();
    let mut extraction = extraction;
    let result = loop {
        let listing = backend.list(disk, &extraction.current);
        let wanted = match extraction.listed(listing) {
            Ok(wanted) => wanted,
            Err(message) => break Err(message),
        };
        let staging = disk.reserve(&wanted.extraction.parent, WorkingKind::Archive);
        let root = below(&staging, "extracted");
        assert!(disk.make_directory(&root));
        stagings.push(staging);
        let wanted = match wanted.reserved(StagingReserved::Reserved(root)) {
            Ok(wanted) => wanted,
            Err(message) => break Err(message),
        };
        let (current, root) = (wanted.extraction.current.clone(), wanted.root.clone());
        let result = backend.extract(disk, &current, &root);
        let walk = match wanted.extracted(result, disk.cancelled) {
            Ok(walk) => walk,
            Err(message) => break Err(message),
        };
        let staged = staged_entries(disk, &root);
        match walk.walked(staged) {
            Err(message) => break Err(message),
            Ok(ExtractedStep::Unwrap(again)) => extraction = again,
            Ok(ExtractedStep::TopLevel(wanted)) => {
                let names = disk.list(&wanted.root).map_err(|_| TopLevelError::Directory);
                break match wanted.listed(names) {
                    Err(message) => Err(message),
                    Ok(publish) => publish_output(disk, publish, interactive, answer),
                };
            }
        }
    };
    for staging in &stagings {
        disk.remove_tree(staging);
    }
    result
}

fn extract_with(
    disk: &mut Disk,
    backend: Backend,
    archive: &PathBuf,
    interactive: bool,
    answer: Answer,
) -> Result<ArchiveOutcome, String> {
    let extraction = extract_archive(archive)?;
    run_extraction(disk, backend, extraction, interactive, answer)
}

fn extract(disk: &mut Disk, backend: Backend, archive: &PathBuf) -> Result<ArchiveOutcome, String> {
    extract_with(disk, backend, archive, false, &mut nobody)
}

fn extract_operation(
    disk: &mut Disk,
    backend: Backend,
    archive: &PathBuf,
    interactive: bool,
    answer: Answer,
) -> Result<CommittedOperation, String> {
    let operation = extract_archive_operation(archive, disk.cancelled)?;
    let walked = snapshot_tree(disk, archive, usize::MAX);
    let (extraction, record) = operation.described(walked)?;
    let outcome = run_extraction(disk, backend, extraction, interactive, answer)?;
    match record.published(outcome) {
        ExtractRecordStep::Committed(committed) => Ok(committed),
        ExtractRecordStep::Measure(measure) => {
            let held =
                measure.replaced.iter().map(|item| held_bytes(disk, Some(item))).collect();
            let walked = snapshot_tree(disk, &measure.published, usize::MAX);
            let (committed, released) = measure.measured(&held, walked);
            released.iter().for_each(|item| release(disk, item));
            Ok(committed)
        }
    }
}

fn run_compression(
    disk: &mut Disk,
    backend: Backend,
    walk: SelectionWalk,
) -> Result<ArchiveOutcome, String> {
    let mut walk = walk;
    let staging = loop {
        walk = match walk.next(disk.cancelled)? {
            SelectionStep::Stage(staging) => break staging,
            SelectionStep::Inspect(wanted) => {
                let found = disk.lookup(&wanted.path);
                match wanted.found(found)? {
                    SelectionEntryStep::Walk(walk) => walk,
                    SelectionEntryStep::List(list) => {
                        let names = disk.list(&list.path);
                        list.listed(names)?
                    }
                }
            }
        };
    };
    let directory = disk.reserve(&staging.parent, WorkingKind::Archive);
    let wanted = staging.reserved(Some(directory.clone()))?;
    let (sources, staged) = (wanted.compression.sources.clone(), wanted.staged.clone());
    let result = backend.create_zip(disk, &sources, &staged);
    let is_file = disk.is_file(&staged);
    let outcome = wanted
        .created(result, disk.cancelled, is_file)
        .and_then(|zip| {
            let listing = backend.list(disk, &zip.staged);
            let found = disk.lookup(&zip.destination);
            zip.listed(listing, &found)
        })
        .and_then(|publish| {
            let renamed = disk.rename(&publish.staged, &publish.destination).is_ok();
            publish.renamed(renamed)
        });
    disk.remove_tree(&directory);
    outcome
}

fn compress(
    disk: &mut Disk,
    backend: Backend,
    sources: &[PathBuf],
    destination: &PathBuf,
) -> Result<ArchiveOutcome, String> {
    let found = disk.lookup(destination);
    let walk = create_zip_archive(sources.to_vec(), destination.clone(), &found)?;
    run_compression(disk, backend, walk)
}

fn compress_operation(
    disk: &mut Disk,
    backend: Backend,
    sources: &[PathBuf],
    destination: &PathBuf,
) -> Result<CommittedOperation, String> {
    let mut operation = create_zip_operation(sources.to_vec(), destination.clone());
    let prepared = loop {
        operation = match operation.next(disk.cancelled)? {
            ZipOperationStep::Compress(prepared) => break prepared,
            ZipOperationStep::Inspect(wanted) => {
                let found = disk.lookup(&wanted.path);
                match wanted.found(found)? {
                    SourceStep::Next(operation) => operation,
                    SourceStep::List(list) => {
                        let names = disk.list(&list.path);
                        list.listed(names)?
                    }
                }
            }
        };
    };
    let found = disk.lookup(destination);
    let (walk, record) = prepared.compress(&found)?;
    let outcome = run_compression(disk, backend, walk)?;
    let walked = snapshot_tree(disk, &outcome.published, usize::MAX);
    Ok(record.published(outcome, walked))
}

// ---------------------------------------------------------------------------
// Shorthands.

fn transfer(
    disk: &mut Disk,
    sources: &[PathBuf],
    destination: &PathBuf,
    mode: TransferMode,
) -> TransferOutcome {
    let transfer = transfer_paths(sources.to_vec(), destination.clone(), mode);
    run_transfer(disk, transfer, &mut TransferProgress::default(), &mut nobody)
}

fn copy(disk: &mut Disk, sources: &[PathBuf], destination: &PathBuf) -> TransferOutcome {
    transfer(disk, sources, destination, TransferMode::Copy)
}

fn mv(disk: &mut Disk, sources: &[PathBuf], destination: &PathBuf) -> TransferOutcome {
    transfer(disk, sources, destination, TransferMode::Move)
}

/// The same decision again.
fn again(decision: &ConflictDecision) -> ConflictDecision {
    let response = match &decision.response {
        ConflictResponse::Skip => ConflictResponse::Skip,
        ConflictResponse::Cancel => ConflictResponse::Cancel,
        ConflictResponse::Rename(name) => ConflictResponse::Rename(name.clone()),
        ConflictResponse::AutoRename => ConflictResponse::AutoRename,
        ConflictResponse::Replace => ConflictResponse::Replace,
    };
    ConflictDecision { response, for_the_rest: decision.for_the_rest }
}

/// A transfer whose every question gets `decision`.
fn transfer_deciding(
    disk: &mut Disk,
    sources: &[PathBuf],
    destination: &PathBuf,
    mode: TransferMode,
    decision: ConflictDecision,
) -> TransferOutcome {
    let mut progress = TransferProgress::default();
    let transfer = transfer_paths_with_conflicts(
        sources.to_vec(),
        destination.clone(),
        mode,
        &mut progress,
    );
    if mode == TransferMode::Copy {
        sources.iter().for_each(|source| measure(disk, source, &mut progress));
    }
    progress.set_preparing(false);
    run_transfer(disk, transfer, &mut progress, &mut |_| again(&decision))
}

fn replacing(disk: &mut Disk, sources: &[PathBuf], destination: &PathBuf) -> TransferOutcome {
    let replace = ConflictDecision::once(ConflictResponse::Replace);
    transfer_deciding(disk, sources, destination, TransferMode::Copy, replace)
}

fn budgeted(
    disk: &mut Disk,
    sources: &[PathBuf],
    destination: &PathBuf,
    mode: TransferMode,
    budget: TransferBudget,
) -> TransferOutcome {
    let transfer = Transfer::new(sources.to_vec(), destination.clone(), mode)
        .with_answers()
        .with_budget(budget);
    let mut progress = TransferProgress::default();
    run_transfer(disk, transfer, &mut progress, &mut |_| {
        ConflictDecision::once(ConflictResponse::Replace)
    })
}

fn assert_clean(outcome: &TransferOutcome) {
    assert!(outcome.failures.is_empty(), "{:?}", outcome.failures);
}

/// The record of an operation that is expected to have kept one.
fn recorded(committed: CommittedOperation) -> OperationRecord {
    committed.into_record().expect("operation should have retained an undo record")
}

fn committed(outcome: MutationOutcome) -> CommittedOperation {
    match outcome {
        MutationOutcome::Committed(committed) => committed,
        other => panic!("{other:?}"),
    }
}

fn no_replacement_quarantines(disk: &Disk, directory: &PathBuf) -> bool {
    let names = disk.list(directory).unwrap();
    names.iter().all(|name| !is_replacement_quarantine_name(name.as_bytes()))
}

/// Nothing is left in a directory of what operations work with.
fn no_working_names(disk: &Disk, directory: &PathBuf) -> bool {
    disk.list(directory).unwrap().iter().all(|name| {
        !is_internal_working_name(name.as_bytes(), &boot())
            && !is_recovery_remnant_name(name.as_bytes())
    })
}

fn tree_size(disk: &Disk, root: &PathBuf) -> u64 {
    snapshot_tree(disk, root, usize::MAX)
        .unwrap()
        .iter()
        .filter_map(|snapshot| disk.found(&snapshot.path))
        .filter(|metadata| metadata.kind == SnapshotKind::File)
        .map(|metadata| metadata.len)
        .sum()
}

/// Two records that say the same.
fn alike(left: &OperationRecord, right: &OperationRecord) -> bool {
    format!("{left:?}") == format!("{right:?}")
}

// ---------------------------------------------------------------------------
// Refusing to go into itself.

#[test]
fn tests_copy_refuses_a_destination_that_resolves_inside_the_source() {
    let mut sandbox = Sandbox::new();
    let source = sandbox.dir("src");
    sandbox.file("src/sub/payload.bin", vec![7_u8; 4096]);
    let alias = sandbox.link(&below(&source, "sub"), "alias");
    let disk = &mut sandbox.disk;
    let before = tree_size(disk, &source);

    let outcome = copy(disk, &[source.clone()], &alias);

    assert_eq!(outcome.failures.len(), 1);
    assert!(outcome.failures[0].message.contains("into itself"), "{:?}", outcome.failures);
    assert!(outcome.operation.is_none());
    assert_eq!(tree_size(disk, &source), before, "the copy amplified the source");
}

#[test]
fn tests_move_refuses_a_destination_that_resolves_inside_the_source() {
    let mut sandbox = Sandbox::new();
    let source = sandbox.dir("src");
    sandbox.dir("src/sub");
    let alias = sandbox.link(&below(&source, "sub"), "alias");

    let outcome = mv(&mut sandbox.disk, &[source.clone()], &alias);

    assert_eq!(outcome.failures.len(), 1);
    assert!(sandbox.disk.is_dir(&source));
}

#[test]
fn tests_move_refuses_to_put_a_directory_inside_itself() {
    let mut sandbox = Sandbox::new();
    let source = sandbox.dir("source");
    let descendant = sandbox.dir("source/descendant");

    let outcome = mv(&mut sandbox.disk, &[source.clone()], &descendant);
    assert_eq!(outcome.failures.len(), 1);
    assert!(sandbox.disk.is_dir(&source));
}

#[test]
fn copy_refuses_a_destination_nested_anywhere_below_the_source() {
    let mut sandbox = Sandbox::new();
    let source = sandbox.dir("source");
    let deep = sandbox.dir("source/a/b/c");

    let outcome = copy(&mut sandbox.disk, &[source.clone()], &deep);

    assert_eq!(outcome.failures.len(), 1, "{outcome:?}");
    assert!(outcome.failures[0].message.contains("into itself"), "{:?}", outcome.failures);
    assert!(!sandbox.disk.holds(&below(&deep, "source")));
    // A sibling of the source is not inside it, whatever it is called.
    let sibling = sandbox.dir("source-sibling/a/b/c");
    assert_clean(&copy(&mut sandbox.disk, &[source], &sibling));
}

// ---------------------------------------------------------------------------
// Moves and their undo.

#[test]
fn a_moved_tree_holding_a_socket_is_reported_undoable_and_redoable() {
    let mut sandbox = Sandbox::new();
    let project = sandbox.dir("source/project");
    let destination = sandbox.dir("destination");
    sandbox.file("source/project/notes.txt", b"important");
    sandbox.socket("source/project/daemon.sock");
    let disk = &mut sandbox.disk;

    let outcome = mv(disk, &[project.clone()], &destination);

    assert_clean(&outcome);
    assert!(same_all(&outcome.completed_destinations(), &[below(&destination, "project")]));
    assert!(!disk.holds(&project));
    assert_eq!(disk.read(&below(&destination, "project/notes.txt")), b"important");
    assert!(!outcome.undo_unavailable);
    let operation = outcome.operation.expect("a moved socket tree retains undo");

    let redo_record = recorded(committed(undo(disk, &operation)));
    assert!(disk.holds(&below(&project, "daemon.sock")), "undo restored the tree");
    assert_eq!(disk.read(&below(&project, "notes.txt")), b"important");
    assert!(!disk.holds(&below(&destination, "project")));

    recorded(committed(redo(disk, &redo_record)));
    assert!(disk.holds(&below(&destination, "project/daemon.sock")));
    assert!(!disk.holds(&project));
}

#[test]
fn tests_a_rolled_back_undo_discards_the_record_it_invalidated() {
    let mut sandbox = Sandbox::new();
    let blocked = sandbox.dir("blocked");
    let open = sandbox.dir("open");
    let destination = sandbox.dir("destination");
    sandbox.file("blocked/first/data.txt", b"first");
    sandbox.file("open/second/data.txt", b"second");
    let disk = &mut sandbox.disk;

    let sources = [below(&blocked, "first"), below(&open, "second")];
    let outcome = mv(disk, &sources, &destination);
    let operation = outcome.operation.expect("the move retains undo");

    disk.seal(&blocked, true);
    let result = undo(disk, &operation);
    disk.seal(&blocked, false);

    assert!(!result.keeps_history(), "a rolled-back undo must discard its record, got {result:?}");
    assert!(matches!(result, MutationOutcome::Discarded { .. }), "{result:?}");
    assert!(disk.holds(&below(&destination, "first/data.txt")));
    assert!(disk.holds(&below(&destination, "second/data.txt")));
    assert!(!disk.holds(&below(&open, "second")));
}

#[test]
fn tests_an_undo_that_never_commits_keeps_its_record() {
    let mut sandbox = Sandbox::new();
    let only = sandbox.dir("source/only");
    sandbox.file("source/only/data.txt", b"payload");
    let destination = sandbox.dir("destination");
    let disk = &mut sandbox.disk;

    let outcome = mv(disk, &[only.clone()], &destination);
    let operation = outcome.operation.expect("the move retains undo");
    disk.write(&only, b"in the way");

    let result = undo(disk, &operation);

    assert!(result.keeps_history(), "a pre-commit refusal must stay retryable, got {result:?}");
    assert!(disk.holds(&below(&destination, "only/data.txt")));

    assert!(disk.remove_file(&only));
    committed(undo(disk, &operation));
    assert!(disk.holds(&below(&only, "data.txt")));
}

#[test]
fn tests_move_supports_identity_checked_undo_and_redo() {
    let mut sandbox = Sandbox::new();
    let source = sandbox.file("source/move-me.txt", b"contents");
    let destination = sandbox.dir("destination");
    let disk = &mut sandbox.disk;

    let outcome = mv(disk, &[source.clone()], &destination);
    assert_clean(&outcome);
    let operation = outcome.operation.unwrap();
    assert!(!disk.holds(&source));
    let changes = operation.forward_directory_changes();
    assert!(same_all(&changes.removed, &[source.clone()]));
    assert!(same_all(&changes.upserted, &[below(&destination, "move-me.txt")]));

    let redo_record = recorded(committed(undo(disk, &operation)));
    assert_eq!(disk.read(&source), b"contents");
    let redone = recorded(committed(redo(disk, &redo_record)));
    assert_eq!(disk.read(&redone.path()), b"contents");
    assert!(!disk.holds(&source));
}

#[test]
fn tests_deep_directory_trees_do_not_exhaust_the_worker_stack() {
    let mut sandbox = Sandbox::new();
    let source = sandbox.dir("deep");
    let leaf = sandbox.dir(&format!("deep{}", "/d".repeat(150)));
    sandbox.disk.write(&below(&leaf, "leaf.txt"), b"leaf");
    let destination = sandbox.dir("destination");
    let disk = &mut sandbox.disk;

    let mut progress = TransferProgress::default();
    let transfer = transfer_paths_with_progress(
        vec![source.clone()],
        destination.clone(),
        TransferMode::Copy,
        &mut progress,
    );
    let outcome = run_transfer(disk, transfer, &mut progress, &mut nobody);
    assert_clean(&outcome);
    let outcome = delete(disk, &[source.clone()]);
    assert!(outcome.failures.is_empty(), "{outcome:?}");
    assert!(!disk.holds(&source));
    assert!(disk.holds(&below(&destination, "deep/d/d/d")));
}

// ---------------------------------------------------------------------------
// Single mutations.

#[test]
fn archive_sources_and_tree_removal_refuse_special_files() {
    let mut sandbox = Sandbox::new();
    let source = sandbox.dir("payload");
    sandbox.file("payload/notes.txt", b"keep");
    sandbox.socket("payload/daemon.sock");
    let zip = sandbox.path("payload.zip");
    let disk = &mut sandbox.disk;

    let error = compress_operation(disk, Backend::Packing, &[source.clone()], &zip)
        .expect_err("an archive cannot carry a socket");
    assert!(error.contains("Special files"), "{error}");
    assert!(!disk.holds(&zip));

    let snapshots = snapshot_tree(disk, &source, usize::MAX).expect("the walker records specials");
    let walked = walk_recorded(disk, &snapshots);
    assert!(remove_snapshotted_tree(&snapshots, &walked).is_err());
    assert_eq!(disk.read(&below(&source, "notes.txt")), b"keep");
    assert!(disk.holds(&below(&source, "daemon.sock")));
}

#[test]
fn tests_create_never_overwrites_an_occupied_destination() {
    let mut sandbox = Sandbox::new();
    let occupied = sandbox.file("occupied", b"keep me");
    let root = sandbox.root();

    assert!(new_directory(&mut sandbox.disk, &root, "occupied").is_err());
    assert_eq!(sandbox.disk.read(&occupied), b"keep me");
}

#[test]
fn tests_rename_is_no_replace_and_supports_undo_redo() {
    let mut sandbox = Sandbox::new();
    let source = sandbox.file("draft.txt", b"contents");
    let destination = sandbox.path("final.txt");
    let disk = &mut sandbox.disk;

    let operation = recorded(rename_to(disk, &source, "final.txt").unwrap());
    assert!(!disk.holds(&source));
    assert_eq!(disk.read(&destination), b"contents");
    let forward = operation.forward_directory_changes();
    assert!(same_all(&forward.removed, &[source.clone()]));
    assert!(same_all(&forward.upserted, &[destination.clone()]));
    let backward = operation.reverse_directory_changes();
    assert!(same_all(&backward.removed, &[destination.clone()]));
    assert!(same_all(&backward.upserted, &[source.clone()]));

    let redo_record = recorded(committed(undo(disk, &operation)));
    assert_eq!(disk.read(&source), b"contents");
    assert!(!disk.holds(&destination));

    let redone = recorded(committed(redo(disk, &redo_record)));
    assert!(same(&redone.path(), &destination));
    assert_eq!(disk.read(&destination), b"contents");
}

#[test]
fn tests_rename_accepts_an_invalid_utf8_source_identity() {
    let mut sandbox = Sandbox::new();
    let source = sandbox.root().join(&[b'n', 0xff]);
    sandbox.disk.write(&source, b"contents");
    let readable = sandbox.path("readable.txt");
    let disk = &mut sandbox.disk;

    let operation = recorded(rename_to(disk, &source, "readable.txt").unwrap());

    assert!(!disk.holds(&source));
    assert!(same(&operation.path(), &readable));
    assert_eq!(disk.read(&readable), b"contents");
}

#[test]
fn tests_rename_refuses_an_occupied_destination() {
    let mut sandbox = Sandbox::new();
    let source = sandbox.file("source.txt", b"source");
    let destination = sandbox.file("occupied.txt", b"keep");
    let disk = &mut sandbox.disk;

    assert!(rename_to(disk, &source, "occupied.txt").is_err());
    assert_eq!(disk.read(&source), b"source");
    assert_eq!(disk.read(&destination), b"keep");
}

#[test]
fn tests_rename_undo_refuses_a_modified_result() {
    let mut sandbox = Sandbox::new();
    let source = sandbox.file("draft.txt", b"original");
    let operation = recorded(rename_to(&mut sandbox.disk, &source, "final.txt").unwrap());
    let destination = sandbox.file("final.txt", b"modified");
    let disk = &mut sandbox.disk;

    assert!(undo(disk, &operation).is_err());
    assert!(!disk.holds(&source));
    assert_eq!(disk.read(&destination), b"modified");
}

#[test]
fn set_mode_records_both_modes_and_supports_undo_redo() {
    let mut sandbox = Sandbox::new();
    let script = sandbox.file("run.sh", b"#!/bin/sh\n");
    let disk = &mut sandbox.disk;
    disk.set_permissions(&script, 0o644);

    let operation = recorded(chmod(disk, &script, 0o755).unwrap());
    assert_eq!(disk.mode_of(&script), 0o755);
    let changes = operation.forward_directory_changes();
    assert!(changes.removed.is_empty());
    assert!(same_all(&changes.upserted, &[script.clone()]));
    assert!(matches!(operation, OperationRecord::SetMode { previous: 0o644, mode: 0o755, .. }));

    let redo_record = recorded(committed(undo(disk, &operation)));
    assert_eq!(disk.mode_of(&script), 0o644);
    assert!(matches!(redo_record, OperationRecord::SetMode { previous: 0o755, mode: 0o644, .. }));

    recorded(committed(redo(disk, &redo_record)));
    assert_eq!(disk.mode_of(&script), 0o755);
    assert_eq!(disk.read(&script), b"#!/bin/sh\n");
}

#[test]
fn set_mode_refuses_links_and_unchanged_modes() {
    let mut sandbox = Sandbox::new();
    let target = sandbox.file("target", b"x");
    sandbox.disk.set_permissions(&target, 0o600);
    let link = sandbox.link(&target, "link");
    let disk = &mut sandbox.disk;

    let error = chmod(disk, &link, 0o644).unwrap_err();
    assert!(error.contains("symbolic link"), "{error}");
    assert_eq!(disk.mode_of(&target), 0o600);

    let error = chmod(disk, &target, 0o600).unwrap_err();
    assert!(error.contains("unchanged"), "{error}");
}

#[test]
fn set_mode_undo_refuses_a_replaced_object() {
    let mut sandbox = Sandbox::new();
    let file = sandbox.file("notes", b"a");
    sandbox.disk.set_permissions(&file, 0o644);
    let operation = recorded(chmod(&mut sandbox.disk, &file, 0o600).unwrap());
    assert!(sandbox.disk.remove_file(&file));
    let replacement = sandbox.file("notes", b"b");
    let disk = &mut sandbox.disk;
    disk.set_permissions(&replacement, 0o600);

    assert!(undo(disk, &operation).is_err());
    assert_eq!(disk.mode_of(&replacement), 0o600);
}

#[test]
fn a_link_that_replaced_the_object_after_it_was_read_is_not_followed() {
    let mut sandbox = Sandbox::new();
    let target = sandbox.file("target", b"");
    sandbox.disk.set_permissions(&target, 0o600);
    let victim = sandbox.file("victim", b"");
    let expected = FileIdentity::read(&victim, sandbox.disk.lookup(&victim)).unwrap();

    assert!(sandbox.disk.remove_file(&victim));
    sandbox.link(&target, "victim");
    let disk = &mut sandbox.disk;

    let wanted = ModeChange { path: victim.clone(), expected, from: 0o644, to: 0o777 };
    let error = change(disk, wanted).unwrap_err();
    assert!(error.contains("symbolic link"), "{error}");
    assert_eq!(disk.mode_of(&target), 0o600);
    assert_eq!(disk.found(&victim).unwrap().kind, SnapshotKind::Symlink);
}

#[test]
fn an_object_replaced_after_it_was_read_keeps_its_bits() {
    let mut sandbox = Sandbox::new();
    let original = sandbox.file("note", b"");
    let expected = FileIdentity::read(&original, sandbox.disk.lookup(&original)).unwrap();
    let replacement = sandbox.file("elsewhere", b"");
    let disk = &mut sandbox.disk;
    disk.set_permissions(&replacement, 0o600);
    disk.rename_over(&replacement, &original);

    let wanted = ModeChange { path: original.clone(), expected, from: 0o644, to: 0o777 };
    let error = change(disk, wanted).unwrap_err();
    assert!(error.contains("changed or was replaced"), "{error}");
    assert_eq!(disk.mode_of(&original), 0o600);
}

fn created_and_undone(sandbox: &mut Sandbox) {
    let root = sandbox.root();
    let disk = &mut sandbox.disk;
    let created = recorded(new_directory(disk, &root, "photos").unwrap());

    committed(undo(disk, &created));
    assert!(!disk.holds(&created.path()));

    let recreated = recorded(committed(redo(disk, &created)));
    assert!(disk.is_dir(&recreated.path()));
}

#[test]
fn tests_create_undo_and_redo_validate_the_path() {
    created_and_undone(&mut Sandbox::new());
}

#[test]
fn file_ops_create_undo_and_redo_validate_the_path() {
    created_and_undone(&mut Sandbox::new());
}

#[test]
fn undo_refuses_a_non_empty_or_replaced_created_directory() {
    let mut sandbox = Sandbox::new();
    let root = sandbox.root();
    let disk = &mut sandbox.disk;
    let created = recorded(new_directory(disk, &root, "work").unwrap());
    disk.write(&below(&created.path(), "important.txt"), b"data");
    assert!(undo(disk, &created).is_err());
    assert_eq!(disk.read(&below(&created.path(), "important.txt")), b"data");

    let created = recorded(new_directory(disk, &root, "replace-me").unwrap());
    assert!(disk.remove_directory(&created.path()));
    assert!(disk.make_directory(&created.path()));
    assert!(undo(disk, &created).is_err());
    assert!(disk.is_dir(&created.path()));
}

#[test]
fn create_file_is_empty_no_replace_and_supports_undo_redo() {
    let mut sandbox = Sandbox::new();
    let occupied = sandbox.file("notes.txt", b"keep me");
    let (root, todo) = (sandbox.root(), sandbox.path("todo.txt"));
    let disk = &mut sandbox.disk;
    assert!(new_file(disk, &root, "notes.txt").is_err());
    assert_eq!(disk.read(&occupied), b"keep me");

    let created = recorded(new_file(disk, &root, "todo.txt").unwrap());
    assert!(same(&created.path(), &todo));
    assert_eq!(disk.read(&created.path()), b"");
    let changes = created.forward_directory_changes();
    assert!(changes.removed.is_empty());
    assert!(same_all(&changes.upserted, &[created.path()]));

    let redo_record = recorded(committed(undo(disk, &created)));
    assert!(!disk.holds(&created.path()));

    let redone = recorded(committed(redo(disk, &redo_record)));
    assert_eq!(disk.read(&redone.path()), b"");
}

#[test]
fn undo_refuses_a_written_or_replaced_created_file() {
    let mut sandbox = Sandbox::new();
    let root = sandbox.root();
    let disk = &mut sandbox.disk;
    let created = recorded(new_file(disk, &root, "draft.md").unwrap());
    disk.write(&created.path(), b"# Draft");
    assert!(undo(disk, &created).is_err());
    assert_eq!(disk.read(&created.path()), b"# Draft");

    let created = recorded(new_file(disk, &root, "replaced").unwrap());
    assert!(disk.remove_file(&created.path()));
    disk.write(&created.path(), b"");
    assert!(undo(disk, &created).is_err());
    assert!(disk.is_file(&created.path()));

    let created = recorded(new_file(disk, &root, "now-a-folder").unwrap());
    assert!(disk.remove_file(&created.path()));
    assert!(disk.make_directory(&created.path()));
    assert!(undo(disk, &created).is_err());
    assert!(disk.is_dir(&created.path()));
}

// ---------------------------------------------------------------------------
// The journal.

fn bounded_history(sandbox: &mut Sandbox) {
    let root = sandbox.root();
    let disk = &mut sandbox.disk;
    let mut journal = OperationJournal::new(2);
    let first = recorded(new_directory(disk, &root, "first").unwrap());
    let second = recorded(new_directory(disk, &root, "second").unwrap());
    let third = recorded(new_directory(disk, &root, "third").unwrap());
    let _ = journal.record(first);
    let _ = journal.record(second.clone());
    let _ = journal.record(third.clone());

    assert!(alike(&journal.begin(HistoryDirection::Undo).unwrap(), &third));
    assert!(alike(&journal.begin(HistoryDirection::Undo).unwrap(), &second));
    assert!(journal.begin(HistoryDirection::Undo).is_none());

    journal.finish(HistoryDirection::Undo, second.clone());
    assert!(journal.can_redo());
    journal.cancel(HistoryDirection::Undo, third);
    let _ = journal.record(second);
    assert!(!journal.can_redo());
}

#[test]
fn tests_history_is_bounded_and_new_work_clears_redo() {
    bounded_history(&mut Sandbox::new());
}

#[test]
fn file_ops_history_is_bounded_and_new_work_clears_redo() {
    bounded_history(&mut Sandbox::new());
    let mut journal = OperationJournal::new(2);
    assert!(journal.begin_undo().is_none());
    let path = p("/home/me/photos");
    let identity = FileIdentity {
        key: ObjectKey { device: 1, inode: 2 },
        changed_seconds: 3,
        changed_nanoseconds: 4,
    };
    let _ = journal.record(OperationRecord::CreateDirectory { path: path.clone(), identity });
    let undone = journal.begin_undo().unwrap();
    journal.finish_undo(undone);
    let redone = journal.begin_redo().unwrap();
    journal.cancel_redo(redone);
    assert!(journal.can_redo() && !journal.can_undo());
    let redone = journal.begin_redo().unwrap();
    journal.finish_redo(redone);
    assert!(journal.can_undo());
    let undone = journal.begin_undo().unwrap();
    journal.cancel_undo(undone);
    assert_eq!(journal.drain().len(), 1);
}

#[test]
fn tests_evicting_a_record_releases_the_data_it_was_holding() {
    let mut sandbox = Sandbox::new();
    let source = sandbox.file("source/report.txt", b"replacement");
    sandbox.file("destination/report.txt", b"the original");
    let (root, destination) = (sandbox.root(), sandbox.path("destination"));
    let disk = &mut sandbox.disk;
    let outcome = replacing(disk, &[source], &destination);
    let replacing = outcome.operation.expect("a replacement retains undo");
    assert!(!no_replacement_quarantines(disk, &destination));

    let mut journal = OperationJournal::new(1);
    assert!(journal.record(replacing).is_empty());
    let evicted = journal.record(recorded(new_directory(disk, &root, "later").unwrap()));

    assert_eq!(evicted.len(), 1);
    for record in evicted {
        for item in record.release_quarantines() {
            release(disk, &item);
        }
    }
    assert!(
        no_replacement_quarantines(disk, &destination),
        "an unreachable record must not keep holding disk"
    );
    assert_eq!(disk.read(&below(&destination, "report.txt")), b"replacement");
}

// ---------------------------------------------------------------------------
// Copies and conflicts.

#[test]
fn tests_recursive_copy_preserves_sources_and_supports_undo_redo() {
    let mut sandbox = Sandbox::new();
    let album = sandbox.dir("source/album");
    sandbox.file("source/album/notes.txt", b"hello");
    assert!(sandbox.disk.symlink(b"notes.txt", &below(&album, "notes-link")));
    let destination = sandbox.dir("destination");
    let disk = &mut sandbox.disk;

    let outcome = copy(disk, &[album.clone()], &destination);
    assert_clean(&outcome);
    assert_eq!(disk.read(&below(&destination, "album/notes.txt")), b"hello");
    let link = disk.at(&below(&destination, "album/notes-link")).unwrap();
    assert_eq!(disk.node(link).target, b"notes.txt");
    assert_eq!(disk.read(&below(&album, "notes.txt")), b"hello");

    let operation = outcome.operation.unwrap();
    let changes = operation.forward_directory_changes();
    assert!(changes.removed.is_empty());
    assert!(same_all(&changes.upserted, &[below(&destination, "album")]));
    let redo_record = recorded(committed(undo(disk, &operation)));
    assert!(!disk.holds(&below(&destination, "album")));
    let redone = recorded(committed(redo(disk, &redo_record)));
    assert_eq!(disk.read(&below(&redone.path(), "notes.txt")), b"hello");
}

#[test]
fn tests_copy_never_overwrites_an_occupied_destination() {
    let mut sandbox = Sandbox::new();
    let source = sandbox.file("source.txt", b"new");
    let destination = sandbox.dir("destination");
    sandbox.file("destination/source.txt", b"keep");
    let disk = &mut sandbox.disk;

    let outcome = copy(disk, &[source], &destination);
    assert_eq!(outcome.failures.len(), 1);
    assert!(outcome.operation.is_none());
    assert_eq!(disk.read(&below(&destination, "source.txt")), b"keep");
}

/// Two sources, one of which collides at the destination.
fn occupied_transfer_fixture() -> (Sandbox, Vec<PathBuf>, PathBuf) {
    let mut sandbox = Sandbox::new();
    let sources =
        vec![sandbox.file("source/taken.txt", b"new"), sandbox.file("source/free.txt", b"free")];
    sandbox.file("destination/taken.txt", b"keep");
    let destination = sandbox.path("destination");
    (sandbox, sources, destination)
}

#[test]
fn tests_a_skipped_conflict_leaves_both_items_and_continues() {
    let (mut sandbox, sources, destination) = occupied_transfer_fixture();
    let disk = &mut sandbox.disk;

    let outcome = transfer_deciding(
        disk,
        &sources,
        &destination,
        TransferMode::Copy,
        ConflictDecision::once(ConflictResponse::Skip),
    );

    assert!(same_all(&outcome.skipped, &sources[..1]));
    assert_clean(&outcome);
    assert_eq!(outcome.completed.len(), 1);
    assert_eq!(disk.read(&below(&destination, "taken.txt")), b"keep");
    assert_eq!(disk.read(&below(&destination, "free.txt")), b"free");
    assert_eq!(outcome.accounted(), sources.len());
}

#[test]
fn tests_cancelling_a_conflict_accounts_for_every_unattempted_source() {
    let (mut sandbox, sources, destination) = occupied_transfer_fixture();
    let disk = &mut sandbox.disk;

    let outcome = transfer_deciding(
        disk,
        &sources,
        &destination,
        TransferMode::Copy,
        ConflictDecision::once(ConflictResponse::Cancel),
    );

    assert!(same_all(&outcome.cancelled, &sources));
    assert!(outcome.completed.is_empty());
    assert_clean(&outcome);
    assert!(!disk.holds(&below(&destination, "free.txt")));
    assert_eq!(outcome.accounted(), sources.len());
}

#[test]
fn tests_renaming_resolves_a_conflict_without_touching_the_occupant() {
    let (mut sandbox, sources, destination) = occupied_transfer_fixture();
    let disk = &mut sandbox.disk;
    let rename = ConflictDecision::once(ConflictResponse::Rename(b"renamed.txt".to_vec()));

    let outcome = transfer_deciding(disk, &sources, &destination, TransferMode::Copy, rename);

    assert_clean(&outcome);
    assert_eq!(disk.read(&below(&destination, "taken.txt")), b"keep");
    assert_eq!(disk.read(&below(&destination, "renamed.txt")), b"new");
    assert_eq!(outcome.accounted(), sources.len());
}

#[test]
fn tests_a_rename_response_cannot_escape_the_destination_directory() {
    let (mut sandbox, sources, destination) = occupied_transfer_fixture();
    let disk = &mut sandbox.disk;
    let rename = ConflictDecision::once(ConflictResponse::Rename(b"../escaped.txt".to_vec()));

    let outcome = transfer_deciding(disk, &sources, &destination, TransferMode::Copy, rename);

    assert_eq!(outcome.failures.len(), 1);
    assert!(outcome.failures[0].message.contains("cannot contain"), "{:?}", outcome.failures);
    assert!(!disk.holds(&below(&destination.parent().unwrap(), "escaped.txt")));
    assert_eq!(outcome.accounted(), sources.len());
}

#[test]
fn tests_renaming_all_keeps_every_colliding_source() {
    let mut sandbox = Sandbox::new();
    let sources = vec![sandbox.file("source/a.txt", b"new"), sandbox.file("source/b.txt", b"new")];
    sandbox.file("destination/a.txt", b"existing");
    sandbox.file("destination/b.txt", b"existing");
    // Already occupied, so "a.txt" has to land past it.
    sandbox.file("destination/a (2).txt", b"existing too");
    let destination = sandbox.path("destination");
    let disk = &mut sandbox.disk;

    let outcome = transfer_deciding(
        disk,
        &sources,
        &destination,
        TransferMode::Copy,
        ConflictDecision::for_all(ConflictResponse::AutoRename),
    );

    assert_clean(&outcome);
    assert_eq!(outcome.completed.len(), 2);
    assert_eq!(outcome.accounted(), sources.len());
    assert_eq!(disk.read(&below(&destination, "a.txt")), b"existing");
    assert_eq!(disk.read(&below(&destination, "b.txt")), b"existing");
    assert_eq!(disk.read(&below(&destination, "a (2).txt")), b"existing too");
    assert_eq!(disk.read(&below(&destination, "a (3).txt")), b"new");
    assert_eq!(disk.read(&below(&destination, "b (2).txt")), b"new");
}

#[test]
fn tests_moving_a_directory_onto_a_directory_is_refused() {
    let mut sandbox = Sandbox::new();
    let photos = sandbox.dir("source/photos");
    let kept = sandbox.file("destination/photos/keep.txt", b"keep");
    let destination = sandbox.path("destination");
    let disk = &mut sandbox.disk;

    let outcome = transfer_deciding(
        disk,
        &[photos.clone()],
        &destination,
        TransferMode::Move,
        ConflictDecision::for_all(ConflictResponse::Replace),
    );

    assert_eq!(outcome.failures.len(), 1, "{outcome:?}");
    assert_eq!(disk.read(&kept), b"keep");
    assert!(disk.holds(&photos));
}

#[test]
fn tests_moving_an_item_where_it_already_is_does_nothing() {
    let mut sandbox = Sandbox::new();
    let source = sandbox.file("folder/report.txt", b"payload");
    let folder = sandbox.path("folder");
    let disk = &mut sandbox.disk;

    let outcome = transfer_deciding(
        disk,
        &[source.clone()],
        &folder,
        TransferMode::Move,
        ConflictDecision::for_all(ConflictResponse::Replace),
    );

    assert!(same_all(&outcome.already_in_place, &[source.clone()]));
    assert_clean(&outcome);
    assert!(outcome.skipped.is_empty());
    assert!(outcome.completed.is_empty());
    assert!(outcome.operation.is_none());
    assert_eq!(disk.read(&source), b"payload");
    assert_eq!(outcome.accounted(), 1);
}

#[test]
fn tests_copying_an_item_into_its_own_folder_duplicates_it_without_asking() {
    let mut sandbox = Sandbox::new();
    let source = sandbox.file("folder/report.txt", b"payload");
    let folder = sandbox.path("folder");
    let disk = &mut sandbox.disk;

    let outcome = transfer_deciding(
        disk,
        &[source.clone()],
        &folder,
        TransferMode::Copy,
        ConflictDecision::once(ConflictResponse::Cancel),
    );

    assert_clean(&outcome);
    assert_eq!(outcome.completed.len(), 1);
    assert_eq!(disk.read(&source), b"payload");
    assert_eq!(
        disk.read(&below(&folder, "report (2).txt")),
        b"payload",
        "the duplicate lands beside the original"
    );
    let outcome = transfer_deciding(
        disk,
        &[source],
        &folder,
        TransferMode::Copy,
        ConflictDecision::once(ConflictResponse::Cancel),
    );
    assert_clean(&outcome);
    assert!(disk.holds(&below(&folder, "report (3).txt")));
}

#[test]
fn tests_a_hardlink_to_the_source_is_recognized_as_the_same_object() {
    let mut sandbox = Sandbox::new();
    let source = sandbox.file("source/report.pdf", b"original");
    let destination = sandbox.dir("destination");
    let disk = &mut sandbox.disk;
    assert!(disk.hard_link(&source, &below(&destination, "report.pdf")));

    let moved = transfer_deciding(
        disk,
        &[source.clone()],
        &destination,
        TransferMode::Move,
        ConflictDecision::for_all(ConflictResponse::Replace),
    );
    assert_eq!(moved.failures.len(), 1, "{moved:?}");
    assert!(moved.failures[0].message.contains("over itself"), "{:?}", moved.failures);
    assert_eq!(disk.read(&source), b"original");

    let copied = transfer_deciding(
        disk,
        &[source.clone()],
        &destination,
        TransferMode::Copy,
        ConflictDecision::for_all(ConflictResponse::Replace),
    );
    assert_clean(&copied);
    assert_eq!(disk.read(&source), b"original");
    assert_eq!(disk.read(&below(&destination, "report.pdf")), b"original");
    assert_eq!(disk.read(&below(&destination, "report (2).pdf")), b"original");
}

#[test]
fn tests_a_cancelled_transfer_accounts_for_every_requested_source() {
    let (mut sandbox, sources, destination) = occupied_transfer_fixture();
    let disk = &mut sandbox.disk;
    disk.cancelled = true;

    let outcome = copy(disk, &sources, &destination);

    assert!(same_all(&outcome.cancelled, &sources));
    assert_eq!(outcome.accounted(), sources.len());
    assert!(outcome.operation.is_none());
    assert!(!disk.holds(&below(&destination, "free.txt")));
}

#[test]
fn tests_copy_reports_item_and_byte_progress() {
    let mut sandbox = Sandbox::new();
    let source = sandbox.file("source.txt", b"marcel");
    let destination = sandbox.dir("destination");
    let disk = &mut sandbox.disk;
    let mut progress = TransferProgress::default();

    let transfer = transfer_paths_with_progress(
        vec![source.clone()],
        destination,
        TransferMode::Copy,
        &mut progress,
    );
    assert!(progress.snapshot().preparing);
    measure(disk, &source, &mut progress);
    progress.set_preparing(false);
    let outcome = run_transfer(disk, transfer, &mut progress, &mut nobody);

    assert_clean(&outcome);
    let snapshot = progress.snapshot();
    assert!(!snapshot.preparing);
    assert_eq!(snapshot.total_items, 1);
    assert_eq!(snapshot.completed_items, 1);
    assert_eq!(snapshot.total_bytes, 6);
    assert_eq!(snapshot.completed_bytes, 6);
    assert!(snapshot.current_path.is_none());
}

#[test]
fn tests_copy_rejects_special_files_without_publishing_them() {
    let mut sandbox = Sandbox::new();
    let socket = sandbox.socket("socket");
    let destination = sandbox.dir("destination");
    let disk = &mut sandbox.disk;

    let outcome = copy(disk, &[socket], &destination);
    assert_eq!(outcome.failures.len(), 1);
    assert!(outcome.operation.is_none());
    assert!(!disk.holds(&below(&destination, "socket")));
}

#[test]
fn tests_copy_undo_refuses_a_modified_output() {
    let mut sandbox = Sandbox::new();
    let source = sandbox.file("source.txt", b"original");
    let destination = sandbox.dir("destination");
    let operation = copy(&mut sandbox.disk, &[source], &destination).operation.unwrap();
    let changed = sandbox.file("destination/source.txt", b"changed");
    let disk = &mut sandbox.disk;

    assert!(undo(disk, &operation).is_err());
    assert_eq!(disk.read(&changed), b"changed");
}

#[test]
fn tests_copy_undo_refuses_added_children_without_partially_removing_output() {
    let mut sandbox = Sandbox::new();
    let source = sandbox.dir("source");
    sandbox.file("source/original.txt", b"original");
    let destination = sandbox.dir("destination");
    let operation = copy(&mut sandbox.disk, &[source], &destination).operation.unwrap();
    let added = sandbox.file("destination/source/added-later.txt", b"keep");
    let disk = &mut sandbox.disk;

    assert!(undo(disk, &operation).is_err());
    assert_eq!(disk.read(&below(&destination, "source/original.txt")), b"original");
    assert_eq!(disk.read(&added), b"keep");
}

#[test]
fn tests_copy_redo_refuses_new_source_children_without_publishing_output() {
    let mut sandbox = Sandbox::new();
    let source = sandbox.dir("source");
    sandbox.file("source/original.txt", b"original");
    let destination = sandbox.dir("destination");
    let outcome = copy(&mut sandbox.disk, &[source], &destination);
    let redo_record =
        recorded(committed(undo(&mut sandbox.disk, &outcome.operation.unwrap())));
    sandbox.file("source/added-later.txt", b"new");
    let disk = &mut sandbox.disk;

    assert!(redo(disk, &redo_record).is_err());
    assert!(!disk.holds(&below(&destination, "source")));
}

// ---------------------------------------------------------------------------
// What a copy carries over.

#[test]
fn tests_copy_preserves_file_and_directory_modes_and_times() {
    let mut sandbox = Sandbox::new();
    let tree = sandbox.dir("source/tree");
    let file = sandbox.file("source/tree/script.sh", b"#!/bin/sh\n");
    let destination = sandbox.dir("destination");
    let disk = &mut sandbox.disk;
    disk.set_permissions(&tree, 0o750);
    disk.set_permissions(&file, 0o640);
    for path in [&tree, &file] {
        let inode = disk.at(path).unwrap();
        disk.node_mut(inode).accessed = 1_650_000_000;
        disk.node_mut(inode).modified = 1_650_000_123;
    }

    assert_clean(&copy(disk, &[tree], &destination));

    let tree = disk.at(&below(&destination, "tree")).unwrap();
    let file = disk.at(&below(&destination, "tree/script.sh")).unwrap();
    assert_eq!(disk.node(tree).mode & 0o7777, 0o750);
    assert_eq!(disk.node(file).mode & 0o7777, 0o640);
    assert_eq!(disk.node(tree).modified, 1_650_000_123);
    assert_eq!(disk.node(file).modified, 1_650_000_123);
    assert_eq!(disk.node(file).accessed, 1_650_000_000);
}

#[test]
fn tests_copy_preserves_supported_user_xattrs() {
    let mut sandbox = Sandbox::new();
    let source = sandbox.file("source.txt", b"contents");
    let destination = sandbox.dir("destination");
    let disk = &mut sandbox.disk;
    let inode = disk.at(&source).unwrap();
    let attributes = &mut disk.node_mut(inode).attributes;
    attributes.insert(b"user.marcel-copy-test".to_vec(), b"kept".to_vec());
    attributes.insert(b"security.selinux".to_vec(), b"left".to_vec());

    assert_clean(&copy(disk, &[source], &destination));
    let copied = disk.at(&below(&destination, "source.txt")).unwrap();
    let attributes = &disk.node(copied).attributes;
    assert_eq!(attributes.get(b"user.marcel-copy-test".as_slice()).unwrap(), b"kept");
    assert!(!attributes.contains_key(b"security.selinux".as_slice()));
}

#[test]
fn tests_copy_preserves_hardlinks_within_a_directory_tree() {
    let mut sandbox = Sandbox::new();
    let tree = sandbox.dir("source/tree");
    sandbox.file("source/tree/first", b"shared");
    let destination = sandbox.dir("destination");
    let disk = &mut sandbox.disk;
    assert!(disk.hard_link(&below(&tree, "first"), &below(&tree, "second")));

    let outcome = copy(disk, &[tree], &destination);
    assert_clean(&outcome);

    let first = disk.found(&below(&destination, "tree/first")).unwrap();
    let second = disk.found(&below(&destination, "tree/second")).unwrap();
    assert_eq!((first.device, first.inode, first.links), (second.device, second.inode, 2));
    recorded(committed(undo(disk, &outcome.operation.unwrap())));
    assert!(!disk.holds(&below(&destination, "tree")));
}

#[test]
fn tests_copy_preserves_sparse_layout_when_extents_are_available() {
    let mut sandbox = Sandbox::new();
    let source = sandbox.file("sparse.bin", b"");
    let destination = sandbox.dir("destination");
    let disk = &mut sandbox.disk;
    let length = 16 * 1024 * 1024;
    let mut data = vec![0_u8; length];
    data[..5].copy_from_slice(b"start");
    data[length - 4..].copy_from_slice(b"end!");
    let inode = disk.at(&source).unwrap();
    disk.fill(inode, &data);
    disk.node_mut(inode).blocks = BTreeSet::from([0, length / BLOCK - 1]);

    assert_clean(&copy(disk, &[source], &destination));

    let copied = disk.at(&below(&destination, "sparse.bin")).unwrap();
    let node = disk.node(copied);
    assert_eq!(node.length, length as u64);
    assert!(node.blocks.len() * BLOCK < length);
    assert_eq!(&node.data[..5], b"start");
    assert_eq!(&node.data[length - 4..], b"end!");
}

#[test]
fn a_sparse_copy_says_what_failed_and_counts_its_holes() {
    let source = p("/disk/image");
    let chunk = || {
        let SparseStep::SeekData(data) = try_copy_sparse(&source, Some(8)) else {
            panic!("a file with content is probed for data");
        };
        let SparseStep::SeekHole(hole) = data.found(Seek::At(4)) else {
            panic!("data is probed for its end");
        };
        let SparseStep::SeekData(data) = hole.found(Seek::At(8), false) else {
            panic!("a file that begins with a hole is copied extent by extent");
        };
        assert_eq!(data.offset(), 0);
        let SparseStep::SeekHole(hole) = data.found(Seek::At(4)) else {
            panic!("each extent has an end");
        };
        let SparseStep::Copy(chunk) = hole.found(Seek::At(8), false) else {
            panic!("an extent is copied");
        };
        assert_eq!(chunk.range(), (4, 4));
        chunk
    };
    let failed = |step: SparseStep| match step {
        SparseStep::Failed(message) => message,
        other => panic!("unexpected {other:?}"),
    };
    assert_eq!(failed(try_copy_sparse(&source, None)), "Could not inspect “/disk/image”");
    assert_eq!(
        failed(chunk().copied(ChunkOutcome::Unseekable, false)),
        "Could not seek sparse file “/disk/image”"
    );
    assert_eq!(
        failed(chunk().copied(ChunkOutcome::Unread, false)),
        "Could not read “/disk/image”"
    );
    assert_eq!(
        failed(chunk().copied(ChunkOutcome::Unwritten, false)),
        "Could not write sparse extent for “/disk/image”"
    );
    let finish = || match chunk().copied(ChunkOutcome::Copied, false) {
        SparseStep::Finish(wanted) => wanted,
        other => panic!("unexpected {other:?}"),
    };
    let mut progress = TransferProgress::default();
    assert_eq!(
        finish().sized(false, &mut progress).unwrap_err(),
        "Could not size sparse file “/disk/image”"
    );
    assert_eq!(progress.snapshot().completed_bytes, 0);
    finish().sized(true, &mut progress).unwrap();
    assert_eq!(progress.snapshot().completed_bytes, 8);
}

#[test]
fn tests_xattr_policy_includes_user_and_posix_acl_namespaces_only() {
    for name in ["user.comment", "system.posix_acl_access", "system.posix_acl_default"] {
        assert!(supported_xattr_name(name.as_bytes()), "{name}");
    }
    for name in ["security.selinux", "trusted.overlay"] {
        assert!(!supported_xattr_name(name.as_bytes()), "{name}");
    }
}

// ---------------------------------------------------------------------------
// The window between inspecting a source entry and opening it.

fn copy_while(
    disk: &mut Disk,
    sources: &[PathBuf],
    destination: &PathBuf,
    interference: impl FnMut(&mut Disk, &PathBuf) + 'static,
) -> TransferOutcome {
    disk.interference = Some(Box::new(interference));
    let outcome = copy(disk, sources, destination);
    disk.interference = None;
    outcome
}

#[test]
fn copy_refuses_a_fifo_swapped_in_for_a_file_without_blocking() {
    let mut sandbox = Sandbox::new();
    let source = sandbox.dir("source");
    let report = sandbox.file("source/report.txt", b"report");
    let destination = sandbox.dir("destination");
    let fifo = sandbox.special("fifo", SnapshotKind::Fifo);
    let disk = &mut sandbox.disk;

    let outcome = copy_while(disk, &[source], &destination, move |disk, path| {
        if path.same(&report) {
            disk.rename_over(&fifo, &report);
        }
    });

    assert_eq!(outcome.failures.len(), 1, "{outcome:?}");
    assert!(outcome.failures[0].message.contains("report.txt"), "{:?}", outcome.failures);
    assert!(!disk.holds(&below(&destination, "source")), "nothing is published");
    assert!(no_working_names(disk, &destination));
}

#[test]
fn copy_refuses_a_link_swapped_in_for_a_file() {
    let mut sandbox = Sandbox::new();
    let source = sandbox.dir("source");
    let report = sandbox.file("source/report.txt", b"report");
    let secret = sandbox.file("secret", b"do not copy");
    let link = sandbox.link(&secret, "link");
    let destination = sandbox.dir("destination");
    let disk = &mut sandbox.disk;

    let outcome = copy_while(disk, &[source], &destination, move |disk, path| {
        if path.same(&report) {
            disk.rename_over(&link, &report);
        }
    });

    assert_eq!(outcome.failures.len(), 1, "{outcome:?}");
    assert!(!disk.holds(&below(&destination, "source")));
    assert!(no_working_names(disk, &destination));
}

#[test]
fn copy_refuses_a_file_replaced_between_inspection_and_open() {
    let mut sandbox = Sandbox::new();
    let source = sandbox.dir("source");
    let report = sandbox.file("source/report.txt", b"report");
    let impostor = sandbox.file("impostor", b"impostor");
    let destination = sandbox.dir("destination");
    let disk = &mut sandbox.disk;

    let outcome = copy_while(disk, &[source], &destination, move |disk, path| {
        if path.same(&report) {
            disk.rename_over(&impostor, &report);
        }
    });

    assert_eq!(outcome.failures.len(), 1, "{outcome:?}");
    assert!(outcome.failures[0].message.contains("was replaced"), "{:?}", outcome.failures);
    assert!(!disk.holds(&below(&destination, "source")));
}

#[test]
fn copy_reads_through_held_directories_when_a_component_is_swapped_for_a_link() {
    let mut sandbox = Sandbox::new();
    let source = sandbox.dir("source");
    let trigger = sandbox.file("source/sub/deep/a.txt", b"original");
    sandbox.file("source/sub/deep/b.txt", b"original too");
    sandbox.file("outside/deep/a.txt", b"planted");
    sandbox.file("outside/deep/b.txt", b"planted too");
    let destination = sandbox.dir("destination");
    let sub = sandbox.path("source/sub");
    let aside = sandbox.path("sub-aside");
    let outside = sandbox.path("outside");
    let disk = &mut sandbox.disk;

    let outcome = copy_while(disk, &[source], &destination, move |disk, path| {
        if path.same(&trigger) {
            disk.rename(&sub, &aside).unwrap();
            assert!(disk.symlink(&outside.to_bytes(), &sub));
        }
    });

    assert_clean(&outcome);
    assert_eq!(disk.read(&below(&destination, "source/sub/deep/a.txt")), b"original");
    assert_eq!(disk.read(&below(&destination, "source/sub/deep/b.txt")), b"original too");
    assert!(disk.is_dir(&below(&destination, "source/sub")));
}

#[test]
fn copy_refuses_a_link_swapped_in_for_a_directory_it_is_about_to_enter() {
    let mut sandbox = Sandbox::new();
    let source = sandbox.dir("source");
    sandbox.file("source/sub/a.txt", b"original");
    sandbox.file("outside/a.txt", b"planted");
    let destination = sandbox.dir("destination");
    let sub = sandbox.path("source/sub");
    let aside = sandbox.path("sub-aside");
    let outside = sandbox.path("outside");
    let disk = &mut sandbox.disk;

    let outcome = copy_while(disk, &[source], &destination, move |disk, path| {
        if path.same(&sub) {
            disk.rename(&sub, &aside).unwrap();
            assert!(disk.symlink(&outside.to_bytes(), &sub));
        }
    });

    assert_eq!(outcome.failures.len(), 1, "{outcome:?}");
    assert!(!disk.holds(&below(&destination, "source")));
}

// ---------------------------------------------------------------------------
// Replacements.

#[test]
fn the_abandoned_sweep_reclaims_only_dead_owners_undo_storage_from_this_boot() {
    let mut sandbox = Sandbox::new();
    let boot = boot_text();
    let abandoned = sandbox.file(&format!(".marcel-replaced-{boot}-0-0-report.txt"), b"old");
    let mine =
        sandbox.file(&format!(".marcel-replaced-{boot}-{PROCESS}-0-report.txt"), b"payload");
    let parents = sandbox
        .file(&format!(".marcel-replaced-{boot}-{PARENT_PROCESS}-0-report.txt"), b"payload");
    let other_boot = "f".repeat(32);
    let foreign = sandbox.file(&format!(".marcel-replaced-{other_boot}-0-0-report.txt"), b"?");
    let legacy = sandbox.file(".marcel-replaced-0-0-report.txt", b"?");
    let preserved = sandbox.file(".marcel-recovered-0-report.txt", b"ORIGINAL");
    let ordinary = sandbox.file("report.txt", b"payload");
    let root = sandbox.root();
    let disk = &mut sandbox.disk;

    assert_eq!(sweep(disk, &root), 1);

    assert!(!disk.holds(&abandoned), "a dead owner's undo storage is garbage");
    assert!(disk.holds(&mine), "this process can still undo, so its quarantine stays");
    assert!(disk.holds(&parents), "liveness is consulted, not equality with this process");
    assert!(disk.holds(&foreign), "another boot's pids are not this boot's");
    assert!(disk.holds(&legacy), "a name without a boot id is nobody's to sweep");
    assert_eq!(disk.read(&preserved), b"ORIGINAL");
    assert!(disk.holds(&ordinary), "user data is never touched");
    assert_eq!(process_entry(31).to_bytes(), b"/proc/31");
}

#[test]
fn the_sweep_reclaims_dead_and_foreign_staging_but_only_dead_replacements() {
    let mut sandbox = Sandbox::new();
    let boot_text = boot_text();
    let other_boot = "f".repeat(32);
    let prefix = staging_prefix(WorkingKind::Copy, &boot(), PROCESS, 5);
    let live = sandbox.dir(&format!("{}a1b2c3", String::from_utf8(prefix).unwrap()));
    let dead_copy = sandbox.dir(&format!(".marcel-copy-{boot_text}-0-0-a1b2c3"));
    let dead_archive = sandbox.dir(&format!(".marcel-archive-{boot_text}-0-0-a1b2c3"));
    sandbox.file(&format!(".marcel-archive-{boot_text}-0-0-a1b2c3/extracted/partial.bin"), b"?");
    let foreign_copy = sandbox.dir(&format!(".marcel-copy-{other_boot}-0-0-a1b2c3"));
    let foreign_replaced =
        sandbox.file(&format!(".marcel-replaced-{other_boot}-0-0-report.txt"), b"?");
    let legacy_copy = sandbox.dir(".marcel-copy-1-0-staging");
    let legacy_archive = sandbox.dir(".marcel-archive-abc");
    let ordinary = sandbox.file("report.txt", b"payload");
    let root = sandbox.root();
    let disk = &mut sandbox.disk;

    assert_eq!(sweep(disk, &root), 3);

    assert!(disk.holds(&live), "this process may still be writing here");
    assert!(!disk.holds(&dead_copy), "a dead owner's copy staging is partial output");
    assert!(!disk.holds(&dead_archive), "a dead owner's extraction is partial output");
    assert!(!disk.holds(&foreign_copy), "staging from another boot has no one coming back");
    assert!(disk.holds(&foreign_replaced), "a displaced original from another boot is kept");
    assert!(disk.holds(&legacy_copy), "a name without an owner is shown, not swept");
    assert!(disk.holds(&legacy_archive), "a name without an owner is shown, not swept");
    assert!(disk.holds(&ordinary), "user data is never touched");
}

#[test]
fn tests_a_failed_restoration_preserves_the_original_in_recovery_storage() {
    let mut sandbox = Sandbox::new();
    let source = sandbox.file("source/report.txt", b"NEW");
    sandbox.file("destination/report.txt", b"ORIGINAL");
    let destination = sandbox.path("destination");
    let disk = &mut sandbox.disk;

    // One name, three renames: the quarantine succeeds because it targets a
    // hidden name, then publication and restoration both fail.
    disk.failing.push(b"report.txt".to_vec());
    let outcome = replacing(disk, &[source], &destination);

    assert_eq!(outcome.failures.len(), 1, "{outcome:?}");
    let message = &outcome.failures[0].message;
    assert!(
        message.contains(RECOVERY_REMNANT_PREFIX),
        "the failure says where the data went: {message}"
    );
    assert!(no_replacement_quarantines(disk, &destination));

    let preserved: Vec<PathBuf> = disk
        .list(&destination)
        .unwrap()
        .iter()
        .filter(|name| is_recovery_remnant_name(name.as_bytes()))
        .map(|name| destination.join(name.as_bytes()))
        .collect();
    assert_eq!(preserved.len(), 1, "{preserved:?}");
    assert_eq!(disk.read(&preserved[0]), b"ORIGINAL");
}

#[test]
fn tests_quarantine_deletion_refuses_an_object_it_did_not_record() {
    let mut sandbox = Sandbox::new();
    let quarantine = sandbox.file(".marcel-replaced-1-0-report.txt", b"ORIGINAL");
    let path = sandbox.path("report.txt");
    let disk = &mut sandbox.disk;
    let identity = FileIdentity::read(&quarantine, disk.lookup(&quarantine)).unwrap();
    let item = ReplacedItem { path: path.clone(), quarantine: quarantine.clone(), identity };

    // Someone else takes the name in the meantime.
    assert!(disk.remove_file(&quarantine));
    disk.write(&quarantine, b"SOMEONE ELSE'S");
    release(disk, &item);
    assert_eq!(disk.read(&quarantine), b"SOMEONE ELSE'S");

    // The object it actually recorded is released as before.
    let identity = FileIdentity::read(&quarantine, disk.lookup(&quarantine)).unwrap();
    release(disk, &ReplacedItem { path, quarantine: quarantine.clone(), identity });
    assert!(!disk.holds(&quarantine));
}

#[test]
fn tests_a_replacement_of_a_name_near_the_length_limit_succeeds() {
    let mut sandbox = Sandbox::new();
    let long = "l".repeat(250);
    let source = sandbox.file(&format!("source/{long}"), b"NEW");
    let replaced = sandbox.file(&format!("destination/{long}"), b"ORIGINAL");
    let destination = sandbox.path("destination");
    let disk = &mut sandbox.disk;

    let outcome = replacing(disk, &[source], &destination);

    assert_clean(&outcome);
    assert_eq!(disk.read(&replaced), b"NEW");
    let longest = disk.list(&destination).unwrap().iter().map(|n| n.as_bytes().len()).max();
    assert!(longest <= Some(255), "{longest:?}");
    // And the replacement is still reversible.
    committed(undo(disk, &outcome.operation.expect("a replacement records undo")));
    assert_eq!(disk.read(&replaced), b"ORIGINAL");
}

#[test]
fn tests_an_identity_refresh_refuses_an_object_it_did_not_commit() {
    let mut sandbox = Sandbox::new();
    let path = sandbox.file("published.txt", b"committed");
    let mut snapshots = snapshot_tree(&sandbox.disk, &path, usize::MAX).unwrap();
    let replacement = sandbox.file("elsewhere.txt", b"someone else's");
    let disk = &mut sandbox.disk;
    disk.rename_over(&replacement, &path);

    let found = founds(disk, [&path].into_iter());
    assert!(
        !refresh_snapshot_identities(&mut snapshots, &found),
        "a substituted object is not the one that was committed"
    );

    // And the object it did commit still refreshes.
    let mut snapshots = snapshot_tree(disk, &path, usize::MAX).unwrap();
    assert!(refresh_snapshot_identities(&mut snapshots, &found));
}

#[test]
fn tests_undoing_a_replacement_puts_the_displaced_file_back() {
    let mut sandbox = Sandbox::new();
    let source = sandbox.file("source/report.txt", b"replacement");
    let replaced = sandbox.file("destination/report.txt", b"the original");
    let destination = sandbox.path("destination");
    let disk = &mut sandbox.disk;

    let outcome = replacing(disk, &[source], &destination);

    assert_clean(&outcome);
    assert!(!outcome.undo_unavailable);
    assert_eq!(disk.read(&replaced), b"replacement");
    committed(undo(disk, &outcome.operation.expect("a replacement retains undo")));
    assert_eq!(disk.read(&replaced), b"the original");
    assert!(no_replacement_quarantines(disk, &destination));
}

#[test]
fn tests_a_failed_replacement_restores_what_it_displaced() {
    let mut sandbox = Sandbox::new();
    // A socket cannot be copied, so the transfer fails after the destination
    // has already been moved aside.
    let source = sandbox.dir("source/payload");
    sandbox.socket("source/payload/daemon.sock");
    let replaced = sandbox.file("destination/payload", b"the original");
    let destination = sandbox.path("destination");
    let disk = &mut sandbox.disk;

    let outcome = replacing(disk, &[source], &destination);

    assert_eq!(outcome.failures.len(), 1, "{outcome:?}");
    assert_eq!(
        disk.read(&replaced),
        b"the original",
        "a failed replacement must not consume the original"
    );
    assert!(no_replacement_quarantines(disk, &destination));
}

#[test]
fn tests_an_oversized_replacement_succeeds_without_undo() {
    let mut sandbox = Sandbox::new();
    let source = sandbox.file("source/blob.bin", b"replacement");
    let replaced = sandbox.file("destination/blob.bin", vec![0_u8; 4096]);
    let destination = sandbox.path("destination");
    let disk = &mut sandbox.disk;
    let budget = TransferBudget { replacement_undo_byte_limit: 1024, ..TransferBudget::default() };

    let outcome = budgeted(disk, &[source], &destination, TransferMode::Copy, budget);

    assert_clean(&outcome);
    assert!(outcome.undo_unavailable, "an oversized replacement cannot be undone");
    assert_eq!(disk.read(&replaced), b"replacement");
    assert!(
        no_replacement_quarantines(disk, &destination),
        "an unreachable quarantine must be released, not left on disk"
    );
}

#[test]
fn a_replacement_whose_copy_lost_its_undo_is_released_rather_than_recorded() {
    for overflow_first in [false, true] {
        let mut sandbox = Sandbox::new();
        let photos = sandbox.dir("source/photos");
        sandbox.file("source/photos/new.txt", b"new");
        sandbox.dir("destination/photos");
        let report = sandbox.file("source/report.txt", b"replacement");
        let replaced = sandbox.file("destination/report.txt", b"the original");
        let album = sandbox.dir("source/album");
        for index in 0..6 {
            sandbox.file(&format!("source/album/{index}.txt"), b"payload");
        }
        let destination = sandbox.path("destination");
        let disk = &mut sandbox.disk;
        let budget = TransferBudget { undo_snapshot_limit: 6, ..TransferBudget::default() };
        let sources =
            if overflow_first { vec![photos, album, report] } else { vec![photos, report, album] };

        let outcome = budgeted(disk, &sources, &destination, TransferMode::Copy, budget);

        assert_clean(&outcome);
        assert!(outcome.undo_unavailable, "overflow_first={overflow_first}: {outcome:?}");
        assert_eq!(disk.read(&replaced), b"replacement");
        assert!(
            no_working_names(disk, &destination),
            "overflow_first={overflow_first}: an unrestorable quarantine must be released"
        );
        let record = outcome.operation.expect("the merge keeps a record");
        let undone = undo(disk, &record);
        assert!(!undone.is_err(), "overflow_first={overflow_first}: undo must not fail");
        assert!(!disk.holds(&below(&destination, "photos/new.txt")));
        assert_eq!(disk.read(&replaced), b"replacement", "an unrecorded replacement stands");
        assert!(no_working_names(disk, &destination), "undo must leave no remnants");
    }
}

#[test]
fn a_replacement_whose_move_lost_its_undo_is_released_rather_than_recorded() {
    let mut sandbox = Sandbox::new();
    let note = sandbox.file("source/note.txt", b"note");
    let album = sandbox.dir("source/album");
    for index in 0..6 {
        sandbox.file(&format!("source/album/{index}.txt"), b"payload");
    }
    let replaced = sandbox.file("destination/album", b"the original");
    let destination = sandbox.path("destination");
    let disk = &mut sandbox.disk;
    let budget = TransferBudget { undo_snapshot_limit: 4, ..TransferBudget::default() };

    let sources = [note.clone(), album];
    let outcome = budgeted(disk, &sources, &destination, TransferMode::Move, budget);

    assert_clean(&outcome);
    assert!(outcome.undo_unavailable, "{outcome:?}");
    assert!(disk.is_dir(&replaced), "the move stands");
    assert!(no_working_names(disk, &destination), "an unrestorable quarantine is released");
    let record = outcome.operation.expect("the first move keeps its record");
    let undone = undo(disk, &record);
    assert!(!undone.is_err(), "undo must not fail");
    assert_eq!(disk.read(&note), b"note", "the recorded move is taken back");
    assert!(disk.is_dir(&replaced), "the unrecorded move stands");
    assert!(no_working_names(disk, &destination), "undo must leave no remnants");
}

// ---------------------------------------------------------------------------
// Merges.

/// A folder to move, and a drive to move it to.
fn drive_fixture(bare: bool) -> (Sandbox, PathBuf, PathBuf) {
    let mut sandbox = Sandbox::new();
    let drive = sandbox.dir("drive");
    sandbox.disk.mounts.push((drive.clone(), bare));
    let album = sandbox.dir("album");
    sandbox.file("album/one.txt", "one");
    sandbox.dir("album/inner");
    let two = sandbox.file("album/inner/two.txt", "two");
    sandbox.disk.set_permissions(&two, 0o640);
    sandbox.link(&p("one.txt"), "album/link");
    (sandbox, album, drive)
}

#[test]
fn a_move_to_another_filesystem_copies_checks_and_removes_the_original() {
    let (mut sandbox, album, drive) = drive_fixture(false);
    let disk = &mut sandbox.disk;
    let outcome = mv(disk, &[album.clone()], &drive);
    assert!(outcome.failures.is_empty(), "{outcome:?}");
    assert_eq!(outcome.completed.len(), 1);
    let moved = below(&drive, "album");
    assert!(same(&outcome.completed[0].destination, &moved));
    assert!(outcome.dropped.note().is_none());
    assert!(!disk.holds(&album));
    assert_eq!(disk.read(&below(&moved, "one.txt")), b"one");
    assert_eq!(disk.mode_of(&below(&moved, "inner/two.txt")), 0o640);
    assert!(disk.holds(&below(&moved, "link")));
    assert!(no_working_names(disk, &drive));

    let record = outcome.operation.expect("a move across filesystems retains undo");
    let undone = committed(undo(disk, &record));
    assert!(!disk.holds(&moved));
    assert_eq!(disk.read(&below(&album, "inner/two.txt")), b"two");
    assert_eq!(disk.mode_of(&below(&album, "inner/two.txt")), 0o640);

    let redone = committed(redo(disk, &recorded(undone)));
    assert!(redone.is_undoable());
    assert!(!disk.holds(&album));
    assert_eq!(disk.read(&below(&moved, "one.txt")), b"one");
}

#[test]
fn an_original_that_changed_while_it_was_carried_is_kept() {
    let (mut sandbox, album, drive) = drive_fixture(false);
    let disk = &mut sandbox.disk;
    let (watched, changed) = (below(&drive, "album"), below(&album, "one.txt"));
    disk.interference = Some(Box::new(move |disk: &mut Disk, path: &PathBuf| {
        if path.file_name() == watched.file_name() && path.starts_with(&watched.parent().unwrap()) {
            disk.write(&changed, b"later");
        }
    }));
    let outcome = mv(disk, &[album.clone()], &drive);
    assert_eq!(outcome.failures.len(), 1);
    assert!(outcome.failures[0].message.contains("changed or was replaced"), "{outcome:?}");
    assert!(!outcome.touched && outcome.operation.is_none());
    assert_eq!(disk.read(&below(&album, "one.txt")), b"later");
    assert!(!disk.holds(&below(&drive, "album")));
    assert!(no_working_names(disk, &drive));
}

#[test]
fn an_original_that_cannot_be_removed_is_reported_and_loses_undo() {
    let (mut sandbox, album, drive) = drive_fixture(false);
    let root = sandbox.root();
    let disk = &mut sandbox.disk;
    disk.seal(&root, true);
    let outcome = mv(disk, &[album.clone()], &drive);
    assert_eq!(outcome.failures.len(), 1);
    let message = &outcome.failures[0].message;
    assert!(message.contains(", but could not remove the original: "), "{message}");
    assert!(outcome.touched && outcome.undo_unavailable);
    assert!(outcome.operation.is_none());
    assert_eq!(disk.read(&below(&drive, "album/one.txt")), b"one");
    assert_eq!(disk.read(&below(&album, "one.txt")), b"one");
}

#[test]
fn what_a_drive_cannot_keep_is_dropped_and_reported_once() {
    let (mut sandbox, album, drive) = drive_fixture(true);
    let disk = &mut sandbox.disk;
    let inode = disk.at(&below(&album, "one.txt")).unwrap();
    disk.node_mut(inode).attributes.insert(b"user.tag".to_vec(), b"red".to_vec());
    let outcome = mv(disk, &[album.clone()], &drive);
    assert!(outcome.failures.is_empty(), "{outcome:?}");
    assert_eq!(
        outcome.dropped.note().unwrap(),
        "The destination cannot keep everything; dropped: permissions, extended attributes, \
         symbolic links"
    );
    assert!(!disk.holds(&album));
    assert!(!disk.holds(&below(&drive, "album/link")));
    assert_eq!(disk.read(&below(&drive, "album/inner/two.txt")), b"two");
    let only = Dropped { permissions: false, attributes: false, links: true };
    assert_eq!(
        only.note().unwrap(),
        "The destination cannot keep everything; dropped: symbolic links"
    );
    let denied = AttributeError { unsupported: false, code: Some(13) };
    assert_eq!(kept_despite(denied), Kept::Failed);
}

#[test]
fn an_attribute_nothing_is_known_of_was_not_carried() {
    let wanted = preserve_metadata(&p("/a"), &p("/b"));
    let carry = wanted.preserve_supported_xattrs(Ok(vec![b"user.tag".to_vec()])).unwrap();
    let message = carry.carried(&Vec::new()).unwrap_err();
    assert_eq!(message, "Could not read attribute “user.tag” from “/a”");
}

#[test]
fn an_undo_whose_removal_was_rolled_back_discards_its_record() {
    let mut sandbox = Sandbox::new();
    let first = sandbox.file("first.txt", "first");
    let second = sandbox.file("second.txt", "second");
    let destination = sandbox.dir("destination");
    let disk = &mut sandbox.disk;
    let outcome = copy(disk, &[first, second], &destination);
    let record = outcome.operation.unwrap();
    // The second root cannot be moved aside, so the first is put back.
    let sequence = disk.sequence;
    disk.failing.push(format!(".marcel-delete-{PROCESS}-{}-second.txt", sequence + 1).into_bytes());
    let outcome = undo(disk, &record);
    assert!(!outcome.keeps_history(), "{outcome:?}");
    assert!(disk.holds(&below(&destination, "first.txt")));
    assert!(disk.holds(&below(&destination, "second.txt")));
}

#[test]
fn tests_merging_an_empty_directory_keeps_the_destination_intact() {
    let mut sandbox = Sandbox::new();
    let shared = sandbox.dir("source/shared");
    let kept = sandbox.file("destination/shared/keep.txt", b"keep");
    let destination = sandbox.path("destination");
    let disk = &mut sandbox.disk;

    let merge_all = ConflictDecision::for_all(ConflictResponse::Replace);
    let outcome =
        transfer_deciding(disk, &[shared], &destination, TransferMode::Copy, merge_all);

    assert_clean(&outcome);
    assert_eq!(disk.read(&kept), b"keep");
    // Nothing was added, so there is nothing to undo.
    assert!(outcome.operation.is_none());
}

#[test]
fn tests_merging_adds_what_is_missing_and_keeps_what_is_there() {
    let mut sandbox = Sandbox::new();
    let photos = sandbox.dir("source/photos");
    sandbox.file("source/photos/shared.txt", b"NEW");
    sandbox.file("source/photos/only-in-source.txt", b"NEW");
    sandbox.file("source/photos/holiday/beach.txt", b"NEW");
    sandbox.file("source/photos/new-album/cover.txt", b"NEW");
    sandbox.file("destination/photos/shared.txt", b"ORIGINAL");
    sandbox.file("destination/photos/only-in-destination.txt", b"ORIGINAL");
    sandbox.file("destination/photos/holiday/sunset.txt", b"ORIGINAL");
    let merged = sandbox.path("destination/photos");
    let destination = sandbox.path("destination");
    let disk = &mut sandbox.disk;

    let outcome = replacing(disk, &[photos.clone()], &destination);

    assert_clean(&outcome);
    let untouched = |disk: &Disk| {
        assert_eq!(disk.read(&below(&merged, "shared.txt")), b"ORIGINAL");
        assert_eq!(disk.read(&below(&merged, "only-in-destination.txt")), b"ORIGINAL");
        assert_eq!(disk.read(&below(&merged, "holiday/sunset.txt")), b"ORIGINAL");
    };
    untouched(disk);
    assert_eq!(disk.read(&below(&merged, "only-in-source.txt")), b"NEW");
    assert_eq!(disk.read(&below(&merged, "holiday/beach.txt")), b"NEW");
    assert_eq!(disk.read(&below(&merged, "new-album/cover.txt")), b"NEW");

    committed(undo(disk, &outcome.operation.expect("a merge retains undo")));
    untouched(disk);
    assert!(!disk.holds(&below(&merged, "only-in-source.txt")));
    assert!(!disk.holds(&below(&merged, "holiday/beach.txt")));
    assert!(!disk.holds(&below(&merged, "new-album")));
    assert_eq!(disk.read(&below(&photos, "shared.txt")), b"NEW");
}

#[test]
fn tests_undoing_a_merge_leaves_later_additions_alone() {
    let mut sandbox = Sandbox::new();
    let photos = sandbox.dir("source/photos");
    sandbox.file("source/photos/arrived.txt", b"NEW");
    sandbox.dir("destination/photos");
    let destination = sandbox.path("destination");

    let outcome = replacing(&mut sandbox.disk, &[photos], &destination);
    let operation = outcome.operation.expect("a merge retains undo");
    let later = sandbox.file("destination/photos/added-later.txt", b"MINE");
    let disk = &mut sandbox.disk;

    committed(undo(disk, &operation));

    assert!(!disk.holds(&below(&destination, "photos/arrived.txt")));
    assert_eq!(disk.read(&later), b"MINE");
}

#[test]
fn copy_undo_with_a_merge_refuses_a_modified_output_before_removing_anything() {
    let mut sandbox = Sandbox::new();
    sandbox.file("source/new_item/inside.txt", b"NEW");
    sandbox.file("source/photos/arrived.txt", b"NEW");
    sandbox.dir("destination/photos");
    let sources = [sandbox.path("source/new_item"), sandbox.path("source/photos")];
    let destination = sandbox.path("destination");

    let outcome = replacing(&mut sandbox.disk, &sources, &destination);
    let operation = outcome.operation.expect("the transfer retains undo");
    sandbox.file("destination/new_item/added-later.txt", b"MINE");
    let disk = &mut sandbox.disk;

    let result = undo(disk, &operation);

    assert!(
        matches!(result, MutationOutcome::Unchanged(_)),
        "a refusal raised before anything was removed must stay retryable: {result:?}"
    );
    assert_eq!(
        disk.read(&below(&destination, "photos/arrived.txt")),
        b"NEW",
        "the merge's additions must survive a refused undo"
    );
}

#[test]
fn copy_undo_that_removed_merge_additions_discards_rather_than_claiming_no_effect() {
    let mut sandbox = Sandbox::new();
    let sources = [sandbox.file("source/new_item.txt", b"NEW"), sandbox.dir("source/photos")];
    sandbox.file("source/photos/arrived.txt", b"NEW");
    sandbox.dir("destination/photos");
    let destination = sandbox.path("destination");
    let disk = &mut sandbox.disk;

    let outcome = replacing(disk, &sources, &destination);
    let operation = outcome.operation.expect("the transfer retains undo");

    disk.seal(&destination, true);
    let result = undo(disk, &operation);
    disk.seal(&destination, false);

    let MutationOutcome::Discarded { changes, .. } = result else {
        panic!("an undo that removed the merge's additions must discard: {result:?}");
    };
    let arrived = below(&destination, "photos/arrived.txt");
    assert!(
        changes.removed.iter().any(|path| path.same(&arrived)),
        "the removals that committed must be reported: {changes:?}"
    );
    assert!(!disk.holds(&arrived), "this depends on the merge's additions being removed");
    assert_eq!(
        disk.read(&below(&destination, "new_item.txt")),
        b"NEW",
        "the copied output could not be removed and must survive"
    );
}

#[test]
fn tests_a_merge_stopped_by_failure_records_what_it_added() {
    let mut sandbox = Sandbox::new();
    let photos = sandbox.dir("source/photos");
    sandbox.file("source/photos/arrives.txt", b"NEW");
    sandbox.file("source/photos/blocked.txt", b"NEW");
    sandbox.file("source/photos/album/inside.txt", b"NEW");
    let kept = sandbox.file("destination/photos/keep.txt", b"ORIGINAL");
    let merged = sandbox.path("destination/photos");
    let destination = sandbox.path("destination");
    let disk = &mut sandbox.disk;

    disk.failing.push(b"blocked.txt".to_vec());
    let outcome = replacing(disk, &[photos], &destination);

    assert_eq!(outcome.failures.len(), 1, "{outcome:?}");
    assert!(outcome.completed.is_empty(), "{outcome:?}");
    assert_eq!(disk.read(&below(&merged, "arrives.txt")), b"NEW");
    assert!(disk.is_dir(&below(&merged, "album")));

    let operation = outcome.operation.expect("a partial merge still records its additions");
    committed(undo(disk, &operation));

    assert!(!disk.holds(&below(&merged, "arrives.txt")));
    assert!(!disk.holds(&below(&merged, "album")));
    assert_eq!(disk.read(&kept), b"ORIGINAL");
}

#[test]
fn tests_a_cancelled_merge_is_reported_as_cancellation() {
    let mut sandbox = Sandbox::new();
    let sources = vec![sandbox.dir("source/photos"), sandbox.dir("source/later")];
    sandbox.file("source/photos/arrives.txt", b"NEW");
    sandbox.dir("destination/photos");
    let destination = sandbox.path("destination");
    let disk = &mut sandbox.disk;
    disk.cancelled = true;

    let outcome = replacing(disk, &sources, &destination);

    assert!(outcome.failures.is_empty(), "cancelling is not a failure: {outcome:?}");
    assert!(same_all(&outcome.cancelled, &sources), "{outcome:?}");
    assert!(!disk.holds(&below(&destination, "photos/arrives.txt")));
}

#[test]
fn a_merge_cancelled_half_way_keeps_what_it_added() {
    let mut sandbox = Sandbox::new();
    let photos = sandbox.dir("source/photos");
    sandbox.file("source/photos/album/inside.txt", b"NEW");
    let merged = sandbox.dir("destination/photos");
    let disk = &mut sandbox.disk;

    let plan = merge_plan(disk, &photos, &merged);
    let merge = merge_directories(plan, 100).unwrap();
    let MergeStep::MakeDirectory(wanted) = merge.next(false) else {
        panic!("a directory is made first");
    };
    assert!(disk.make_directory(&wanted.directory));
    let merge = wanted.made(true).unwrap();
    let MergeStep::Finish(finish) = merge.next(true) else {
        panic!("a cancelled merge stops");
    };
    let album = below(&merged, "album");
    assert!(same_all(&finish.touched(), &[merged.clone()]));
    let outcome = finish.described(&founds(disk, [&album].into_iter()));
    assert!(matches!(outcome.stopped, Some(MergeStop::Cancelled)));
    assert!(outcome.undoable);
    assert_eq!(outcome.created.len(), 1);
    assert!(same(&outcome.created[0].path, &album));
}

#[test]
fn work_past_the_snapshot_budget_succeeds_without_undo() {
    let mut sandbox = Sandbox::new();
    let photos = sandbox.dir("source/photos");
    let album = sandbox.dir("source/album");
    let plain = sandbox.dir("source/plain");
    for index in 0..4 {
        sandbox.file(&format!("source/photos/{index}.txt"), b"NEW");
        sandbox.file(&format!("source/album/{index}.txt"), b"payload");
    }
    sandbox.file("source/plain/one", b"1");
    sandbox.file("source/plain/two", b"2");
    sandbox.dir("destination/photos");
    let destination = sandbox.path("destination");
    let disk = &mut sandbox.disk;
    let budget = TransferBudget { undo_snapshot_limit: 2, ..TransferBudget::default() };

    let merged = budgeted(disk, &[photos], &destination, TransferMode::Copy, budget);
    assert_clean(&merged);
    assert_eq!(merged.completed.len(), 1, "{merged:?}");
    assert!(merged.undo_unavailable, "a merge past the budget is not undoable: {merged:?}");
    for index in 0..4 {
        assert!(
            disk.holds(&below(&destination, &format!("photos/{index}.txt"))),
            "the merge still happens"
        );
    }

    let moved = budgeted(disk, &[album.clone()], &destination, TransferMode::Move, budget);
    assert_clean(&moved);
    assert_eq!(moved.completed.len(), 1, "{moved:?}");
    assert!(moved.undo_unavailable, "a move past the budget is not undoable: {moved:?}");
    assert!(moved.operation.is_none(), "{moved:?}");
    assert!(!disk.holds(&album), "the move still happens");
    assert_eq!(disk.read(&below(&destination, "album/0.txt")), b"payload");

    let copied = budgeted(disk, &[plain], &destination, TransferMode::Copy, budget);
    assert_clean(&copied);
    assert!(copied.undo_unavailable);
    assert!(copied.operation.is_none());
    assert_eq!(disk.read(&below(&destination, "plain/one")), b"1");
    assert_eq!(disk.read(&below(&destination, "plain/two")), b"2");
}

// ---------------------------------------------------------------------------
// Permanent deletion.

#[test]
fn a_tree_holding_two_links_to_one_file_is_deleted_completely() {
    let mut sandbox = Sandbox::new();
    let target = sandbox.dir("tree");
    sandbox.file("tree/first", b"shared");
    let disk = &mut sandbox.disk;
    assert!(disk.hard_link(&below(&target, "first"), &below(&target, "second")));

    let outcome = delete(disk, &[target.clone()]);

    assert!(outcome.failures.is_empty(), "{outcome:?}");
    assert!(!disk.holds(&target));
}

#[test]
fn a_trash_backing_that_changed_since_it_was_checked_is_refused() {
    let mut sandbox = Sandbox::new();
    let backing = sandbox.file("payload.txt", b"the object the purge approved");
    let approved = ObjectKey::of(&sandbox.disk.found(&backing).unwrap());
    let replacement = sandbox.file("elsewhere.txt", b"someone else's data");
    let disk = &mut sandbox.disk;
    disk.rename_over(&replacement, &backing);

    let mut progress = TransferProgress::default();
    let backings = vec![Approved { path: backing.clone(), key: approved }];
    let deletion = delete_trash_backings(backings, &mut progress);
    let outcome = run_deletion(disk, deletion, &mut progress);

    assert_eq!(outcome.failures.len(), 1, "{outcome:?}");
    assert!(outcome.completed.is_empty(), "{outcome:?}");
    assert_eq!(disk.read(&backing), b"someone else's data");

    let key = ObjectKey::of(&disk.found(&backing).unwrap());
    let backings = vec![Approved { path: backing.clone(), key }];
    let deletion = delete_trash_backings(backings, &mut progress);
    let outcome = run_deletion(disk, deletion, &mut progress);
    assert!(outcome.failures.is_empty(), "{outcome:?}");
    assert!(!disk.holds(&backing));
}

#[test]
fn permanently_deletes_files_directories_and_symlinks_without_following() {
    let mut sandbox = Sandbox::new();
    let outside = sandbox.dir("outside");
    let kept = sandbox.file("outside/keep.txt", b"keep");
    let target = sandbox.dir("target");
    sandbox.file("target/file.txt", b"delete");
    sandbox.link(&outside, "target/link");
    let disk = &mut sandbox.disk;
    let mut progress = TransferProgress::default();

    let outcome = delete_with(disk, &[target.clone()], &mut progress);

    assert!(same_all(&outcome.completed, &[target.clone()]), "{:#?}", outcome.failures);
    assert!(outcome.failures.is_empty(), "{:#?}", outcome.failures);
    assert!(!disk.holds(&target));
    assert_eq!(disk.read(&kept), b"keep");
    let snapshot = progress.snapshot();
    assert_eq!(snapshot.completed_items, snapshot.total_items);
}

#[test]
fn occupied_quarantine_names_do_not_overwrite() {
    let mut sandbox = Sandbox::new();
    let target = sandbox.file("note.txt", b"delete");
    let collision = sandbox.file(&format!(".marcel-delete-{PROCESS}-0-note.txt"), b"keep");
    let disk = &mut sandbox.disk;

    let outcome = delete(disk, &[target]);

    assert!(outcome.failures.is_empty(), "{:#?}", outcome.failures);
    assert_eq!(disk.read(&collision), b"keep");
}

#[test]
fn nested_selected_paths_are_deleted_once_by_their_top_level_root() {
    let mut sandbox = Sandbox::new();
    let target = sandbox.dir("target");
    let child = sandbox.file("target/child.txt", b"delete");

    let outcome = delete(&mut sandbox.disk, &[target.clone(), child]);

    assert!(same_all(&outcome.completed, &[target]), "{:#?}", outcome.failures);
    assert!(outcome.failures.is_empty(), "{:#?}", outcome.failures);
}

/// A root already staged and planned.
fn planned_root(sandbox: &Sandbox, quarantine: &str) -> QuarantinedRoot {
    let quarantine = sandbox.path(quarantine);
    let mut progress = TransferProgress::default();
    let entries = delete_plan(&sandbox.disk, &quarantine, &mut progress).unwrap();
    QuarantinedRoot { original: sandbox.path("target"), quarantine, entries }
}

#[test]
fn a_subdirectory_swapped_for_a_link_after_planning_does_not_delete_its_target() {
    let mut sandbox = Sandbox::new();
    sandbox.file("quarantine/child/keep.txt", b"doomed");
    let outside = sandbox.dir("outside");
    let kept = sandbox.file("outside/keep.txt", b"keep");
    let root = planned_root(&sandbox, "quarantine");
    assert_eq!(root.entries.len(), 3);

    let child = sandbox.path("quarantine/child");
    assert!(sandbox.disk.remove_tree(&child));
    sandbox.link(&outside, "quarantine/child");
    let quarantine = sandbox.path("quarantine");
    let disk = &mut sandbox.disk;

    let failures = erase(disk, root, &mut TransferProgress::default());

    assert!(!failures.is_empty(), "the swap must be reported, not walked through");
    assert_eq!(disk.read(&kept), b"keep");
    assert_eq!(disk.found(&child).unwrap().kind, SnapshotKind::Symlink);
    assert!(disk.is_dir(&quarantine));
}

#[test]
fn a_quarantine_root_swapped_for_a_link_is_refused() {
    let mut sandbox = Sandbox::new();
    sandbox.file("quarantine/note.txt", b"doomed");
    let outside = sandbox.dir("outside");
    let kept = sandbox.file("outside/note.txt", b"keep");
    let root = planned_root(&sandbox, "quarantine");

    let quarantine = sandbox.path("quarantine");
    assert!(sandbox.disk.remove_tree(&quarantine));
    sandbox.link(&outside, "quarantine");
    let disk = &mut sandbox.disk;

    let failures = erase(disk, root, &mut TransferProgress::default());

    assert_eq!(failures.len(), 2, "{failures:#?}");
    assert_eq!(disk.read(&kept), b"keep");
    assert!(disk.is_dir(&outside));
}

#[test]
fn a_tree_holding_a_socket_and_a_fifo_is_deleted_completely() {
    let mut sandbox = Sandbox::new();
    let target = sandbox.dir("tree");
    sandbox.socket("tree/socket");
    sandbox.special("tree/fifo", SnapshotKind::Fifo);

    let outcome = delete(&mut sandbox.disk, &[target.clone()]);

    assert!(outcome.failures.is_empty(), "{outcome:?}");
    assert!(!sandbox.disk.holds(&target));
}

#[test]
fn a_deletion_that_cannot_stage_every_root_puts_the_others_back() {
    let mut sandbox = Sandbox::new();
    let first = sandbox.file("open/first", b"1");
    let second = sandbox.file("closed/second", b"2");
    let closed = sandbox.path("closed");
    let disk = &mut sandbox.disk;
    disk.seal(&closed, true);

    let outcome = delete(disk, &[first.clone(), second.clone()]);

    assert!(outcome.completed.is_empty(), "{outcome:?}");
    assert_eq!(outcome.failures.len(), 1, "{outcome:?}");
    assert_eq!(disk.read(&first), b"1");
    assert_eq!(disk.read(&second), b"2");
    assert!(outcome.summarize_failures().contains("closed/second"));
}

// ---------------------------------------------------------------------------
// What is at a path.

#[test]
fn occupancy_counts_dangling_symlinks_as_occupied() {
    let mut sandbox = Sandbox::new();
    let link = sandbox.link(&p("missing"), "link");
    let vacant = sandbox.path("vacant");
    let disk = &sandbox.disk;

    assert_eq!(path_occupancy(&disk.lookup(&link)).unwrap(), PathOccupancy::Occupied);
    assert_eq!(path_occupancy(&disk.lookup(&vacant)).unwrap(), PathOccupancy::Vacant);
    assert!(ensure_unoccupied(&link, &disk.lookup(&link)).is_err());
    let failed = Lookup::Failed("Input/output error".to_string());
    assert_eq!(path_occupancy(&failed).unwrap_err(), "Input/output error");
    let message = inspect(&vacant, Lookup::Missing).unwrap_err();
    assert_eq!(message, "Could not inspect “/home/me/sandbox/vacant”");
}

// ---------------------------------------------------------------------------
// Archives.

#[test]
fn extraction_tidies_one_or_multiple_top_level_items_without_overwrite() {
    let mut sandbox = Sandbox::new();
    let archive = sandbox.file("bundle.zip", b"archive");
    let (single, several) = (sandbox.path("file.txt"), sandbox.path("bundle"));

    let outcome = extract(&mut sandbox.disk, Backend::One, &archive).unwrap();
    assert!(same(&outcome.published, &single));
    assert_eq!(sandbox.disk.read(&single), b"test");

    assert!(sandbox.disk.remove_file(&single));
    let outcome = extract(&mut sandbox.disk, Backend::Multiple, &archive).unwrap();
    assert!(same(&outcome.published, &several));
    assert_eq!(sandbox.disk.read(&below(&several, "one.txt")), b"one");

    assert!(sandbox.disk.remove_tree(&several));
    let occupied = sandbox.file("file.txt", b"occupied");
    assert!(extract(&mut sandbox.disk, Backend::One, &archive).is_err());
    assert_eq!(sandbox.disk.read(&occupied), b"occupied");
}

#[test]
fn extraction_answers_an_occupied_destination_like_a_copy() {
    let mut sandbox = Sandbox::new();
    let archive = sandbox.file("bundle.zip", b"archive");
    let occupied = sandbox.file("file.txt", b"occupied");
    let beside = sandbox.path("file (2).txt");

    let outcome = extract_with(&mut sandbox.disk, Backend::One, &archive, true, &mut |_| {
        ConflictDecision::once(ConflictResponse::AutoRename)
    })
    .unwrap();
    assert!(same(&outcome.published, &beside));
    assert_eq!(sandbox.disk.read(&outcome.published), b"test");
    assert_eq!(sandbox.disk.read(&occupied), b"occupied");
    assert!(outcome.replaced.is_empty());
    assert!(sandbox.disk.remove_file(&outcome.published));

    let error = extract_with(&mut sandbox.disk, Backend::One, &archive, true, &mut |_| {
        ConflictDecision::once(ConflictResponse::Skip)
    })
    .unwrap_err();
    assert!(error.contains("nothing was written"), "{error}");
    assert_eq!(sandbox.names(""), ["bundle.zip", "file.txt"]);

    let outcome = extract_with(&mut sandbox.disk, Backend::One, &archive, true, &mut |_| {
        ConflictDecision::once(ConflictResponse::Replace)
    })
    .unwrap();
    assert!(same(&outcome.published, &occupied));
    assert_eq!(sandbox.disk.read(&occupied), b"test");
    let [displaced] = outcome.replaced.as_slice() else {
        panic!("the occupant should be held aside");
    };
    assert_eq!(sandbox.disk.read(displaced.quarantine()), b"occupied");
    assert!(is_replacement_quarantine_name(displaced.quarantine().file_name().unwrap()));
    release(&mut sandbox.disk, displaced);
    assert_eq!(sandbox.names(""), ["bundle.zip", "file.txt"]);
}

#[test]
fn extraction_merges_into_an_existing_folder_when_asked() {
    let mut sandbox = Sandbox::new();
    let archive = sandbox.file("bundle.zip", b"archive");
    let existing = sandbox.file("bundle/existing.txt", b"keep");
    let mine = sandbox.file("bundle/one.txt", b"mine");
    let bundle = sandbox.path("bundle");

    let outcome = extract_with(&mut sandbox.disk, Backend::Multiple, &archive, true, &mut |_| {
        ConflictDecision::once(ConflictResponse::Replace)
    })
    .unwrap();
    assert!(same(&outcome.published, &bundle));
    assert_eq!(sandbox.disk.read(&existing), b"keep");
    assert_eq!(sandbox.disk.read(&mine), b"mine", "a merge keeps what is there");
    assert_eq!(sandbox.disk.read(&below(&bundle, "two.txt")), b"two");
    let merged = outcome.merged.expect("a merge records what it added");
    assert!(merged.undoable);
    assert_eq!(merged.added.len(), 1);
    assert_eq!(sandbox.names(""), ["bundle", "bundle.zip"], "staging must be cleaned up");
}

#[test]
fn unsafe_extractions_are_rejected_and_staging_is_cleaned() {
    let mut sandbox = Sandbox::new();
    let archive = sandbox.file("unsafe.zip", b"archive");

    let error = extract(&mut sandbox.disk, Backend::Symlink, &archive).unwrap_err();
    assert!(error.contains("symbolic link"));
    for backend in [Backend::Empty, Backend::OversizedSparse] {
        assert!(extract(&mut sandbox.disk, backend, &archive).is_err());
    }
    assert_eq!(sandbox.names(""), ["unsafe.zip"], "staging must be cleaned up");
}

#[test]
fn extraction_refuses_to_publish_under_a_reserved_name() {
    let mut sandbox = Sandbox::new();
    let archive = sandbox.file("bundle.zip", b"archive");
    let error = extract(&mut sandbox.disk, Backend::ReservedName, &archive).unwrap_err();
    assert!(error.contains("reserved") && error.contains(".marcel-copy-x"), "{error}");
    assert_eq!(sandbox.names(""), ["bundle.zip"], "staging must be cleaned up");

    let archive = sandbox.file("..zip", b"archive");
    let outcome = extract(&mut sandbox.disk, Backend::Multiple, &archive).unwrap();
    assert!(same(&outcome.published, &sandbox.path("Archive")));
    assert_eq!(sandbox.disk.read(&below(&outcome.published, "two.txt")), b"two");
}

#[test]
fn a_compressed_tar_is_unwrapped_once() {
    let mut sandbox = Sandbox::new();
    let archive = sandbox.file("bundle.tar.gz", b"archive");
    let outcome = extract(&mut sandbox.disk, Backend::WrappedTar, &archive).unwrap();
    assert!(same(&outcome.published, &sandbox.path("payload.txt")));
    assert_eq!(sandbox.disk.read(&outcome.published), b"compound tar");

    let archive = sandbox.file("bundle.zip", b"archive");
    let outcome = extract(&mut sandbox.disk, Backend::WrappedTar, &archive).unwrap();
    assert!(same(&outcome.published, &sandbox.path("bundle.tar")));
    let names = ["bundle.tar", "bundle.tar.gz", "bundle.zip", "payload.txt"];
    assert_eq!(sandbox.names(""), names);
}

#[test]
fn compression_stages_validates_and_publishes_without_overwrite() {
    let mut sandbox = Sandbox::new();
    let source = sandbox.file("report.txt", b"report");
    let destination = sandbox.path("report.zip");
    let disk = &mut sandbox.disk;

    let outcome = compress(disk, Backend::One, &[source.clone()], &destination).unwrap();
    assert!(same(&outcome.published, &destination));
    assert_eq!(disk.read(&destination), b"fake zip");

    let error = compress(disk, Backend::One, &[source.clone()], &destination).unwrap_err();
    assert!(error.contains("already exists"));
    assert_eq!(disk.read(&destination), b"fake zip");

    let tar = sandbox.path("report.tar");
    let error = compress(&mut sandbox.disk, Backend::One, &[source], &tar).unwrap_err();
    assert_eq!(error, "The first archive version creates ZIP files only");
    let folder = sandbox.dir("folder");
    sandbox.link(&p("elsewhere"), "folder/link");
    let zip = sandbox.path("folder.zip");
    let error = compress(&mut sandbox.disk, Backend::One, &[folder], &zip).unwrap_err();
    assert!(error.starts_with("Symbolic links are not supported"), "{error}");
}

#[test]
fn tests_archive_create_and_extract_support_identity_validated_undo_redo() {
    let mut sandbox = Sandbox::new();
    let source = sandbox.file("report.txt", b"archive history");
    let archive = sandbox.path("report.zip");
    let disk = &mut sandbox.disk;

    let created =
        recorded(compress_operation(disk, Backend::Packing, &[source.clone()], &archive).unwrap());
    assert!(disk.is_file(&archive));
    let undone = recorded(committed(undo(disk, &created)));
    assert!(!disk.holds(&archive));
    let recreated = recorded(committed(redo(disk, &undone)));
    assert!(disk.is_file(&archive));

    assert!(disk.remove_file(&source));
    let extracted = recorded(
        extract_operation(disk, Backend::Packing, &archive, false, &mut nobody).unwrap(),
    );
    assert_eq!(disk.read(&source), b"archive history");
    let undone = recorded(committed(undo(disk, &extracted)));
    assert!(!disk.holds(&source));
    let redone = recorded(committed(redo(disk, &undone)));
    assert_eq!(disk.read(&redone.path()), b"archive history");

    disk.write(&redone.path(), b"changed");
    assert!(undo(disk, &redone).is_err());
    assert_eq!(disk.read(&redone.path()), b"changed");
    assert!(matches!(recreated, OperationRecord::ArchiveCreate { .. }));
}

#[test]
fn extraction_that_replaces_is_undone_by_restoring_the_occupant() {
    let mut sandbox = Sandbox::new();
    let source = sandbox.file("report.txt", b"from the archive");
    let archive = sandbox.path("report.zip");
    let root = sandbox.root();
    let disk = &mut sandbox.disk;
    compress_operation(disk, Backend::Packing, &[source.clone()], &archive).unwrap();
    disk.write(&source, b"edited since");

    let extracted = recorded(
        extract_operation(disk, Backend::Packing, &archive, true, &mut |_| {
            ConflictDecision::once(ConflictResponse::Replace)
        })
        .unwrap(),
    );
    assert_eq!(disk.read(&source), b"from the archive");
    assert_eq!(extracted.replaced_items().len(), 1);

    let undone = committed(undo(disk, &extracted));
    assert_eq!(disk.read(&source), b"edited since");
    assert!(no_replacement_quarantines(disk, &root));
    assert!(!undone.is_undoable());
}

// ---------------------------------------------------------------------------
// The Trash, which another service keeps.

fn trashed(original: &PathBuf) -> TrashRecord {
    TrashRecord {
        original: original.clone(),
        backing: p("/home/me/.local/share/Trash/files/note.txt"),
        key: ObjectKey { device: 7, inode: 99 },
    }
}

#[test]
fn undoing_a_trash_restores_its_items_and_can_be_redone() {
    let original = p("/home/me/note.txt");
    let operation = OperationRecord::Trash { records: vec![trashed(&original)] };
    assert_eq!(operation.trash_records().unwrap().len(), 1);
    assert!(same_all(&operation.forward_directory_changes().removed, &[original.clone()]));

    let UndoStep::RestoreTrash(change) = undo_operation(&operation) else {
        panic!("the items come back");
    };
    assert!(same(change.records[0].original_path(), &original));
    let records = vec![trashed(&original)];
    let undone =
        committed(change.restored(Ok(RestoredRecords { records, undoable: true })));
    assert!(same_all(&undone.changes().upserted, &[original.clone()]));
    let record = recorded(undone);
    assert!(matches!(record, OperationRecord::Trash { .. }));

    let RedoStep::Retrash(change) = redo_operation(&record) else {
        panic!("the items go again");
    };
    let redone = committed(change.retrashed(Ok(vec![trashed(&original)])));
    assert!(same_all(&redone.changes().removed, &[original.clone()]));
    assert!(redone.is_undoable());

    let restore = OperationRecord::Restore { records: vec![trashed(&original)] };
    let UndoStep::Retrash(change) = undo_operation(&restore) else {
        panic!("the items go back into the Trash");
    };
    let failure = TrashMutationFailure { committed: false, error: "busy".to_string() };
    assert!(change.retrashed(Err(failure)).keeps_history());
    let RedoStep::RestoreTrash(change) = redo_operation(&restore) else {
        panic!("the items come back again");
    };
    let failure = TrashMutationFailure { committed: true, error: "half done".to_string() };
    assert!(!change.restored(Err(failure)).keeps_history());
}

// ---------------------------------------------------------------------------
// Single decisions.

#[test]
fn a_transfer_tells_the_browser_what_to_look_at() {
    let mut sandbox = Sandbox::new();
    let source = sandbox.file("source/a.txt", b"a");
    let destination = sandbox.dir("destination");
    let moved = mv(&mut sandbox.disk, &[source.clone()], &destination);
    let changes = transfer_changes(&moved, TransferMode::Move);
    assert!(same_all(&changes.removed, &[source.clone()]));
    assert!(same_all(&changes.upserted, &[below(&destination, "a.txt")]));
    let changes = transfer_changes(&moved, TransferMode::Copy);
    assert!(changes.removed.is_empty());
    assert!(same_all(&moved.completed_sources(), &[source]));
    let failures = vec![
        PathFailure::new(&p("/x"), "broken".to_string()),
        PathFailure::new(&p("/y"), "gone".to_string()),
    ];
    assert_eq!(PathFailure::summarize(&failures[..1], "nothing"), "broken");
    assert_eq!(PathFailure::summarize(&failures, "nothing"), "broken (and 1 more failure)");
    assert_eq!(PathFailure::summarize(&[], "nothing"), "nothing");
}

#[test]
fn only_a_regular_file_is_read() {
    let mut sandbox = Sandbox::new();
    let file = sandbox.file("file", b"");
    let fifo = sandbox.special("fifo", SnapshotKind::Fifo);
    let disk = &sandbox.disk;
    assert!(require_regular_file(&file, &disk.found(&file).unwrap()).is_ok());
    assert_eq!(
        require_regular_file(&fifo, &disk.found(&fifo).unwrap()).unwrap_err(),
        "“/home/me/sandbox/fifo” is not a regular file"
    );
}

#[test]
fn a_plan_gives_up_on_names_that_stay_taken() {
    let (mut sandbox, sources, destination) = occupied_transfer_fixture();
    let disk = &mut sandbox.disk;
    let mut asked = 0;
    let transfer = Transfer::new(sources[..1].to_vec(), destination, TransferMode::Copy);
    let outcome =
        run_transfer(disk, transfer.with_answers(), &mut TransferProgress::default(), &mut |_| {
            asked += 1;
            ConflictDecision::once(ConflictResponse::Rename(b"taken.txt".to_vec()))
        });
    assert_eq!(asked, 64);
    assert!(outcome.failures[0].message.contains("after 64 attempts"), "{outcome:?}");
}

#[test]
fn a_source_without_a_name_fails_by_itself() {
    let mut sandbox = Sandbox::new();
    let destination = sandbox.dir("destination");
    let missing = sandbox.path("missing");
    let outcome = copy(&mut sandbox.disk, &[p("/"), missing], &destination);
    assert_eq!(outcome.failures.len(), 2);
    assert_eq!(outcome.failures[0].message, "Source has no file name");
    assert_eq!(
        outcome.failures[1].message,
        "Could not inspect “/home/me/sandbox/missing”: No such file or directory (os error 2)"
    );
    assert_eq!(outcome.accounted(), 2);
}

#[test]
fn an_unreadable_folder_stops_a_walk() {
    let mut sandbox = Sandbox::new();
    let folder = sandbox.dir("folder");
    let walk = SnapshotWalk::new(&folder, 5);
    let SnapshotStep::Inspect(entry) = walk.next() else {
        panic!("the root is looked at first");
    };
    let EntryStep::List(list) = entry.found(sandbox.disk.lookup(&folder)) else {
        panic!("a folder is listed");
    };
    assert_eq!(
        list.listed(Err(ListError::Entry)).unwrap_err(),
        "Could not read an entry in “/home/me/sandbox/folder”"
    );
    sandbox.file("folder/a", b"");
    let error = snapshot_tree(&sandbox.disk, &folder, 1).unwrap_err();
    assert!(error.contains("holds more than the 1 entries"), "{error}");
}

#[test]
fn content_is_copied_plainly_only_after_starting_again_and_synced_last() {
    let (source, destination) = (p("/from"), p("/to"));
    let ContentStep::Create(create) = copy_file_cancellable(&source, &destination) else {
        panic!("a copy is created first")
    };
    assert_eq!(create.mode, 0o600);
    let ContentStep::Sparse(sparse) = create.created(true) else {
        panic!("extents are tried first")
    };
    let ContentStep::Restart(restart) = sparse.copied(Ok(false)) else {
        panic!("a file without holes begins again")
    };
    let ContentStep::Plain(plain) = restart.restarted(Restarted::Done) else {
        panic!("what begins again is copied plainly")
    };
    let ContentStep::Sync(sync) = plain.copied(Ok(())) else {
        panic!("what is copied is synced")
    };
    assert!(matches!(sync.synced(true), ContentStep::Done(_)));
}

#[test]
fn content_that_stops_says_where() {
    let create = || match copy_file_cancellable(&p("/from"), &p("/to")) {
        ContentStep::Create(create) => create,
        _ => unreachable!(),
    };
    let sparse = || match create().created(true) {
        ContentStep::Sparse(sparse) => sparse,
        _ => unreachable!(),
    };
    let restart = || match sparse().copied(Ok(false)) {
        ContentStep::Restart(restart) => restart,
        _ => unreachable!(),
    };
    let failed = |step: ContentStep| match step {
        ContentStep::Failed(message) => message,
        step => panic!("{step:?}"),
    };
    assert_eq!(failed(create().created(false)), "Could not create “/to”");
    assert_eq!(failed(sparse().copied(Err("holes".to_string()))), "holes");
    assert_eq!(
        failed(restart().restarted(Restarted::NotRewound)),
        "Could not rewind “/from”"
    );
    assert_eq!(
        failed(restart().restarted(Restarted::NotEmptied)),
        "Could not restart “/to”"
    );
    let ContentStep::Plain(plain) = restart().restarted(Restarted::Done) else { unreachable!() };
    assert_eq!(failed(plain.copied(Err("full".to_string()))), "full");
    let ContentStep::Sync(sync) = sparse().copied(Ok(true)) else { unreachable!() };
    assert_eq!(failed(sync.synced(false)), "Could not finish “/to”");
}

#[test]
fn the_first_free_number_is_taken() {
    let mut disk = Disk::new();
    for name in ["/a.txt", "/a (2).txt", "/a (3).txt", "/a (5).txt"] {
        disk.add(&p(name), SnapshotKind::File, 0o644);
    }
    let plan = plan_target(
        &disk,
        &p("/a.txt"),
        &p("/"),
        p("/a.txt"),
        TransferMode::Copy,
        false,
        &mut ConflictPolicy::new(),
        &mut nobody,
    );
    let SourcePlan::Transfer(target) = plan else { panic!("{plan:?}") };
    assert!(target.same(&p("/a (4).txt")));
}

#[test]
fn a_name_is_given_up_when_every_number_is_taken() {
    let mut disk = Disk::new();
    disk.add(&p("/a.txt"), SnapshotKind::File, 0o644);
    let found = disk.inspected(&p("/a.txt"));
    let directory = p("/");
    let step = plan_source(
        &p("/a.txt"),
        &directory,
        p("/a.txt"),
        TransferMode::Copy,
        false,
        found,
    );
    let PlanStep::Inspect(wanted) = step else { unreachable!() };
    let mut step = wanted.found(disk.lookup(&p("/a.txt")));
    let mut asked = 0;
    let plan = loop {
        step = match step {
            PlanStep::FindName(wanted) => {
                asked += 1;
                wanted.found(&disk.lookup(&p("/a.txt")))
            }
            PlanStep::Done(plan) => break plan,
            step => panic!("{step:?}"),
        };
    };
    assert_eq!(asked, 9_998);
    let SourcePlan::Failed(message) = plan else { panic!("{plan:?}") };
    assert_eq!(message, "Could not find a free name to duplicate “/a.txt”");
}

#[test]
fn an_answer_for_the_rest_is_asked_for_once() {
    let mut sandbox = Sandbox::new();
    let sources: Vec<PathBuf> = ["a.txt", "b.txt", "c.txt"]
        .iter()
        .map(|name| sandbox.file(&format!("source/{name}"), b"new"))
        .collect();
    for name in ["a.txt", "b.txt", "c.txt"] {
        sandbox.file(&format!("destination/{name}"), b"existing");
    }
    let destination = sandbox.path("destination");
    let ask = |sandbox: &mut Sandbox, for_all: bool| {
        let mut asked = 0;
        let transfer =
            Transfer::new(sources.clone(), destination.clone(), TransferMode::Copy).with_answers();
        let outcome = run_transfer(
            &mut sandbox.disk,
            transfer,
            &mut TransferProgress::default(),
            &mut |_| {
                asked += 1;
                ConflictDecision { response: ConflictResponse::Skip, for_the_rest: for_all }
            },
        );
        assert_eq!(outcome.skipped.len(), 3, "{outcome:?}");
        asked
    };
    assert_eq!(ask(&mut sandbox, true), 1);
    assert_eq!(ask(&mut sandbox, false), 3);
}

#[test]
fn only_a_name_is_given_to_one_source_alone() {
    let mut policy = ConflictPolicy::new();
    assert!(policy.known().is_none());
    policy.decide(ConflictDecision::for_all(ConflictResponse::Rename(b"x".to_vec())));
    assert!(policy.known().is_none(), "a name serves one source");
    policy.decide(ConflictDecision::once(ConflictResponse::Replace));
    assert!(policy.known().is_none());
    policy.decide(ConflictDecision::for_all(ConflictResponse::AutoRename));
    assert!(matches!(policy.known(), Some(ConflictResponse::AutoRename)));
    policy.decide(ConflictDecision::for_all(ConflictResponse::Replace));
    assert!(matches!(policy.known(), Some(ConflictResponse::AutoRename)), "what stands, stands");
    let mut policy = ConflictPolicy::new();
    policy.decide(ConflictDecision::once(ConflictResponse::Cancel));
    assert!(matches!(policy.known(), Some(ConflictResponse::Cancel)));
}

#[test]
fn an_item_no_record_can_reach_is_let_go() {
    let mut sandbox = Sandbox::new();
    let archive = sandbox.file("bundle.zip", b"archive");
    sandbox.file("file.txt", b"occupied");
    let outcome = extract_with(&mut sandbox.disk, Backend::One, &archive, true, &mut |_| {
        ConflictDecision::once(ConflictResponse::Replace)
    })
    .unwrap();
    let record = ExtractRecord { source: Vec::new() };
    let ExtractRecordStep::Measure(measure) = record.published(outcome) else {
        panic!("what was displaced is measured");
    };
    let (committed, released) = measure.measured(&vec![8], Err("unreadable".to_string()));
    assert!(committed.into_record().is_none());
    assert_eq!(released.len(), 1);
    release(&mut sandbox.disk, &released[0]);
    assert_eq!(sandbox.names(""), ["bundle.zip", "file.txt"]);
}
