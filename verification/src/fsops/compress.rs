//! Compressing a selection into a ZIP file.

use vstd::prelude::*;
use vstd::utf8::encode_utf8;

use crate::fsops::archive::{
    extension_is, has_extension, preflight, validate_preflight, ArchiveEntry, ArchiveOutcome,
    MAX_ARCHIVE_ENTRIES,
};
use crate::fsops::backend::{check_cancelled, share_refusal, shared_parent};
use crate::fsops::identity::{about, message_about, SnapshotKind};
use crate::fsops::journal::{CommittedOperation, OperationRecord, PathSnapshot};
use crate::fsops::local::{
    at, children_backwards, ensure_unoccupied, inspect, list_error_at, list_failure, located,
    models, occupied, push_children, sorted_children, ListError, Lookup, Name,
};
use crate::fsops::mutations::published_with;
use crate::fsops::snapshots::{reject_special_entries, special_refusal};
use crate::order::sorted;
use crate::path::{PathBuf, PathModel};
use crate::text::{decimal, push_decimal};

verus! {

/// What a ZIP file is called while it is being written.
pub const STAGED_ZIP: &'static str = "archive.zip";

/// A selection that is to become a ZIP file.
#[derive(Debug)]
pub struct Compression {
    pub sources: Vec<PathBuf>,
    pub destination: PathBuf,
}

/// A walk over everything that is to be compressed.
#[derive(Debug)]
pub struct SelectionWalk {
    pub compression: Compression,
    /// What is left to look at, the next one last.
    pub pending: Vec<PathBuf>,
    /// How many things were met.
    pub count: usize,
}

/// What the walk wants next.
#[derive(Debug)]
pub enum SelectionStep {
    Inspect(SelectionInspect),
    /// Everything can be compressed.
    Stage(ZipStaging),
}

/// The walk waits to know what is at `path`.
#[derive(Debug)]
pub struct SelectionInspect {
    pub walk: SelectionWalk,
    pub path: PathBuf,
}

/// What came of looking at one path.
#[derive(Debug)]
pub enum SelectionEntryStep {
    Walk(SelectionWalk),
    List(SelectionList),
}

/// The walk waits for what is in the directory at `path`.
#[derive(Debug)]
pub struct SelectionList {
    pub walk: SelectionWalk,
    pub path: PathBuf,
}

/// A private staging directory is wanted in `parent`.
#[derive(Debug)]
pub struct ZipStaging {
    pub compression: Compression,
    pub parent: PathBuf,
}

/// The archive program is to write the selection to `staged`.
#[derive(Debug)]
pub struct ZipWanted {
    pub compression: Compression,
    pub staged: PathBuf,
}

/// A ZIP file whose listing is wanted before it is published.
#[derive(Debug)]
pub struct StagedZip {
    pub destination: PathBuf,
    pub staged: PathBuf,
}

/// A ZIP file that is to be renamed to its destination.
#[derive(Debug)]
pub struct ZipPublish {
    pub destination: PathBuf,
    pub staged: PathBuf,
}

/// Why a selection cannot be compressed to a destination, if that can be told
/// before looking at it.
pub open spec fn compression_refusal(
    sources: Seq<PathBuf>,
    destination: PathBuf,
    found: Lookup,
) -> Option<Seq<char>> {
    if !has_extension(destination@, "zip"@) {
        Some("The first archive version creates ZIP files only"@)
    } else if occupied(destination.text(), found) is Some {
        occupied(destination.text(), found)
    } else {
        share_refusal(sources)
    }
}

/// Whether `result` is how compressing a selection begins.
pub open spec fn begins_compression(
    sources: Vec<PathBuf>,
    destination: PathBuf,
    found: Lookup,
    result: Result<SelectionWalk, String>,
) -> bool {
    match result {
        Ok(walk) => {
            &&& compression_refusal(sources@, destination, found) is None
            &&& walk.compression == (Compression { sources, destination })
            &&& walk.pending@ == sources@
            &&& walk.count == 0
        },
        Err(message) => compression_refusal(sources@, destination, found) == Some(message@),
    }
}

/// Starts compressing a selection, given what is at the destination.
pub fn create_zip_archive(sources: Vec<PathBuf>, destination: PathBuf, found: &Lookup) -> (result:
    Result<SelectionWalk, String>)
    ensures
        begins_compression(sources, destination, *found, result),
{
    if !extension_is(&destination, "zip") {
        return Err("The first archive version creates ZIP files only".to_owned());
    }
    match ensure_unoccupied(&destination, found) {
        Ok(_) => {},
        Err(message) => {
            return Err(message);
        },
    }
    match shared_parent(&sources) {
        Ok(_) => {},
        Err(message) => {
            return Err(message);
        },
    }
    let mut pending: Vec<PathBuf> = Vec::new();
    let mut i: usize = 0;
    while i < sources.len()
        invariant
            i <= sources@.len(),
            pending@ == sources@.take(i as int),
        decreases sources.len() - i,
    {
        pending.push(sources[i].clone());
        assert(sources@.take(i + 1) =~= sources@.take(i as int).push(sources@[i as int]));
        i += 1;
    }
    assert(sources@.take(sources@.len() as int) =~= sources@);
    Ok(SelectionWalk { compression: Compression { sources, destination }, pending, count: 0 })
}

/// What is reported when too much is selected.
pub open spec fn too_many() -> Seq<char> {
    "Selection contains more than "@ + decimal(MAX_ARCHIVE_ENTRIES as nat) + " entries"@
}

fn too_many_message() -> (message: String)
    ensures
        message@ == too_many(),
{
    let mut message = "Selection contains more than ".to_owned();
    push_decimal(&mut message, MAX_ARCHIVE_ENTRIES as u64);
    message.append(" entries");
    message
}

impl SelectionWalk {
    /// Whether `result` is what the walk goes on with.
    pub open spec fn goes_on(self, cancelled: bool, result: Result<SelectionStep, String>) -> bool {
        match result {
            Ok(SelectionStep::Inspect(wanted)) => {
                &&& self.pending@.len() > 0 && !cancelled
                &&& wanted.path == self.pending@.last()
                &&& wanted.walk.pending@ == self.pending@.drop_last()
                &&& wanted.walk.compression == self.compression
                &&& wanted.walk.count == self.count
            },
            Ok(SelectionStep::Stage(staging)) => {
                &&& self.pending@.len() == 0
                &&& staging.compression == self.compression
                &&& self.compression.destination@.parent() == Some(staging.parent@)
            },
            Err(message) => if self.pending@.len() > 0 {
                cancelled && message@ == "Archive operation cancelled"@
            } else {
                self.compression.destination@.parent() is None && message@
                    == "Archive destination has no containing directory"@
            },
        }
    }

    pub fn next(self, cancelled: bool) -> (result: Result<SelectionStep, String>)
        ensures
            self.goes_on(cancelled, result),
    {
        let SelectionWalk { compression, pending, count } = self;
        let mut pending = pending;
        match pending.pop() {
            Some(path) => {
                match check_cancelled(cancelled) {
                    Ok(_) => {},
                    Err(message) => {
                        return Err(message);
                    },
                }
                Ok(
                    SelectionStep::Inspect(
                        SelectionInspect {
                            walk: SelectionWalk { compression, pending, count },
                            path,
                        },
                    ),
                )
            },
            None => match compression.destination.parent() {
                Some(parent) => Ok(SelectionStep::Stage(ZipStaging { compression, parent })),
                None => Err("Archive destination has no containing directory".to_owned()),
            },
        }
    }

    /// Counts one more thing.
    fn counted(self) -> (result: Result<SelectionWalk, String>)
        ensures
            match result {
                Ok(walk) => self.count < MAX_ARCHIVE_ENTRIES && walk == (SelectionWalk {
                    count: (self.count + 1) as usize,
                    ..self
                }),
                Err(message) => self.count >= MAX_ARCHIVE_ENTRIES && message@ == too_many(),
            },
    {
        if self.count >= MAX_ARCHIVE_ENTRIES {
            return Err(too_many_message());
        }
        let mut walk = self;
        walk.count = walk.count + 1;
        Ok(walk)
    }
}

/// Why what was found cannot be compressed, if it cannot.
pub open spec fn uncompressible(path: Seq<u8>, found: Lookup) -> Option<Seq<char>> {
    match found {
        Lookup::Found(metadata) => match metadata.kind {
            SnapshotKind::Directory | SnapshotKind::File => None,
            SnapshotKind::Symlink => Some(
                about(
                    "Symbolic links are not supported by the first archive version: "@,
                    path,
                    ""@,
                ),
            ),
            _ => Some(
                about(
                    "Special files are not supported by the first archive version: "@,
                    path,
                    ""@,
                ),
            ),
        },
        _ => Some(located("Could not inspect"@, path)),
    }
}

impl SelectionInspect {
    /// Whether `result` is what follows on what is at the path.
    pub open spec fn comes_to(
        self,
        found: Lookup,
        result: Result<SelectionEntryStep, String>,
    ) -> bool {
        match result {
            Err(message) => if uncompressible(self.path.text(), found) is Some {
                uncompressible(self.path.text(), found) == Some(message@)
            } else {
                found->Found_0.kind is File && self.walk.count >= MAX_ARCHIVE_ENTRIES
                    && message@ == too_many()
            },
            Ok(SelectionEntryStep::Walk(walk)) => (found matches Lookup::Found(metadata)
                && metadata.kind is File) && self.walk.count < MAX_ARCHIVE_ENTRIES && walk == (
            SelectionWalk { count: (self.walk.count + 1) as usize, ..self.walk }),
            Ok(SelectionEntryStep::List(list)) => (found matches Lookup::Found(metadata)
                && metadata.kind is Directory) && list.walk == self.walk && list.path
                == self.path,
        }
    }

    /// What is at the path.
    pub fn found(self, found: Lookup) -> (result: Result<SelectionEntryStep, String>)
        ensures
            self.comes_to(found, result),
    {
        let metadata = match inspect(&self.path, found) {
            Ok(metadata) => metadata,
            Err(message) => {
                return Err(message);
            },
        };
        if metadata.kind == SnapshotKind::Symlink {
            return Err(
                message_about(
                    "Symbolic links are not supported by the first archive version: ",
                    &self.path,
                    "",
                ),
            );
        }
        if metadata.kind == SnapshotKind::Directory {
            return Ok(
                SelectionEntryStep::List(SelectionList { walk: self.walk, path: self.path }),
            );
        }
        if metadata.kind != SnapshotKind::File {
            return Err(
                message_about(
                    "Special files are not supported by the first archive version: ",
                    &self.path,
                    "",
                ),
            );
        }
        match self.walk.counted() {
            Ok(walk) => Ok(SelectionEntryStep::Walk(walk)),
            Err(message) => Err(message),
        }
    }
}

impl SelectionList {
    /// Whether `result` is what follows on what is in the directory.
    pub open spec fn comes_to(
        self,
        entries: Result<Vec<Name>, ListError>,
        result: Result<SelectionWalk, String>,
    ) -> bool {
        match entries {
            Err(ListError::Directory) => result matches Err(message) && message@ == located(
                "Could not read"@,
                self.path.text(),
            ),
            Err(ListError::Entry) => result matches Err(message) && message@
                == "Could not read compression source"@,
            Ok(names) => match result {
                Err(message) => self.walk.count >= MAX_ARCHIVE_ENTRIES && message@
                    == too_many(),
                Ok(walk) => {
                    &&& self.walk.count < MAX_ARCHIVE_ENTRIES
                    &&& walk.count == self.walk.count + 1
                    &&& walk.compression == self.walk.compression
                    &&& models(walk.pending@) == models(self.walk.pending@) + Seq::new(
                        names@.len(),
                        |i: int| self.path@.join(names@[i]@),
                    )
                },
            },
        }
    }

    /// What is in the directory.
    pub fn listed(self, entries: Result<Vec<Name>, ListError>) -> (result: Result<
        SelectionWalk,
        String,
    >)
        ensures
            self.comes_to(entries, result),
    {
        let names = match entries {
            Ok(names) => names,
            Err(ListError::Directory) => {
                return Err(at("Could not read", &self.path));
            },
            Err(ListError::Entry) => {
                return Err("Could not read compression source".to_owned());
            },
        };
        let SelectionList { walk, path } = self;
        let ghost before = models(walk.pending@);
        let ghost added = Seq::new(names@.len(), |i: int| path@.join(names@[i]@));
        let SelectionWalk { compression, pending, count } = walk;
        let mut pending = pending;
        let mut i: usize = 0;
        assert(models(pending@) =~= before + added.take(0));
        while i < names.len()
            invariant
                i <= names@.len(),
                added == Seq::new(names@.len(), |k: int| path@.join(names@[k]@)),
                models(pending@) == before + added.take(i as int),
            decreases names.len() - i,
        {
            let ghost earlier = pending@;
            pending.push(path.join(names[i].as_bytes()));
            proof {
                assert(models(pending@) =~= models(earlier).push(added[i as int]));
                assert(added.take(i + 1) =~= added.take(i as int).push(added[i as int]));
            }
            i += 1;
        }
        assert(added.take(names@.len() as int) =~= added);
        SelectionWalk { compression, pending, count }.counted()
    }
}

impl ZipStaging {
    /// The staging directory, if one could be created.
    pub fn reserved(self, staging: Option<PathBuf>) -> (result: Result<ZipWanted, String>)
        ensures
            match staging {
                Some(staging) => result matches Ok(wanted) && wanted.compression
                    == self.compression && wanted.staged@ == staging@.join(
                    encode_utf8(STAGED_ZIP@),
                ),
                None => result matches Err(message) && message@ == located(
                    "Could not create private archive staging in"@,
                    self.parent.text(),
                ),
            },
    {
        match staging {
            Some(staging) => Ok(
                ZipWanted {
                    compression: self.compression,
                    staged: staging.join(STAGED_ZIP.as_bytes()),
                },
            ),
            None => Err(at("Could not create private archive staging in", &self.parent)),
        }
    }
}

impl ZipWanted {
    /// Whether `next` is what running the archive program comes to.
    pub open spec fn passes(
        self,
        result: Result<(), String>,
        cancelled: bool,
        is_file: bool,
        next: Result<StagedZip, String>,
    ) -> bool {
        match result {
            Err(why) => next == Err::<StagedZip, String>(why),
            Ok(_) => if cancelled {
                next matches Err(message) && message@ == "Archive operation cancelled"@
            } else if !is_file {
                next matches Err(message) && message@
                    == "Archive backend reported success without creating a ZIP file"@
            } else {
                next == Ok::<StagedZip, String>(
                    StagedZip {
                        destination: self.compression.destination,
                        staged: self.staged,
                    },
                )
            },
        }
    }

    /// Whether the archive program succeeded, and whether there is a file now.
    pub fn created(self, result: Result<(), String>, cancelled: bool, is_file: bool) -> (next:
        Result<StagedZip, String>)
        ensures
            self.passes(result, cancelled, is_file, next),
    {
        match result {
            Ok(_) => {},
            Err(why) => {
                return Err(why);
            },
        }
        match check_cancelled(cancelled) {
            Ok(_) => {},
            Err(message) => {
                return Err(message);
            },
        }
        if !is_file {
            return Err("Archive backend reported success without creating a ZIP file".to_owned());
        }
        Ok(StagedZip { destination: self.compression.destination, staged: self.staged })
    }
}

impl StagedZip {
    /// Whether `result` is what the ZIP file's listing comes to.
    pub open spec fn passes(
        self,
        listing: Result<Vec<ArchiveEntry>, String>,
        found: Lookup,
        result: Result<ZipPublish, String>,
    ) -> bool {
        match listing {
            Err(why) => result == Err::<ZipPublish, String>(why),
            Ok(entries) => if entries@.len() == 0 {
                result matches Err(message) && message@
                    == "Archive contains no extractable entries"@
            } else {
                match preflight(entries@) {
                    Err(why) => result matches Err(message) && message@ == why,
                    Ok(_) => match occupied(self.destination.text(), found) {
                        Some(why) => result matches Err(message) && message@ == why,
                        None => result == Ok::<ZipPublish, String>(
                            ZipPublish { destination: self.destination, staged: self.staged },
                        ),
                    },
                }
            },
        }
    }

    /// What the ZIP file lists, and what is at the destination by now.
    pub fn listed(self, listing: Result<Vec<ArchiveEntry>, String>, found: &Lookup) -> (result:
        Result<ZipPublish, String>)
        ensures
            self.passes(listing, *found, result),
    {
        let entries = match listing {
            Ok(entries) => entries,
            Err(why) => {
                return Err(why);
            },
        };
        match validate_preflight(&entries) {
            Ok(_) => {},
            Err(message) => {
                return Err(message);
            },
        }
        match ensure_unoccupied(&self.destination, found) {
            Ok(_) => Ok(ZipPublish { destination: self.destination, staged: self.staged }),
            Err(message) => Err(message),
        }
    }
}

impl ZipPublish {
    /// Whether `result` is what renaming the ZIP file comes to.
    pub open spec fn settles(self, renamed: bool, result: Result<ArchiveOutcome, String>) -> bool {
        if renamed {
            result matches Ok(outcome) && outcome.published == self.destination
                && outcome.replaced@.len() == 0 && outcome.merged is None
        } else {
            result matches Err(message) && message@ == located(
                "Could not publish ZIP"@,
                self.destination.text(),
            )
        }
    }

    /// Whether the ZIP file was renamed to its destination.
    pub fn renamed(self, renamed: bool) -> (result: Result<ArchiveOutcome, String>)
        ensures
            self.settles(renamed, result),
    {
        if renamed {
            Ok(ArchiveOutcome::fresh(self.destination))
        } else {
            Err(at("Could not publish ZIP", &self.destination))
        }
    }
}

/// A selection that is described before it is compressed.
#[derive(Debug)]
pub struct ZipOperation {
    pub compression: Compression,
    /// What is left to describe, the next one last.
    pub pending: Vec<PathBuf>,
    pub snapshots: Vec<PathSnapshot>,
}

/// What describing the selection wants next.
#[derive(Debug)]
pub enum ZipOperationStep {
    Inspect(SourceInspect),
    /// Everything is described: compress it.
    Compress(ZipPrepared),
}

/// It waits to know what is at `path`.
#[derive(Debug)]
pub struct SourceInspect {
    pub operation: ZipOperation,
    pub path: PathBuf,
}

/// What came of looking at one path.
#[derive(Debug)]
pub enum SourceStep {
    Next(ZipOperation),
    List(SourceList),
}

/// It waits for what is in the directory at `path`.
#[derive(Debug)]
pub struct SourceList {
    pub operation: ZipOperation,
    pub path: PathBuf,
}

/// A selection that is described.
#[derive(Debug)]
pub struct ZipPrepared {
    pub compression: Compression,
    pub snapshots: Vec<PathSnapshot>,
}

/// What will be recorded of a ZIP file once it is published.
#[derive(Debug)]
pub struct ZipRecord {
    pub snapshots: Vec<PathSnapshot>,
}

/// Starts compressing a selection in a way that can be undone.
pub fn create_zip_operation(sources: Vec<PathBuf>, destination: PathBuf) -> (operation:
    ZipOperation)
    ensures
        operation.compression == (Compression { sources, destination }),
        operation.pending@ == sources@.reverse(),
        operation.snapshots@.len() == 0,
{
    let mut pending: Vec<PathBuf> = Vec::new();
    let mut left: usize = sources.len();
    while left > 0
        invariant
            left <= sources@.len(),
            pending@ == sources@.reverse().take(sources@.len() - left),
        decreases left,
    {
        left -= 1;
        pending.push(sources[left].clone());
        proof {
            let done = sources@.len() - left;
            assert(sources@.reverse().take(done as int) =~= sources@.reverse().take(done - 1).push(
                sources@[left as int],
            ));
        }
    }
    assert(sources@.reverse().take(sources@.len() as int) =~= sources@.reverse());
    ZipOperation {
        compression: Compression { sources, destination },
        pending,
        snapshots: Vec::new(),
    }
}

impl ZipOperation {
    /// Whether `result` is what describing goes on with.
    pub open spec fn goes_on(
        self,
        cancelled: bool,
        result: Result<ZipOperationStep, String>,
    ) -> bool {
        match result {
            Ok(ZipOperationStep::Inspect(wanted)) => {
                &&& self.pending@.len() > 0 && !cancelled
                &&& wanted.path == self.pending@.last()
                &&& wanted.operation.pending@ == self.pending@.drop_last()
                &&& wanted.operation.compression == self.compression
                &&& wanted.operation.snapshots == self.snapshots
            },
            Ok(ZipOperationStep::Compress(prepared)) => self.pending@.len() == 0 && prepared
                == (ZipPrepared { compression: self.compression, snapshots: self.snapshots }),
            Err(message) => self.pending@.len() > 0 && cancelled && message@
                == "Archive operation cancelled"@,
        }
    }

    pub fn next(self, cancelled: bool) -> (result: Result<ZipOperationStep, String>)
        ensures
            self.goes_on(cancelled, result),
    {
        let ZipOperation { compression, pending, snapshots } = self;
        let mut pending = pending;
        match pending.pop() {
            Some(path) => {
                match check_cancelled(cancelled) {
                    Ok(_) => {},
                    Err(message) => {
                        return Err(message);
                    },
                }
                Ok(
                    ZipOperationStep::Inspect(
                        SourceInspect {
                            operation: ZipOperation { compression, pending, snapshots },
                            path,
                        },
                    ),
                )
            },
            None => Ok(ZipOperationStep::Compress(ZipPrepared { compression, snapshots })),
        }
    }
}

/// Whether one more source is described and nothing else has changed.
pub open spec fn described_source(
    before: ZipOperation,
    after: ZipOperation,
    path: PathModel,
    found: Lookup,
) -> bool {
    &&& after.compression == before.compression
    &&& after.pending == before.pending
    &&& after.snapshots@.len() == before.snapshots@.len() + 1
    &&& after.snapshots@.drop_last() == before.snapshots@
    &&& after.snapshots@.len() <= MAX_ARCHIVE_ENTRIES
    &&& found matches Lookup::Found(metadata) && after.snapshots@.last().describes(path, metadata)
        && !metadata.kind.special()
}

impl SourceInspect {
    /// Whether `result` is what follows on what is at the path.
    pub open spec fn comes_to(self, found: Lookup, result: Result<SourceStep, String>) -> bool {
        match result {
            Ok(SourceStep::Next(operation)) => described_source(
                self.operation,
                operation,
                self.path@,
                found,
            ) && !(found->Found_0.kind is Directory),
            Ok(SourceStep::List(list)) => described_source(
                self.operation,
                list.operation,
                self.path@,
                found,
            ) && found->Found_0.kind is Directory && list.path == self.path,
            Err(message) => match found {
                Lookup::Found(metadata) => if metadata.kind.special() {
                    message@ == about(
                        "Special files are not supported yet: "@,
                        self.path.text(),
                        " is "@ + metadata.kind.called(),
                    )
                } else {
                    self.operation.snapshots@.len() >= MAX_ARCHIVE_ENTRIES && message@
                        == too_many()
                },
                _ => message@ == located("Could not inspect"@, self.path.text()),
            },
        }
    }

    /// What is at the path.
    ///
    /// An archive cannot carry a socket, FIFO, or device node, so such a
    /// selection is refused before any staging work rather than failing
    /// mid-compression.
    pub fn found(self, found: Lookup) -> (result: Result<SourceStep, String>)
        ensures
            self.comes_to(found, result),
    {
        let metadata = match inspect(&self.path, found) {
            Ok(metadata) => metadata,
            Err(message) => {
                return Err(message);
            },
        };
        let SourceInspect { operation, path } = self;
        let snapshot = PathSnapshot::of(&path, &metadata);
        let ghost described = snapshot;
        let mut one: Vec<PathSnapshot> = Vec::new();
        one.push(snapshot.clone());
        proof {
            assert(one@ =~= seq![described]);
            assert(one@.drop_first() =~= Seq::empty());
            reveal_with_fuel(special_refusal, 2);
        }
        match reject_special_entries(one.as_slice()) {
            Ok(_) => {},
            Err(message) => {
                return Err(message);
            },
        }
        let ZipOperation { compression, pending, snapshots } = operation;
        let mut snapshots = snapshots;
        let ghost before = snapshots@;
        snapshots.push(snapshot);
        if snapshots.len() > MAX_ARCHIVE_ENTRIES {
            return Err(too_many_message());
        }
        assert(snapshots@.drop_last() =~= before);
        let operation = ZipOperation { compression, pending, snapshots };
        if metadata.kind == SnapshotKind::Directory {
            return Ok(SourceStep::List(SourceList { operation, path }));
        }
        Ok(SourceStep::Next(operation))
    }
}

impl SourceList {
    /// Whether `result` is what follows on what is in the directory.
    pub open spec fn comes_to(
        self,
        entries: Result<Vec<Name>, ListError>,
        result: Result<ZipOperation, String>,
    ) -> bool {
        match entries {
            Err(error) => result matches Err(message) && message@ == list_failure(
                error,
                self.path.text(),
            ),
            Ok(names) => result matches Ok(operation) && operation.compression
                == self.operation.compression && operation.snapshots
                == self.operation.snapshots && models(operation.pending@) == models(
                self.operation.pending@,
            ) + children_backwards(self.path@, sorted(names@)),
        }
    }

    /// What is in the directory.
    pub fn listed(self, entries: Result<Vec<Name>, ListError>) -> (result: Result<
        ZipOperation,
        String,
    >)
        ensures
            self.comes_to(entries, result),
    {
        let names = match entries {
            Ok(names) => names,
            Err(error) => {
                return Err(list_error_at(error, &self.path));
            },
        };
        let names = sorted_children(names);
        let SourceList { operation, path } = self;
        let ZipOperation { compression, pending, snapshots } = operation;
        let mut pending = pending;
        push_children(&mut pending, &path, &names);
        Ok(ZipOperation { compression, pending, snapshots })
    }
}

impl ZipPrepared {
    /// Compresses the selection, given what is at the destination.
    pub fn compress(self, found: &Lookup) -> (result: Result<(SelectionWalk, ZipRecord), String>)
        ensures
            match result {
                Ok((walk, record)) => {
                    let sources = self.compression.sources;
                    &&& compression_refusal(
                        sources@,
                        self.compression.destination,
                        *found,
                    ) is None
                    &&& walk.compression == self.compression
                    &&& walk.pending@ == sources@
                    &&& walk.count == 0
                    &&& record.snapshots == self.snapshots
                },
                Err(message) => compression_refusal(
                    self.compression.sources@,
                    self.compression.destination,
                    *found,
                ) == Some(message@),
            },
    {
        let Compression { sources, destination } = self.compression;
        match create_zip_archive(sources, destination, found) {
            Ok(walk) => Ok((walk, ZipRecord { snapshots: self.snapshots })),
            Err(message) => Err(message),
        }
    }
}

/// What a walk over a published tree recorded, where undo can delete it: one
/// that holds a special file must not enter a record undo would later erase.
pub open spec fn removable_tree(walked: Result<Vec<PathSnapshot>, String>) -> Option<
    Vec<PathSnapshot>,
> {
    match walked {
        Ok(snapshots) if special_refusal(snapshots@) is None => Some(snapshots),
        _ => None,
    }
}

/// Snapshots for a mutation whose undo has to *delete* what they describe.
pub fn snapshot_removable_tree(walked: Result<Vec<PathSnapshot>, String>) -> (result: Result<
    Vec<PathSnapshot>,
    String,
>)
    ensures
        match result {
            Ok(snapshots) => removable_tree(walked) == Some(snapshots),
            Err(message) => removable_tree(walked) is None && match walked {
                Ok(snapshots) => special_refusal(snapshots@) == Some(message@),
                Err(why) => message == why,
            },
        },
{
    match walked {
        Ok(snapshots) => match reject_special_entries(snapshots.as_slice()) {
            Ok(_) => Ok(snapshots),
            Err(message) => Err(message),
        },
        Err(why) => Err(why),
    }
}

impl ZipRecord {
    /// What was published, and what walking it gave.
    ///
    /// A failed snapshot loses undo, it does not unpublish the ZIP file.
    pub fn published(self, outcome: ArchiveOutcome, walked: Result<Vec<PathSnapshot>, String>) -> (
        committed: CommittedOperation)
        ensures
            published_with(
                committed,
                outcome.published,
                match removable_tree(walked) {
                    Some(created) => Some(
                        OperationRecord::ArchiveCreate {
                            sources: self.snapshots,
                            destination: outcome.published,
                            created,
                        },
                    ),
                    None => None,
                },
            ),
    {
        let published = outcome.published;
        let record = match snapshot_removable_tree(walked) {
            Ok(created) => Some(
                OperationRecord::ArchiveCreate {
                    sources: self.snapshots,
                    destination: published.clone(),
                    created,
                },
            ),
            Err(_) => None,
        };
        CommittedOperation::published(published, record)
    }
}

} // verus!
