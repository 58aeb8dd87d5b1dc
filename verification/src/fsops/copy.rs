//! Copying one entry into a private staging directory and publishing it with a
//! single rename.
//!
//! Durability: every file's content is synced before its metadata is applied,
//! every directory of the staged tree is synced once the whole tree is in
//! place, and the directory a copy is published into is synced after the
//! rename. After a power loss the destination holds either the whole copy or
//! nothing.

use vstd::prelude::*;

use crate::fsops::copier::{Copier, CopyStep, StagedCopy};
use crate::fsops::dropped::{Dropped, Kept};
use crate::fsops::identity::{about, message_about, Metadata};
use crate::fsops::journal::PathSnapshot;
use crate::fsops::local::{at, ensure_unoccupied, located, occupied, Lookup};
use crate::fsops::mutations::begins_with;
use crate::fsops::snapshots::{
    found_at, rebase_snapshots, rebased, refresh_snapshot_identities, still_the_object,
};
use crate::fsops::{counted, TransferProgress, TransferProgressSnapshot};
use crate::path::{same_bytes, PathBuf, PathModel};
use crate::text::{lossy, utf8_lossy};

verus! {

/// What one copy recorded about itself.
#[derive(Debug)]
pub struct CopiedItem {
    pub sources: Vec<PathSnapshot>,
    pub created: Vec<PathSnapshot>,
    /// Whether there was more to record than the copy was allowed.
    pub overflowed: bool,
    /// Whether what was published could be identified again afterwards.
    pub undoable: bool,
    /// What the destination could not keep.
    pub dropped: Dropped,
}

/// A copy whose destination is free; whether it lies inside its own source is
/// asked next.
#[derive(Debug)]
pub struct PreparingCopy {
    pub source: PathBuf,
    pub destination: PathBuf,
    pub snapshot_limit: usize,
}

/// A copy that wants a private staging directory in `parent`.
#[derive(Debug)]
pub struct StagingWanted {
    pub source: PathBuf,
    pub destination: PathBuf,
    pub snapshot_limit: usize,
    pub parent: PathBuf,
    /// The name the copy will have.
    pub name: Vec<u8>,
}

/// A copy that is to be staged, then published.
#[derive(Debug)]
pub struct PublishWanted {
    /// Where the tree is staged.
    pub staged: PathBuf,
    pub destination: PathBuf,
}

/// A published copy whose parts are to be identified again.
#[derive(Debug)]
pub struct ConfirmWanted {
    pub sources: Vec<PathSnapshot>,
    /// What was published, at the paths it is at now.
    pub created: Vec<PathSnapshot>,
    pub overflowed: bool,
    pub dropped: Dropped,
}

/// How a copy begins, given what is at its destination.
pub open spec fn begins_copy(
    source: PathBuf,
    destination: PathBuf,
    snapshot_limit: usize,
    found: Lookup,
    result: Result<PreparingCopy, String>,
) -> bool {
    match result {
        Ok(preparing) => occupied(destination.text(), found) is None && preparing == (
        PreparingCopy { source, destination, snapshot_limit }),
        Err(message) => occupied(destination.text(), found) == Some(message@),
    }
}

/// Starts copying `source` to `destination`. `found` is what is at the
/// destination. At most `snapshot_limit` entries of the source, and as many of
/// the copy, are recorded.
pub fn copy_one(
    source: &PathBuf,
    destination: &PathBuf,
    snapshot_limit: usize,
    found: &Lookup,
) -> (result: Result<PreparingCopy, String>)
    ensures
        begins_copy(*source, *destination, snapshot_limit, *found, result),
{
    match ensure_unoccupied(destination, found) {
        Ok(_) => Ok(
            PreparingCopy {
                source: source.clone(),
                destination: destination.clone(),
                snapshot_limit,
            },
        ),
        Err(message) => Err(message),
    }
}

impl PreparingCopy {
    /// Whether `result` is what the search for the source above comes to.
    pub open spec fn passes(
        self,
        verdict: Result<(), String>,
        result: Result<StagingWanted, String>,
    ) -> bool {
        match verdict {
            Err(why) => result == Err::<StagingWanted, String>(why),
            Ok(_) => match self.destination@.file_name() {
                None => result matches Err(message) && message@
                    == "Copy destination has no file name"@,
                Some(name) => result matches Ok(wanted) && wanted.source == self.source
                    && wanted.destination == self.destination && wanted.snapshot_limit
                    == self.snapshot_limit && wanted.name@ == name && self.destination@.parent()
                    == Some(wanted.parent@),
            },
        }
    }

    /// Whether the destination lies outside the source, or why the copy is
    /// refused.
    pub fn contained(self, verdict: Result<(), String>) -> (result: Result<StagingWanted, String>)
        ensures
            self.passes(verdict, result),
    {
        match verdict {
            Ok(_) => {},
            Err(why) => {
                return Err(why);
            },
        }
        let name = match self.destination.file_name() {
            Some(name) => crate::path::copy_bytes(name),
            None => {
                return Err("Copy destination has no file name".to_owned());
            },
        };
        match self.destination.parent() {
            Some(parent) => Ok(
                StagingWanted {
                    source: self.source,
                    destination: self.destination,
                    snapshot_limit: self.snapshot_limit,
                    parent,
                    name,
                },
            ),
            None => Err("Copy destination has no parent directory".to_owned()),
        }
    }
}

impl StagingWanted {
    /// Whether `result` is what reserving the staging directory comes to.
    pub open spec fn passes(
        self,
        staging: Option<PathBuf>,
        result: Result<(Copier, PublishWanted), String>,
    ) -> bool {
        match staging {
            None => result matches Err(message) && message@ == located(
                "Could not reserve a temporary copy directory in"@,
                self.parent.text(),
            ),
            Some(staging) => result matches Ok((copier, publish)) && publish.staged@
                == staging@.join(self.name@) && publish.destination == self.destination
                && copier@.steps == seq![
                CopyStep::Visit {
                    parent: None,
                    source: self.source,
                    destination: publish.staged,
                },
            ] && copier@.sources.limit == self.snapshot_limit && copier@.created.limit
                == self.snapshot_limit && copier@.sources.snapshots@.len() == 0
                && copier@.created.snapshots@.len() == 0 && !copier@.sources.overflowed
                && !copier@.created.overflowed && copier@.hardlinks == Map::<
                u128,
                PathBuf,
            >::empty() && copier@.staged_directories.len() == 0
                && copier@.dropped.is_nothing(),
        }
    }

    /// The staging directory that was reserved, if one could be.
    ///
    /// The directory is created atomically with a unique name instead of being
    /// probed for and created later, so a path another process created in the
    /// gap is never adopted and then deleted.
    pub fn reserved(self, staging: Option<PathBuf>) -> (result: Result<
        (Copier, PublishWanted),
        String,
    >)
        ensures
            self.passes(staging, result),
    {
        match staging {
            None => Err(at("Could not reserve a temporary copy directory in", &self.parent)),
            Some(staging) => {
                let staged = staging.join(self.name.as_slice());
                let copier = Copier::new(&self.source, &staged, self.snapshot_limit);
                Ok((copier, PublishWanted { staged, destination: self.destination }))
            },
        }
    }
}

/// Whether snapshots of a staged tree now say where it was published.
pub open spec fn published_at(
    staged_snapshots: Seq<PathSnapshot>,
    published: Seq<PathSnapshot>,
    staged: PathModel,
    destination: PathModel,
) -> bool {
    published.len() == staged_snapshots.len() && forall|i: int|
        0 <= i < published.len() ==> (#[trigger] published[i]).path@ == rebased(
            staged_snapshots[i].path@,
            staged,
            destination,
        ) && published[i].identity == staged_snapshots[i].identity && published[i].kind
            == staged_snapshots[i].kind
}

impl PublishWanted {
    /// Whether `result` is what renaming the staged tree comes to.
    pub open spec fn passes(
        self,
        staged: StagedCopy,
        renamed: bool,
        result: Result<ConfirmWanted, String>,
    ) -> bool {
        match result {
            Ok(confirm) => renamed && confirm.sources == staged.sources.snapshots
                && published_at(
                staged.created.snapshots@,
                confirm.created@,
                self.staged@,
                self.destination@,
            ) && confirm.overflowed == (staged.sources.overflowed || staged.created.overflowed)
                && confirm.dropped == staged.dropped,
            Err(message) => !renamed && message@ == about(
                "Could not publish copy at "@,
                self.destination.text(),
                "; nothing was overwritten"@,
            ),
        }
    }

    /// Whether the staged tree was renamed to its destination.
    pub fn published(self, staged: StagedCopy, renamed: bool) -> (result: Result<
        ConfirmWanted,
        String,
    >)
        ensures
            self.passes(staged, renamed, result),
    {
        if !renamed {
            return Err(
                message_about(
                    "Could not publish copy at ",
                    &self.destination,
                    "; nothing was overwritten",
                ),
            );
        }
        let overflowed = staged.sources.overflowed || staged.created.overflowed;
        let mut created = staged.created.snapshots;
        rebase_snapshots(&mut created, &self.staged, &self.destination);
        Ok(
            ConfirmWanted {
                sources: staged.sources.snapshots,
                created,
                overflowed,
                dropped: staged.dropped,
            },
        )
    }
}

/// Whether every one of `snapshots` is still the object it was.
pub open spec fn all_still_there(
    snapshots: Seq<PathSnapshot>,
    found: Seq<Option<Metadata>>,
) -> bool {
    forall|i: int|
        0 <= i < snapshots.len() ==> still_the_object(#[trigger] snapshots[i], found_at(found, i))
}

/// Whether snapshots carry the identities found where they were taken, as far
/// as those are the same objects.
pub open spec fn adopted(
    before: Seq<PathSnapshot>,
    after: Seq<PathSnapshot>,
    found: Seq<Option<Metadata>>,
) -> bool {
    after.len() == before.len() && forall|i: int|
        0 <= i < before.len() ==> #[trigger] after[i] == (if still_the_object(
            before[i],
            found_at(found, i),
        ) {
            PathSnapshot { identity: found_at(found, i).unwrap().identity(), ..before[i] }
        } else {
            before[i]
        })
}

impl ConfirmWanted {
    /// Whether `item` is what was copied, given what is at its paths.
    pub open spec fn settles(
        self,
        found: Seq<Option<Metadata>>,
        item: CopiedItem,
    ) -> bool {
        &&& item.sources == self.sources
        &&& item.overflowed == self.overflowed
        &&& item.dropped == self.dropped
        &&& item.undoable == all_still_there(self.created@, found)
        &&& adopted(self.created@, item.created@, found)
    }

    /// What is now at each of the published paths.
    ///
    /// The copy is published, so this can only cost undo: publication renames
    /// the staged root and moves its time of last change.
    pub fn confirmed(self, found: &Vec<Option<Metadata>>) -> (item: CopiedItem)
        ensures
            self.settles(found@, item),
    {
        let mut created = self.created;
        let undoable = refresh_snapshot_identities(&mut created, found);
        CopiedItem {
            sources: self.sources,
            created,
            overflowed: self.overflowed,
            undoable,
            dropped: self.dropped,
        }
    }
}

/// What syncing one staged directory gave.
#[derive(Clone, Copy, Debug)]
pub enum Synced {
    Done,
    /// The mode it was given denies its owner the read bit.
    Denied,
    Failed,
}

/// Whether a staged directory is as durable as it can be made.
///
/// A directory whose copied mode denies its owner the read bit cannot be
/// opened for the sync; the publishing directory's own sync still covers it on
/// a journaling filesystem, and there is nothing else to do, so it is skipped.
pub fn sync_staged_directory(directory: &PathBuf, synced: Synced) -> (verdict: Result<(), String>)
    ensures
        match verdict {
            Ok(_) => !(synced is Failed),
            Err(message) => synced is Failed && message@ == located(
                "Could not finish"@,
                directory.text(),
            ),
        },
{
    match synced {
        Synced::Done => Ok(()),
        Synced::Denied => Ok(()),
        Synced::Failed => Err(at("Could not finish", directory)),
    }
}

/// The content of a file being copied, a buffer at a time.
#[derive(Debug)]
pub struct BufferedCopy {
    pub source: PathBuf,
    pub destination: PathBuf,
}

/// A copy that wants to read into its buffer.
#[derive(Debug)]
pub struct ReadWanted {
    pub copy: BufferedCopy,
}

/// A copy that wants to write what it read.
#[derive(Debug)]
pub struct WriteWanted {
    pub copy: BufferedCopy,
    pub length: u64,
}

/// What came of a read.
#[derive(Debug)]
pub enum BufferedStep {
    Write(WriteWanted),
    /// The end was reached.
    Done,
    Failed(String),
}

impl BufferedCopy {
    /// What comes of going on.
    pub open spec fn goes_on(self, cancelled: bool, result: Result<ReadWanted, String>) -> bool {
        match result {
            Ok(wanted) => !cancelled && wanted.copy == self,
            Err(message) => cancelled && message@ == "Operation cancelled"@,
        }
    }

    /// Goes on, unless the copy was abandoned.
    pub fn copy_buffered(self, cancelled: bool) -> (result: Result<ReadWanted, String>)
        ensures
            self.goes_on(cancelled, result),
    {
        if cancelled {
            Err("Operation cancelled".to_owned())
        } else {
            Ok(ReadWanted { copy: self })
        }
    }
}

impl ReadWanted {
    /// What follows from how much was read.
    pub open spec fn follows(self, length: Option<u64>, step: BufferedStep) -> bool {
        match length {
            None => step matches BufferedStep::Failed(message) && message@ == located(
                "Could not read"@,
                self.copy.source.text(),
            ),
            Some(0) => step is Done,
            Some(length) => step == BufferedStep::Write(
                WriteWanted { copy: self.copy, length },
            ),
        }
    }

    /// How much was read, if anything could be.
    pub fn read(self, length: Option<u64>) -> (step: BufferedStep)
        ensures
            self.follows(length, step),
    {
        match length {
            None => BufferedStep::Failed(at("Could not read", &self.copy.source)),
            Some(0) => BufferedStep::Done,
            Some(length) => BufferedStep::Write(WriteWanted { copy: self.copy, length }),
        }
    }
}

impl WriteWanted {
    /// What comes of writing.
    pub open spec fn settles(self, complete: bool, result: Result<BufferedCopy, String>) -> bool {
        match result {
            Ok(copy) => complete && copy == self.copy,
            Err(message) => !complete && message@ == located(
                "Could not write"@,
                self.copy.destination.text(),
            ),
        }
    }

    /// Whether writing takes the progress from `before` to `after`.
    pub open spec fn counts(
        self,
        complete: bool,
        before: TransferProgressSnapshot,
        after: TransferProgressSnapshot,
    ) -> bool {
        after == if complete {
            TransferProgressSnapshot {
                completed_bytes: counted(before.completed_bytes, self.length),
                ..before
            }
        } else {
            before
        }
    }

    /// Whether everything was written.
    pub fn written(self, complete: bool, progress: &mut TransferProgress) -> (result: Result<
        BufferedCopy,
        String,
    >)
        ensures
            self.settles(complete, result),
            self.counts(complete, old(progress)@, final(progress)@),
    {
        if complete {
            progress.complete_bytes(self.length);
            Ok(self.copy)
        } else {
            Err(at("Could not write", &self.copy.destination))
        }
    }
}

/// The permission bits a copy is created with. Nobody else can read it until
/// it is whole.
pub const PRIVATE_MODE: u32 = 0o600;

/// An opened, verified regular file and the copy it gets.
#[derive(Debug)]
pub struct ContentCopy {
    pub source: PathBuf,
    pub destination: PathBuf,
}

/// What copying the content of a file wants next.
#[derive(Debug)]
pub enum ContentStep {
    /// Create the copy, which must not exist, with private permissions.
    Create(CreateWanted),
    /// Copy only the extents that hold data, if there are holes.
    Sparse(SparseWanted),
    /// Go back to the beginning of both, and empty the copy.
    Restart(RestartWanted),
    /// Copy all of it.
    Plain(PlainWanted),
    /// Make the copy durable.
    Sync(SyncWanted),
    /// The copy is whole and durable.
    Done(WholeContent),
    Failed(String),
}

/// A copy that is to be created.
#[derive(Debug)]
pub struct CreateWanted {
    pub content: ContentCopy,
    pub mode: u32,
}

/// A copy that is to get the extents that hold data.
#[derive(Debug)]
pub struct SparseWanted {
    pub content: ContentCopy,
}

/// A copy that begins again.
#[derive(Debug)]
pub struct RestartWanted {
    pub content: ContentCopy,
}

/// A copy that is to get every byte.
#[derive(Debug)]
pub struct PlainWanted {
    pub content: ContentCopy,
}

/// A copy that is to be made durable.
#[derive(Debug)]
pub struct SyncWanted {
    pub content: ContentCopy,
}

/// A copy whose content is whole and durable. Only making one durable gives
/// one of these.
#[derive(Debug)]
pub struct WholeContent {
    content: ContentCopy,
}

/// What came of beginning again.
#[derive(Debug)]
pub enum Restarted {
    Done,
    /// The source could not be read from its beginning.
    NotRewound,
    /// What was written could not be dropped.
    NotEmptied,
}

/// How copying the content of a file begins.
pub open spec fn begins_content(
    source: PathBuf,
    destination: PathBuf,
    step: ContentStep,
) -> bool {
    step == ContentStep::Create(
        CreateWanted { content: ContentCopy { source, destination }, mode: PRIVATE_MODE },
    )
}

/// Begins to copy the content of an already opened, already verified regular
/// file: only the extents that hold data where that is possible, else plainly.
pub fn copy_file_cancellable(source: &PathBuf, destination: &PathBuf) -> (step: ContentStep)
    ensures
        begins_content(*source, *destination, step),
{
    let content = ContentCopy { source: source.clone(), destination: destination.clone() };
    ContentStep::Create(CreateWanted { content, mode: PRIVATE_MODE })
}

impl CreateWanted {
    /// What follows from creating the copy.
    pub open spec fn follows(self, created: bool, step: ContentStep) -> bool {
        if created {
            step == ContentStep::Sparse(SparseWanted { content: self.content })
        } else {
            step matches ContentStep::Failed(message) && message@ == located(
                "Could not create"@,
                self.content.destination.text(),
            )
        }
    }

    /// Whether the copy was created.
    pub fn created(self, created: bool) -> (step: ContentStep)
        ensures
            self.follows(created, step),
    {
        if created {
            ContentStep::Sparse(SparseWanted { content: self.content })
        } else {
            ContentStep::Failed(at("Could not create", &self.content.destination))
        }
    }
}

impl SparseWanted {
    /// What follows from copying the extents.
    pub open spec fn follows(self, result: Result<bool, String>, step: ContentStep) -> bool {
        match result {
            Ok(true) => step == ContentStep::Sync(SyncWanted { content: self.content }),
            Ok(false) => step == ContentStep::Restart(
                RestartWanted { content: self.content },
            ),
            Err(why) => step == ContentStep::Failed(why),
        }
    }

    /// Whether the extents were copied, or the file has no holes worth keeping.
    pub fn copied(self, result: Result<bool, String>) -> (step: ContentStep)
        ensures
            self.follows(result, step),
    {
        match result {
            Ok(true) => ContentStep::Sync(SyncWanted { content: self.content }),
            Ok(false) => ContentStep::Restart(RestartWanted { content: self.content }),
            Err(why) => ContentStep::Failed(why),
        }
    }
}

impl RestartWanted {
    /// What follows from beginning again.
    pub open spec fn follows(self, restarted: Restarted, step: ContentStep) -> bool {
        match restarted {
            Restarted::Done => step == ContentStep::Plain(
                PlainWanted { content: self.content },
            ),
            Restarted::NotRewound => step matches ContentStep::Failed(message) && message@
                == located("Could not rewind"@, self.content.source.text()),
            Restarted::NotEmptied => step matches ContentStep::Failed(message) && message@
                == located("Could not restart"@, self.content.destination.text()),
        }
    }

    /// Whether both are at their beginning and the copy is empty.
    pub fn restarted(self, restarted: Restarted) -> (step: ContentStep)
        ensures
            self.follows(restarted, step),
    {
        match restarted {
            Restarted::Done => ContentStep::Plain(PlainWanted { content: self.content }),
            Restarted::NotRewound => ContentStep::Failed(
                at("Could not rewind", &self.content.source),
            ),
            Restarted::NotEmptied => ContentStep::Failed(
                at("Could not restart", &self.content.destination),
            ),
        }
    }
}

impl PlainWanted {
    /// The copy to make, a buffer at a time.
    pub fn copy(&self) -> (copy: BufferedCopy)
        ensures
            copy.source == self.content.source,
            copy.destination == self.content.destination,
    {
        BufferedCopy {
            source: self.content.source.clone(),
            destination: self.content.destination.clone(),
        }
    }

    /// What follows from copying every byte.
    pub open spec fn follows(self, result: Result<(), String>, step: ContentStep) -> bool {
        match result {
            Ok(_) => step == ContentStep::Sync(SyncWanted { content: self.content }),
            Err(why) => step == ContentStep::Failed(why),
        }
    }

    /// Whether every byte was copied.
    pub fn copied(self, result: Result<(), String>) -> (step: ContentStep)
        ensures
            self.follows(result, step),
    {
        match result {
            Ok(_) => ContentStep::Sync(SyncWanted { content: self.content }),
            Err(why) => ContentStep::Failed(why),
        }
    }
}

impl WholeContent {
    /// The file and its copy.
    pub closed spec fn of(self) -> ContentCopy {
        self.content
    }
}

impl SyncWanted {
    /// What follows from making the copy durable.
    pub open spec fn follows(self, synced: bool, step: ContentStep) -> bool {
        if synced {
            step matches ContentStep::Done(whole) && whole.of() == self.content
        } else {
            step matches ContentStep::Failed(message) && message@ == located(
                "Could not finish"@,
                self.content.destination.text(),
            )
        }
    }

    /// Whether the copy is durable.
    pub fn synced(self, synced: bool) -> (step: ContentStep)
        ensures
            self.follows(synced, step),
    {
        if synced {
            ContentStep::Done(WholeContent { content: self.content })
        } else {
            ContentStep::Failed(at("Could not finish", &self.content.destination))
        }
    }
}

/// A copy that is to get the extended attributes of its source first.
#[derive(Debug)]
pub struct AttributesWanted {
    pub source: PathBuf,
    pub destination: PathBuf,
}

/// A copy that is to get the timestamps of its source next.
#[derive(Debug)]
pub struct TimesWanted {
    pub destination: PathBuf,
    /// What the destination could not keep so far.
    pub dropped: Dropped,
}

/// A copy that is to get the mode of its source last.
#[derive(Debug)]
pub struct ModeWanted {
    pub destination: PathBuf,
    /// What the destination could not keep so far.
    pub dropped: Dropped,
}

/// Give the copy the source's attributes: extended attributes, timestamps,
/// then the mode, in that order. The mode can take away the owner's own read
/// bit, and applying timestamps needs an open descriptor. Going last also
/// keeps setuid and setgid off the copy until its content is final.
pub fn preserve_metadata(source: &PathBuf, destination: &PathBuf) -> (wanted: AttributesWanted)
    ensures
        wanted == (AttributesWanted { source: *source, destination: *destination }),
{
    AttributesWanted { source: source.clone(), destination: destination.clone() }
}

impl TimesWanted {
    /// What comes of setting the timestamps.
    pub open spec fn settles(self, done: bool, result: Result<ModeWanted, String>) -> bool {
        match result {
            Ok(wanted) => done && wanted.destination == self.destination && wanted.dropped
                == self.dropped,
            Err(message) => !done && message@ == located(
                "Could not preserve timestamps on"@,
                self.destination.text(),
            ),
        }
    }

    /// Whether the timestamps could be set.
    pub fn set(self, done: bool) -> (result: Result<ModeWanted, String>)
        ensures
            self.settles(done, result),
    {
        if done {
            Ok(ModeWanted { destination: self.destination, dropped: self.dropped })
        } else {
            Err(at("Could not preserve timestamps on", &self.destination))
        }
    }
}

impl ModeWanted {
    /// What comes of setting the mode.
    pub open spec fn settles(self, kept: Kept, result: Result<Dropped, String>) -> bool {
        match kept {
            Kept::Done => result == Ok::<Dropped, String>(self.dropped),
            Kept::Unsupported => result == Ok::<Dropped, String>(
                Dropped { permissions: true, ..self.dropped },
            ),
            Kept::Failed => result matches Err(message) && message@ == located(
                "Could not preserve permissions on"@,
                self.destination.text(),
            ),
        }
    }

    /// What came of setting the mode. Returns what the copy goes without.
    pub fn set(self, kept: Kept) -> (result: Result<Dropped, String>)
        ensures
            self.settles(kept, result),
    {
        match kept {
            Kept::Done => Ok(self.dropped),
            Kept::Unsupported => Ok(
                Dropped {
                    permissions: true,
                    attributes: self.dropped.attributes,
                    links: self.dropped.links,
                },
            ),
            Kept::Failed => Err(at("Could not preserve permissions on", &self.destination)),
        }
    }
}

/// Why the attributes of an object could not be listed.
#[derive(Clone, Copy, Debug)]
pub struct AttributeError {
    /// Whether the system says that the operation is not supported.
    pub unsupported: bool,
    /// The system's own number for the error.
    pub code: Option<i32>,
}

/// Whether an error only says that there are no attributes to list.
pub open spec fn has_no_attributes(error: AttributeError) -> bool {
    error.unsupported || error.code == Some(45i32) || error.code == Some(95i32)
}

pub fn xattrs_unsupported(error: AttributeError) -> (unsupported: bool)
    ensures
        unsupported == has_no_attributes(error),
{
    error.unsupported || matches!(error.code, Some(45) | Some(95))
}

/// `user.`
pub open spec fn user_attribute_prefix() -> Seq<u8> {
    seq![117u8, 115, 101, 114, 46]
}

/// `system.posix_acl_`
pub open spec fn acl_attribute_prefix() -> Seq<u8> {
    seq![
        115u8, 121, 115, 116, 101, 109, 46, 112, 111, 115, 105, 120, 95, 97, 99, 108, 95,
    ]
}

/// `access`
pub open spec fn access_suffix() -> Seq<u8> {
    seq![97u8, 99, 99, 101, 115, 115]
}

/// `default`
pub open spec fn default_suffix() -> Seq<u8> {
    seq![100u8, 101, 102, 97, 117, 108, 116]
}

/// Whether an attribute is carried to a copy: what a user attached, and the
/// access control lists.
pub open spec fn carried(name: Seq<u8>) -> bool {
    user_attribute_prefix().is_prefix_of(name) || name == acl_attribute_prefix() + access_suffix()
        || name == acl_attribute_prefix() + default_suffix()
}

pub fn supported_xattr_name(name: &[u8]) -> (supported: bool)
    ensures
        supported == carried(name@),
{
    let user: Vec<u8> = vec![117, 115, 101, 114, 46];
    assert(user@ =~= user_attribute_prefix());
    if begins_with(name, user.as_slice()) {
        return true;
    }
    let access: Vec<u8> =
        vec![
        115, 121, 115, 116, 101, 109, 46, 112, 111, 115, 105, 120, 95, 97, 99, 108, 95, 97, 99, 99,
        101, 115, 115,
    ];
    assert(access@ =~= acl_attribute_prefix() + access_suffix());
    if same_bytes(name, access.as_slice()) {
        return true;
    }
    let default: Vec<u8> =
        vec![
        115, 121, 115, 116, 101, 109, 46, 112, 111, 115, 105, 120, 95, 97, 99, 108, 95, 100, 101,
        102, 97, 117, 108, 116,
    ];
    assert(default@ =~= acl_attribute_prefix() + default_suffix());
    same_bytes(name, default.as_slice())
}

/// The attributes that are carried, of those that were listed.
pub open spec fn carried_of(names: Seq<Vec<u8>>) -> Seq<Vec<u8>> {
    names.filter(|name: Vec<u8>| carried(name@))
}

/// Attributes that are to be carried to a copy, the first one first.
#[derive(Debug)]
pub struct CarryAttributes {
    pub source: PathBuf,
    pub destination: PathBuf,
    pub names: Vec<Vec<u8>>,
}

impl AttributesWanted {
    /// What comes of the attributes the source has.
    pub open spec fn comes_to(
        self,
        listed: Result<Vec<Vec<u8>>, AttributeError>,
        result: Result<CarryAttributes, String>,
    ) -> bool {
        match listed {
            Ok(names) => result matches Ok(carry) && carry.names@ == carried_of(names@)
                && carry.source == self.source && carry.destination == self.destination,
            Err(error) => if has_no_attributes(error) {
                result matches Ok(carry) && carry.names@.len() == 0 && carry.source
                    == self.source && carry.destination == self.destination
            } else {
                result matches Err(message) && message@ == located(
                    "Could not list attributes on"@,
                    self.source.text(),
                )
            },
        }
    }

    /// The attributes the source has, or why they could not be listed.
    pub fn preserve_supported_xattrs(self, listed: Result<Vec<Vec<u8>>, AttributeError>) -> (result:
        Result<CarryAttributes, String>)
        ensures
            self.comes_to(listed, result),
    {
        match listed {
            Ok(names) => {
                let ghost all = names@;
                let mut names = names;
                let mut kept: Vec<Vec<u8>> = Vec::new();
                let mut left: Vec<Vec<u8>> = Vec::new();
                // Reversed so that taking from the end gives them in order.
                while names.len() > 0
                    invariant
                        left@.reverse() == all.skip(names@.len() as int),
                        names@ == all.take(names@.len() as int),
                        names@.len() <= all.len(),
                    decreases names.len(),
                {
                    let ghost names_before = names@;
                    let ghost left_before = left@;
                    match names.pop() {
                        Some(name) => {
                            left.push(name);
                            proof {
                                assert(names@ =~= all.take(names@.len() as int));
                                assert(left@.reverse() =~= seq![name] + left_before.reverse());
                                assert(all.skip(names@.len() as int) =~= seq![
                                    all[names@.len() as int],
                                ] + all.skip(names_before.len() as int));
                            }
                        },
                        None => {},
                    }
                }
                assert(left@.reverse() =~= all);
                while left.len() > 0
                    invariant
                        left@.len() <= all.len(),
                        left@.reverse() == all.skip(all.len() - left@.len()),
                        kept@ == carried_of(all.take(all.len() - left@.len())),
                    decreases left.len(),
                {
                    let ghost left_before = left@;
                    let ghost done = all.len() - left@.len();
                    match left.pop() {
                        Some(name) => {
                            proof {
                                assert(left_before.reverse()[0] == name);
                                assert(all[done] == name);
                                assert(left@.reverse() =~= all.skip(done + 1)) by {
                                    assert(left@.reverse() =~= left_before.reverse().skip(1));
                                }
                                reveal(Seq::filter);
                                assert(all.take(done + 1).drop_last() =~= all.take(done));
                                assert(all.take(done + 1).last() == name);
                            }
                            if supported_xattr_name(name.as_slice()) {
                                kept.push(name);
                            }
                        },
                        None => {},
                    }
                }
                assert(all.take(all.len() as int) =~= all);
                Ok(
                    CarryAttributes {
                        source: self.source,
                        destination: self.destination,
                        names: kept,
                    },
                )
            },
            Err(error) => if xattrs_unsupported(error) {
                Ok(
                    CarryAttributes {
                        source: self.source,
                        destination: self.destination,
                        names: Vec::new(),
                    },
                )
            } else {
                Err(at("Could not list attributes on", &self.source))
            },
        }
    }
}

/// What carrying one attribute gave.
#[derive(Clone, Copy, Debug)]
pub enum AttributeOutcome {
    /// It could not be read from the source.
    Unread,
    /// It was gone by the time it was read.
    Gone,
    /// It could not be set on the copy.
    NotSet,
    /// The filesystem of the copy has no such attributes.
    Unsupported,
    Carried,
}

/// `{before}“{name}”{middle}“{path}”`
pub open spec fn about_attribute(
    before: Seq<char>,
    name: Seq<u8>,
    middle: Seq<char>,
    path: Seq<u8>,
) -> Seq<char> {
    about(before + "“"@ + utf8_lossy(name) + "”"@ + middle, path, ""@)
}

fn attribute_message(before: &str, name: &[u8], middle: &str, path: &PathBuf) -> (message: String)
    ensures
        message@ == about_attribute(before@, name@, middle@, path.text()),
{
    let mut start = before.to_owned();
    start.append("“");
    let shown = lossy(name);
    start.append(shown.as_str());
    start.append("”");
    start.append(middle);
    message_about(start.as_str(), path, "")
}

/// Whether an attribute stops the copy.
pub open spec fn stops(outcome: AttributeOutcome) -> bool {
    outcome is Unread || outcome is NotSet
}

impl AttributeOutcome {
    /// Whether this stops the copy, so that no further attribute matters.
    pub fn ends_copy(&self) -> (yes: bool)
        ensures
            yes == stops(*self),
    {
        match self {
            AttributeOutcome::Unread => true,
            AttributeOutcome::NotSet => true,
            _ => false,
        }
    }
}

impl CarryAttributes {
    /// What comes of carrying the attributes.
    pub open spec fn comes_to(
        self,
        outcomes: Seq<AttributeOutcome>,
        result: Result<TimesWanted, String>,
    ) -> bool {
        match result {
            Ok(wanted) => {
                &&& wanted.destination == self.destination
                &&& outcomes.len() >= self.names@.len()
                &&& forall|i: int|
                    0 <= i < self.names@.len() ==> !stops(#[trigger] outcomes[i])
                &&& wanted.dropped == (Dropped {
                    permissions: false,
                    attributes: exists|i: int|
                        0 <= i < self.names@.len() && #[trigger] outcomes[i] is Unsupported,
                    links: false,
                })
            },
            Err(message) => exists|i: int|
                {
                    &&& 0 <= i < self.names@.len()
                    &&& i <= outcomes.len()
                    &&& forall|j: int| 0 <= j < i ==> !stops(#[trigger] outcomes[j])
                    &&& i < outcomes.len() ==> stops(outcomes[i])
                    &&& if i < outcomes.len() && outcomes[i] is NotSet {
                        message@ == about_attribute(
                            "Could not preserve attribute "@,
                            (#[trigger] self.names@[i])@,
                            " on "@,
                            self.destination.text(),
                        )
                    } else {
                        message@ == about_attribute(
                            "Could not read attribute "@,
                            self.names@[i]@,
                            " from "@,
                            self.source.text(),
                        )
                    }
                },
        }
    }

    /// The timestamps come next, once something came of every attribute.
    /// `outcomes` says what, in order, up to the first that failed. An
    /// attribute nothing was said of was not carried, and counts as unread.
    pub fn carried(self, outcomes: &Vec<AttributeOutcome>) -> (result: Result<TimesWanted, String>)
        ensures
            self.comes_to(outcomes@, result),
    {
        let mut lost = false;
        let mut i: usize = 0;
        while i < self.names.len()
            invariant
                i <= self.names@.len(),
                i <= outcomes@.len(),
                forall|j: int| 0 <= j < i ==> !stops(#[trigger] outcomes@[j]),
                lost <==> exists|j: int| 0 <= j < i && #[trigger] outcomes@[j] is Unsupported,
            decreases self.names.len() - i,
        {
            let outcome = if i < outcomes.len() { outcomes[i] } else { AttributeOutcome::Unread };
            let ghost name = self.names@[i as int];
            match outcome {
                AttributeOutcome::Unread => {
                    return Err(
                        attribute_message(
                            "Could not read attribute ",
                            self.names[i].as_slice(),
                            " from ",
                            &self.source,
                        ),
                    );
                },
                AttributeOutcome::NotSet => {
                    return Err(
                        attribute_message(
                            "Could not preserve attribute ",
                            self.names[i].as_slice(),
                            " on ",
                            &self.destination,
                        ),
                    );
                },
                AttributeOutcome::Unsupported => {
                    lost = true;
                },
                _ => {},
            }
            i += 1;
        }
        let dropped = Dropped { permissions: false, attributes: lost, links: false };
        Ok(TimesWanted { destination: self.destination, dropped })
    }
}

} // verus!
