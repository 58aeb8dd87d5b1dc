//! Extracting an archive into private staging and publishing what came out.

use vstd::prelude::*;
use vstd::utf8::encode_utf8;

use crate::fsops::archive::{
    archive_stem, extension_is, has_extension, is_compound_tar_archive, names_compound_tar,
    preflight, stem_name, validate_preflight, ArchiveEntry, ArchiveOutcome, Budget, MergeAdded,
};
use crate::fsops::backend::check_cancelled;
use crate::fsops::compress::{removable_tree, snapshot_removable_tree};
use crate::fsops::identity::{about, message_about, SnapshotKind};
use crate::fsops::journal::{CommittedOperation, OperationRecord, PathSnapshot, ReplacedItem};
use crate::fsops::local::{at, located, Lookup, Name};
use crate::fsops::merge::{MergeOutcome, MergeStop};
use crate::fsops::mutations::{
    lemma_accepted_name_stays_inside, name_refusal, validate_entry_os_name,
};
use crate::fsops::plan::SourcePlan;
use crate::fsops::quarantine::{restore_replaced_items, Restoring};
use crate::fsops::snapshots::special_refusal;
use crate::fsops::transfer::REPLACEMENT_UNDO_BYTE_LIMIT;
use crate::path::{lemma_join_then_file_name, PathBuf};
use crate::text::{lossy, utf8_lossy};

verus! {

/// One thing the archive program left in staging.
#[derive(Debug)]
pub struct StagedEntry {
    pub path: PathBuf,
    pub is_file: bool,
}

/// A walk over what the archive program has written into staging.
#[derive(Debug)]
pub struct StagedWalk {
    /// Directories left to look into, the next one last.
    pub pending: Vec<PathBuf>,
    pub entries: Vec<StagedEntry>,
    pub budget: Budget,
    pub tolerate_missing: bool,
}

/// What a walk over staging wants next.
#[derive(Debug)]
pub enum StagedStep {
    List(StagedList),
    Finished(Vec<StagedEntry>),
}

/// The walk waits for what is in a directory.
#[derive(Debug)]
pub struct StagedList {
    pub walk: StagedWalk,
    pub directory: PathBuf,
}

/// One line of a directory's listing.
#[derive(Debug)]
pub enum StagedName {
    Named(Name),
    /// It was gone before it could be read.
    Missing,
    Failed,
}

/// What listing a directory of staging gave.
#[derive(Debug)]
pub enum StagedListing {
    Names(Vec<StagedName>),
    /// The directory is gone.
    Missing,
    Failed,
}

/// A directory of staging being gone through.
#[derive(Debug)]
pub struct StagedDirectory {
    pub walk: StagedWalk,
    pub directory: PathBuf,
    pub names: Vec<StagedName>,
    /// How many of the names were gone through.
    pub done: usize,
}

/// What going through a directory of staging wants next.
#[derive(Debug)]
pub enum StagedDirectoryStep {
    Inspect(StagedInspect),
    /// A name that is gone; go on with the next.
    Next(StagedDirectory),
    /// The directory is done.
    Walk(StagedWalk),
}

/// The walk waits to know what is at `path`.
#[derive(Debug)]
pub struct StagedInspect {
    pub rest: StagedDirectory,
    pub path: PathBuf,
}

/// Walk what the archive program has written into staging, refusing anything
/// that would not be published.
///
/// Runs twice per extraction: periodically while the program is still writing
/// (`tolerate_missing`, since entries come and go under it) and once more when
/// it has finished, so a dishonest listing cannot get a tree past the limits
/// that the listing itself would have failed.
pub fn walk_staged(root: &PathBuf, tolerate_missing: bool) -> (walk: StagedWalk)
    ensures
        walk.pending@ == seq![*root],
        walk.entries@.len() == 0,
        walk.budget == (Budget { entries: 0, bytes: 0, listed: false }),
        walk.tolerate_missing == tolerate_missing,
{
    let mut pending: Vec<PathBuf> = Vec::new();
    pending.push(root.clone());
    StagedWalk { pending, entries: Vec::new(), budget: Budget::staged(), tolerate_missing }
}

impl StagedWalk {
    /// Whether `result` is what the walk goes on with.
    pub open spec fn goes_on(self, cancelled: bool, result: Result<StagedStep, String>) -> bool {
        match result {
            Ok(StagedStep::List(list)) => !cancelled && self.pending@.len() > 0
                && list.directory == self.pending@.last() && list.walk.pending@
                == self.pending@.drop_last() && list.walk.entries == self.entries
                && list.walk.budget == self.budget && list.walk.tolerate_missing
                == self.tolerate_missing,
            Ok(StagedStep::Finished(entries)) => self.pending@.len() == 0 && entries
                == self.entries && (entries@.len() > 0 || self.tolerate_missing),
            Err(message) => if self.pending@.len() > 0 {
                cancelled && message@ == "Archive operation cancelled"@
            } else {
                self.entries@.len() == 0 && !self.tolerate_missing && message@
                    == "Archive contains no extractable entries"@
            },
        }
    }

    pub fn next(self, cancelled: bool) -> (result: Result<StagedStep, String>)
        ensures
            self.goes_on(cancelled, result),
    {
        let StagedWalk { pending, entries, budget, tolerate_missing } = self;
        let mut pending = pending;
        match pending.pop() {
            Some(directory) => {
                match check_cancelled(cancelled) {
                    Ok(_) => {},
                    Err(message) => {
                        return Err(message);
                    },
                }
                Ok(
                    StagedStep::List(
                        StagedList {
                            walk: StagedWalk { pending, entries, budget, tolerate_missing },
                            directory,
                        },
                    ),
                )
            },
            None => {
                if entries.len() == 0 && !tolerate_missing {
                    return Err("Archive contains no extractable entries".to_owned());
                }
                Ok(StagedStep::Finished(entries))
            },
        }
    }
}

impl StagedList {
    /// Whether `result` is what a directory's listing comes to.
    pub open spec fn comes_to(
        self,
        listing: StagedListing,
        result: Result<StagedDirectory, String>,
    ) -> bool {
        match result {
            Ok(rest) => {
                &&& rest.walk == self.walk
                &&& rest.directory == self.directory
                &&& rest.done == 0
                &&& match listing {
                    StagedListing::Names(names) => rest.names == names,
                    StagedListing::Missing => self.walk.tolerate_missing && rest.names@.len()
                        == 0,
                    StagedListing::Failed => false,
                }
            },
            Err(message) => (listing is Failed || (listing is Missing
                && !self.walk.tolerate_missing)) && message@ == located(
                "Could not inspect staging"@,
                self.directory.text(),
            ),
        }
    }

    /// What is in the directory.
    pub fn listed(self, listing: StagedListing) -> (result: Result<StagedDirectory, String>)
        ensures
            self.comes_to(listing, result),
    {
        let StagedList { walk, directory } = self;
        match listing {
            StagedListing::Names(names) => Ok(StagedDirectory { walk, directory, names, done: 0 }),
            StagedListing::Missing => if walk.tolerate_missing {
                Ok(StagedDirectory { walk, directory, names: Vec::new(), done: 0 })
            } else {
                Err(at("Could not inspect staging", &directory))
            },
            StagedListing::Failed => Err(at("Could not inspect staging", &directory)),
        }
    }
}

impl StagedDirectory {
    /// Whether `result` is what the directory goes on with.
    pub open spec fn goes_on(
        self,
        cancelled: bool,
        result: Result<StagedDirectoryStep, String>,
    ) -> bool {
        if self.done >= self.names@.len() {
            result == Ok::<StagedDirectoryStep, String>(StagedDirectoryStep::Walk(self.walk))
        } else if cancelled {
            result matches Err(message) && message@ == "Archive operation cancelled"@
        } else {
            let after = StagedDirectory { done: (self.done + 1) as usize, ..self };
            match self.names@[self.done as int] {
                StagedName::Named(name) => result matches Ok(
                    StagedDirectoryStep::Inspect(inspect),
                ) && inspect.rest == after && inspect.path@ == self.directory@.join(name@),
                StagedName::Missing => if self.walk.tolerate_missing {
                    result == Ok::<StagedDirectoryStep, String>(
                        StagedDirectoryStep::Next(after),
                    )
                } else {
                    result matches Err(message) && message@
                        == "Could not read archive staging entry"@
                },
                StagedName::Failed => result matches Err(message) && message@
                    == "Could not read archive staging entry"@,
            }
        }
    }

    pub fn next(self, cancelled: bool) -> (result: Result<StagedDirectoryStep, String>)
        ensures
            self.goes_on(cancelled, result),
    {
        if self.done >= self.names.len() {
            return Ok(StagedDirectoryStep::Walk(self.walk));
        }
        match check_cancelled(cancelled) {
            Ok(_) => {},
            Err(message) => {
                return Err(message);
            },
        }
        let path = match &self.names[self.done] {
            StagedName::Named(name) => Some(self.directory.join(name.as_bytes())),
            StagedName::Missing => if self.walk.tolerate_missing {
                None
            } else {
                return Err("Could not read archive staging entry".to_owned());
            },
            StagedName::Failed => {
                return Err("Could not read archive staging entry".to_owned());
            },
        };
        let mut rest = self;
        rest.done = rest.done + 1;
        match path {
            Some(path) => Ok(StagedDirectoryStep::Inspect(StagedInspect { rest, path })),
            None => Ok(StagedDirectoryStep::Next(rest)),
        }
    }
}

/// Whether the walk has taken in one more entry.
pub open spec fn took_in(
    before: StagedDirectory,
    after: StagedDirectory,
    path: PathBuf,
    kind: SnapshotKind,
    len: u64,
) -> bool {
    &&& after.directory == before.directory
    &&& after.names == before.names
    &&& after.done == before.done
    &&& after.walk.tolerate_missing == before.walk.tolerate_missing
    &&& after.walk.pending@ == (if kind is Directory {
        before.walk.pending@.push(path)
    } else {
        before.walk.pending@
    })
    &&& before.walk.budget.after(
        if kind is File {
            len
        } else {
            0
        },
    ) == Ok::<Budget, Seq<char>>(after.walk.budget)
    &&& after.walk.entries@ == before.walk.entries@.push(StagedEntry { path, is_file: kind is File })
}

impl StagedInspect {
    /// Whether `result` is what follows on what is at the path.
    pub open spec fn comes_to(
        self,
        found: Lookup,
        result: Result<StagedDirectory, String>,
    ) -> bool {
        match found {
            Lookup::Missing if self.rest.walk.tolerate_missing => result == Ok::<
                StagedDirectory,
                String,
            >(self.rest),
            Lookup::Found(metadata) => match metadata.kind {
                SnapshotKind::Symlink => result matches Err(message) && message@ == about(
                    "Archive extracted an unsupported symbolic link "@,
                    self.path.text(),
                    ""@,
                ),
                SnapshotKind::Directory | SnapshotKind::File => match result {
                    Ok(rest) => took_in(
                        self.rest,
                        rest,
                        self.path,
                        metadata.kind,
                        metadata.len,
                    ),
                    Err(message) => self.rest.walk.budget.after(
                        if metadata.kind is File {
                            metadata.len
                        } else {
                            0
                        },
                    ) == Err::<Budget, Seq<char>>(message@),
                },
                _ => result matches Err(message) && message@ == about(
                    "Archive extracted unsupported special entry "@,
                    self.path.text(),
                    ""@,
                ),
            },
            _ => result matches Err(message) && message@ == located(
                "Could not inspect"@,
                self.path.text(),
            ),
        }
    }

    /// What is at the path.
    pub fn found(self, found: &Lookup) -> (result: Result<StagedDirectory, String>)
        ensures
            self.comes_to(*found, result),
    {
        let StagedInspect { rest, path } = self;
        let metadata = match found {
            Lookup::Found(metadata) => *metadata,
            Lookup::Missing => {
                if rest.walk.tolerate_missing {
                    return Ok(rest);
                }
                return Err(at("Could not inspect", &path));
            },
            Lookup::Failed(_) => {
                return Err(at("Could not inspect", &path));
            },
        };
        if metadata.kind == SnapshotKind::Symlink {
            return Err(
                message_about("Archive extracted an unsupported symbolic link ", &path, ""),
            );
        }
        let is_file = metadata.kind == SnapshotKind::File;
        let is_dir = metadata.kind == SnapshotKind::Directory;
        if !is_dir && !is_file {
            return Err(message_about("Archive extracted unsupported special entry ", &path, ""));
        }
        let mut rest = rest;
        if is_dir {
            rest.walk.pending.push(path.clone());
        }
        let mut budget = rest.walk.budget;
        match budget.add(if is_file { metadata.len } else { 0 }) {
            Ok(_) => {},
            Err(message) => {
                return Err(message);
            },
        }
        rest.walk.budget = budget;
        rest.walk.entries.push(StagedEntry { path, is_file });
        Ok(rest)
    }
}

/// An archive being extracted.
#[derive(Debug)]
pub struct Extraction {
    /// The archive the user chose.
    pub archive: PathBuf,
    /// The directory it is in.
    pub parent: PathBuf,
    /// The archive being opened: the user's, or the tar inside it.
    pub current: PathBuf,
    pub nested: bool,
}

/// A private staging directory is wanted in `extraction.parent`.
#[derive(Debug)]
pub struct ExtractStaging {
    pub extraction: Extraction,
}

/// What reserving staging gave.
#[derive(Debug)]
pub enum StagingReserved {
    /// No directory could be created.
    Refused,
    /// The directory was created, but not the output root in it.
    WithoutRoot(PathBuf),
    /// The output root.
    Reserved(PathBuf),
}

/// The archive program is to extract `extraction.current` into `root`.
#[derive(Debug)]
pub struct ExtractWanted {
    pub extraction: Extraction,
    pub root: PathBuf,
}

/// What was extracted is to be walked.
#[derive(Debug)]
pub struct ExtractedWalk {
    pub extraction: Extraction,
    pub root: PathBuf,
}

/// What extracted output wants.
#[derive(Debug)]
pub enum ExtractedStep {
    /// It is one tar: extract what is inside that.
    Unwrap(Extraction),
    /// Look at what lies at its top.
    TopLevel(TopLevelWanted),
}

/// What lies at the top of the extracted output is wanted.
#[derive(Debug)]
pub struct TopLevelWanted {
    pub archive: PathBuf,
    pub parent: PathBuf,
    pub root: PathBuf,
}

/// Why the top of the extracted output could not be read.
#[derive(Clone, Copy, Debug)]
pub enum TopLevelError {
    Directory,
    Entry,
}

/// Extracted output that is to be published.
#[derive(Debug)]
pub struct PublishExtracted {
    pub source: PathBuf,
    pub parent: PathBuf,
    pub destination: PathBuf,
}

/// Starts extracting an archive.
pub fn extract_archive(archive: &PathBuf) -> (result: Result<Extraction, String>)
    ensures
        match archive@.parent() {
            Some(parent) => result matches Ok(extraction) && extraction.archive == *archive
                && extraction.parent@ == parent && extraction.current == *archive
                && !extraction.nested,
            None => result matches Err(message) && message@
                == "Archive has no containing directory"@,
        },
{
    match archive.parent() {
        Some(parent) => Ok(
            Extraction {
                archive: archive.clone(),
                parent,
                current: archive.clone(),
                nested: false,
            },
        ),
        None => Err("Archive has no containing directory".to_owned()),
    }
}

impl Extraction {
    /// Whether `result` is what the archive's listing comes to.
    pub open spec fn passes(
        self,
        listing: Result<Vec<ArchiveEntry>, String>,
        result: Result<ExtractStaging, String>,
    ) -> bool {
        match listing {
            Err(why) => result == Err::<ExtractStaging, String>(why),
            Ok(entries) => match result {
                Ok(staging) => entries@.len() > 0 && preflight(entries@) is Ok
                    && staging.extraction == self,
                Err(message) => if entries@.len() == 0 {
                    message@ == "Archive contains no extractable entries"@
                } else {
                    preflight(entries@) == Err::<Budget, Seq<char>>(message@)
                },
            },
        }
    }

    /// What the archive lists, or why that is not known.
    pub fn listed(self, listing: Result<Vec<ArchiveEntry>, String>) -> (result: Result<
        ExtractStaging,
        String,
    >)
        ensures
            self.passes(listing, result),
    {
        let entries = match listing {
            Ok(entries) => entries,
            Err(why) => {
                return Err(why);
            },
        };
        match validate_preflight(&entries) {
            Ok(_) => Ok(ExtractStaging { extraction: self }),
            Err(message) => Err(message),
        }
    }
}

impl ExtractStaging {
    /// What reserving staging gave.
    pub fn reserved(self, reserved: StagingReserved) -> (result: Result<ExtractWanted, String>)
        ensures
            match reserved {
                StagingReserved::Reserved(root) => result == Ok::<ExtractWanted, String>(
                    ExtractWanted { extraction: self.extraction, root },
                ),
                StagingReserved::Refused => result matches Err(message) && message@ == located(
                    "Could not create private archive staging in"@,
                    self.extraction.parent.text(),
                ),
                StagingReserved::WithoutRoot(directory) => result matches Err(message) && message@
                    == located("Could not create archive output root in"@, directory.text()),
            },
    {
        match reserved {
            StagingReserved::Reserved(root) => Ok(
                ExtractWanted { extraction: self.extraction, root },
            ),
            StagingReserved::Refused => Err(
                at("Could not create private archive staging in", &self.extraction.parent),
            ),
            StagingReserved::WithoutRoot(directory) => Err(
                at("Could not create archive output root in", &directory),
            ),
        }
    }
}

impl ExtractWanted {
    /// Whether `next` is what running the archive program comes to.
    pub open spec fn passes(
        self,
        result: Result<(), String>,
        cancelled: bool,
        next: Result<ExtractedWalk, String>,
    ) -> bool {
        match result {
            Err(why) => next == Err::<ExtractedWalk, String>(why),
            Ok(_) => if cancelled {
                next matches Err(message) && message@ == "Archive operation cancelled"@
            } else {
                next == Ok::<ExtractedWalk, String>(
                    ExtractedWalk { extraction: self.extraction, root: self.root },
                )
            },
        }
    }

    /// Whether the archive program extracted everything, or why not.
    pub fn extracted(self, result: Result<(), String>, cancelled: bool) -> (next: Result<
        ExtractedWalk,
        String,
    >)
        ensures
            self.passes(result, cancelled, next),
    {
        match result {
            Ok(_) => {},
            Err(why) => {
                return Err(why);
            },
        }
        match check_cancelled(cancelled) {
            Ok(_) => Ok(ExtractedWalk { extraction: self.extraction, root: self.root }),
            Err(message) => Err(message),
        }
    }
}

/// Whether extracted output is the one tar of a compressed tar, of which the
/// user wants what is inside.
pub open spec fn wraps_tar(extraction: Extraction, staged: Seq<StagedEntry>) -> bool {
    &&& !extraction.nested
    &&& staged.len() == 1
    &&& staged[0].is_file
    &&& has_extension(staged[0].path@, "tar"@)
    &&& names_compound_tar(extraction.archive@)
}

impl ExtractedWalk {
    /// Whether `result` is what the output comes to.
    pub open spec fn follows(
        self,
        staged: Result<Vec<StagedEntry>, String>,
        result: Result<ExtractedStep, String>,
    ) -> bool {
        match staged {
            Err(why) => result == Err::<ExtractedStep, String>(why),
            Ok(staged) => if wraps_tar(self.extraction, staged@) {
                result == Ok::<ExtractedStep, String>(
                    ExtractedStep::Unwrap(
                        Extraction {
                            archive: self.extraction.archive,
                            parent: self.extraction.parent,
                            current: staged@[0].path,
                            nested: true,
                        },
                    ),
                )
            } else {
                result == Ok::<ExtractedStep, String>(
                    ExtractedStep::TopLevel(
                        TopLevelWanted {
                            archive: self.extraction.archive,
                            parent: self.extraction.parent,
                            root: self.root,
                        },
                    ),
                )
            },
        }
    }

    /// What walking the output gave.
    pub fn walked(self, staged: Result<Vec<StagedEntry>, String>) -> (result: Result<
        ExtractedStep,
        String,
    >)
        ensures
            self.follows(staged, result),
    {
        let staged = match staged {
            Ok(staged) => staged,
            Err(why) => {
                return Err(why);
            },
        };
        let ExtractedWalk { extraction, root } = self;
        if !extraction.nested && staged.len() == 1 && staged[0].is_file && extension_is(
            &staged[0].path,
            "tar",
        ) && is_compound_tar_archive(&extraction.archive) {
            let current = staged[0].path.clone();
            return Ok(
                ExtractedStep::Unwrap(
                    Extraction {
                        archive: extraction.archive,
                        parent: extraction.parent,
                        current,
                        nested: true,
                    },
                ),
            );
        }
        Ok(
            ExtractedStep::TopLevel(
                TopLevelWanted { archive: extraction.archive, parent: extraction.parent, root },
            ),
        )
    }
}

/// Why an archive's only entry is not published, if its name is refused.
pub open spec fn only_entry_refusal(name: Seq<u8>) -> Option<Seq<char>> {
    match name_refusal(name) {
        Some(why) => Some(
            "Cannot publish the archive's only entry “"@ + utf8_lossy(name) + "”: "@ + why,
        ),
        None => None,
    }
}

impl TopLevelWanted {
    /// Whether `result` is what the output comes to, by what lies at its top.
    pub open spec fn follows(
        self,
        names: Result<Vec<Name>, TopLevelError>,
        result: Result<PublishExtracted, String>,
    ) -> bool {
        &&& (result matches Ok(publish) ==> publish.destination@.parent() == Some(self.parent@))
        &&& match names {
            Err(TopLevelError::Directory) => result matches Err(message) && message@ == located(
                "Could not inspect archive staging"@,
                self.root.text(),
            ),
            Err(TopLevelError::Entry) => result matches Err(message) && message@
                == "Could not read archive staging entry"@,
            Ok(names) => if names@.len() == 0 {
                result matches Err(message) && message@
                    == "Archive contains no extractable entries"@
            } else if names@.len() == 1 {
                match only_entry_refusal(names@[0]@) {
                    Some(why) => result matches Err(message) && message@ == why,
                    None => result matches Ok(publish) && publish.source@ == self.root@.join(
                        names@[0]@,
                    ) && publish.parent == self.parent && publish.destination@
                        == self.parent@.join(names@[0]@),
                }
            } else {
                result matches Ok(publish) && publish.source == self.root && publish.parent
                    == self.parent && publish.destination@ == self.parent@.join(
                    encode_utf8(stem_name(self.archive@)),
                )
            },
        }
    }

    /// What lies at the top of the output.
    ///
    /// One item is published as itself; several are published together under
    /// the archive's name, which means publishing the output root. The
    /// archive's own naming is published verbatim for one item, so it has to
    /// clear the bar a rename does. Either way what is published lies directly
    /// in the archive's own directory.
    pub fn listed(self, names: Result<Vec<Name>, TopLevelError>) -> (result: Result<
        PublishExtracted,
        String,
    >)
        ensures
            self.follows(names, result),
    {
        let TopLevelWanted { archive, parent, root } = self;
        let names = match names {
            Ok(names) => names,
            Err(TopLevelError::Directory) => {
                return Err(at("Could not inspect archive staging", &root));
            },
            Err(TopLevelError::Entry) => {
                return Err("Could not read archive staging entry".to_owned());
            },
        };
        if names.len() == 0 {
            return Err("Archive contains no extractable entries".to_owned());
        }
        if names.len() == 1 {
            let name = names[0].as_bytes();
            match validate_entry_os_name(name) {
                Ok(_) => {},
                Err(why) => {
                    let mut message = "Cannot publish the archive's only entry “".to_owned();
                    let shown = lossy(name);
                    message.append(shown.as_str());
                    message.append("”: ");
                    message.append(why.as_str());
                    return Err(message);
                },
            }
            let source = root.join(name);
            let destination = parent.join(name);
            proof {
                lemma_accepted_name_stays_inside(name@);
                lemma_join_then_file_name(parent@, name@);
            }
            return Ok(PublishExtracted { source, parent, destination });
        }
        let stem = archive_stem(&archive);
        let destination = parent.join(stem.as_str().as_bytes());
        proof {
            lemma_accepted_name_stays_inside(encode_utf8(stem@));
            lemma_join_then_file_name(parent@, encode_utf8(stem@));
        }
        Ok(PublishExtracted { source: root, parent, destination })
    }
}

/// What publishing extracted output wants, once it is known where it goes.
#[derive(Debug)]
pub enum PublishStep {
    /// Rename it to its target.
    Rename(PublishRename),
    /// Move what is at the target aside first.
    Quarantine(PublishQuarantine),
    /// Fold it into the folder at the target.
    Merge(PublishMerge),
    Failed(String),
}

/// Output that is to be renamed to its target.
#[derive(Debug)]
pub struct PublishRename {
    pub source: PathBuf,
    pub target: PathBuf,
    pub displaced: Option<ReplacedItem>,
}

/// Output whose target is to be moved aside.
#[derive(Debug)]
pub struct PublishQuarantine {
    pub source: PathBuf,
    pub target: PathBuf,
}

/// Output that is to be folded into a folder.
#[derive(Debug)]
pub struct PublishMerge {
    pub source: PathBuf,
    pub target: PathBuf,
}

/// What came of renaming output to its target.
#[derive(Debug)]
pub enum PublishedStep {
    Published(ArchiveOutcome),
    /// Put back what was displaced rather than leaving the destination empty.
    Restore(Restoring, PublishFailed),
    Failed(String),
}

/// Output that was not published.
#[derive(Debug)]
pub struct PublishFailed {
    pub message: String,
}

impl PublishExtracted {
    /// Whether `step` is how a plan for the output is carried out.
    pub open spec fn follows(self, plan: SourcePlan, step: PublishStep) -> bool {
        match plan {
            SourcePlan::Transfer(target) => step == PublishStep::Rename(
                PublishRename { source: self.source, target, displaced: None },
            ),
            SourcePlan::Replace(target) => step == PublishStep::Quarantine(
                PublishQuarantine { source: self.source, target },
            ),
            SourcePlan::Merge(target) => step == PublishStep::Merge(
                PublishMerge { source: self.source, target },
            ),
            SourcePlan::Skip => step matches PublishStep::Failed(message) && message@
                == "Extraction cancelled; nothing was written"@,
            SourcePlan::Cancel => step matches PublishStep::Failed(message) && message@
                == "Extraction cancelled; nothing was written"@,
            SourcePlan::AlreadyInPlace => step matches PublishStep::Failed(message) && message@
                == "Extracted output cannot already be in place"@,
            SourcePlan::Failed(message) => step == PublishStep::Failed(message),
        }
    }

    /// Move the extracted output out of staging to where the user will find
    /// it.
    ///
    /// An occupied destination is answered the way a copy's is: the same
    /// question, the same skip, rename, replace, and merge. A replacement holds
    /// the displaced item aside for undo and puts it back if publishing fails;
    /// a merge copies into the existing folder and keeps what is already there.
    pub fn publish_extracted(self, plan: SourcePlan) -> (step: PublishStep)
        ensures
            self.follows(plan, step),
    {
        let source = self.source;
        match plan {
            SourcePlan::Transfer(target) => PublishStep::Rename(
                PublishRename { source, target, displaced: None },
            ),
            SourcePlan::Replace(target) => PublishStep::Quarantine(
                PublishQuarantine { source, target },
            ),
            SourcePlan::Merge(target) => PublishStep::Merge(PublishMerge { source, target }),
            SourcePlan::Skip => PublishStep::Failed(
                "Extraction cancelled; nothing was written".to_owned(),
            ),
            SourcePlan::Cancel => PublishStep::Failed(
                "Extraction cancelled; nothing was written".to_owned(),
            ),
            SourcePlan::AlreadyInPlace => PublishStep::Failed(
                "Extracted output cannot already be in place".to_owned(),
            ),
            SourcePlan::Failed(message) => PublishStep::Failed(message),
        }
    }
}

impl PublishQuarantine {
    /// Whether `next` is what moving the target aside comes to.
    pub open spec fn passes(
        self,
        result: Result<ReplacedItem, String>,
        next: Result<PublishRename, String>,
    ) -> bool {
        match result {
            Ok(item) => next == Ok::<PublishRename, String>(
                PublishRename {
                    source: self.source,
                    target: self.target,
                    displaced: Some(item),
                },
            ),
            Err(why) => next == Err::<PublishRename, String>(why),
        }
    }

    /// What was moved aside, or why nothing was.
    pub fn quarantined(self, result: Result<ReplacedItem, String>) -> (next: Result<
        PublishRename,
        String,
    >)
        ensures
            self.passes(result, next),
    {
        match result {
            Ok(item) => Ok(
                PublishRename {
                    source: self.source,
                    target: self.target,
                    displaced: Some(item),
                },
            ),
            Err(why) => Err(why),
        }
    }
}

impl PublishMerge {
    /// Whether `result` is what folding the output in comes to.
    pub open spec fn settles(
        self,
        outcome: MergeOutcome,
        result: Result<ArchiveOutcome, String>,
    ) -> bool {
        match outcome.stopped {
            None => {
                &&& result matches Ok(published)
                &&& published.published == self.target
                &&& published.replaced@.len() == 0
                &&& published.merged == Some(
                    MergeAdded { added: outcome.created, undoable: outcome.undoable },
                )
            },
            Some(MergeStop::Cancelled) => result matches Err(message) && message@ == about(
                "Extraction cancelled; "@,
                self.target.text(),
                " kept what had been merged into it so far"@,
            ),
            Some(MergeStop::Failed(_)) => result matches Err(message) && message@ == located(
                "Could not merge the archive into"@,
                self.target.text(),
            ),
        }
    }

    /// What folding the output into the folder did.
    pub fn merged(self, outcome: MergeOutcome) -> (result: Result<ArchiveOutcome, String>)
        ensures
            self.settles(outcome, result),
    {
        match outcome.stopped {
            None => Ok(
                ArchiveOutcome {
                    published: self.target,
                    replaced: Vec::new(),
                    merged: Some(
                        MergeAdded { added: outcome.created, undoable: outcome.undoable },
                    ),
                },
            ),
            Some(MergeStop::Cancelled) => Err(
                message_about(
                    "Extraction cancelled; ",
                    &self.target,
                    " kept what had been merged into it so far",
                ),
            ),
            Some(MergeStop::Failed(_)) => Err(at("Could not merge the archive into", &self.target)),
        }
    }
}

impl PublishRename {
    /// Whether `step` is what renaming the output comes to.
    pub open spec fn settles(self, renamed: bool, step: PublishedStep) -> bool {
        if renamed {
            &&& step matches PublishedStep::Published(outcome)
            &&& outcome.published == self.target
            &&& outcome.replaced@ == match self.displaced {
                Some(item) => seq![item],
                None => Seq::empty(),
            }
            &&& outcome.merged is None
        } else {
            match self.displaced {
                Some(item) => step matches PublishedStep::Restore(restoring, failed)
                    && restoring.left@ == seq![item] && failed.message@ == located(
                    "Could not publish extracted item"@,
                    self.target.text(),
                ),
                None => step matches PublishedStep::Failed(message) && message@ == located(
                    "Could not publish extracted item"@,
                    self.target.text(),
                ),
            }
        }
    }

    /// Whether the output was renamed to its target.
    pub fn renamed(self, renamed: bool) -> (step: PublishedStep)
        ensures
            self.settles(renamed, step),
    {
        let mut replaced: Vec<ReplacedItem> = Vec::new();
        let held = self.displaced.is_some();
        match self.displaced {
            Some(item) => {
                replaced.push(item);
            },
            None => {},
        }
        if renamed {
            return PublishedStep::Published(
                ArchiveOutcome { published: self.target, replaced, merged: None },
            );
        }
        let message = at("Could not publish extracted item", &self.target);
        if held {
            return PublishedStep::Restore(
                restore_replaced_items(replaced),
                PublishFailed { message },
            );
        }
        PublishedStep::Failed(message)
    }
}

impl PublishFailed {
    /// What is reported, once what was displaced is back or is not.
    pub fn restored(self, result: Result<(), String>) -> (message: String)
        ensures
            match result {
                Ok(_) => message == self.message,
                Err(note) => message@ == self.message@ + "; "@ + note@,
            },
    {
        match result {
            Ok(_) => self.message,
            Err(note) => {
                let mut message = self.message;
                message.append("; ");
                message.append(note.as_str());
                message
            },
        }
    }
}

/// An extraction that can be undone: the archive is described first.
#[derive(Debug)]
pub struct ExtractOperation {
    pub archive: PathBuf,
}

/// What will be recorded of an extraction once it is published.
#[derive(Debug)]
pub struct ExtractRecord {
    pub source: Vec<PathSnapshot>,
}

/// What recording an extraction wants.
#[derive(Debug)]
pub enum ExtractRecordStep {
    Committed(CommittedOperation),
    /// Measure what is held aside, and walk what was published.
    Measure(ExtractMeasure),
}

/// An extraction that published a new tree.
#[derive(Debug)]
pub struct ExtractMeasure {
    pub source: Vec<PathSnapshot>,
    pub published: PathBuf,
    pub replaced: Vec<ReplacedItem>,
}

/// Starts extracting an archive in a way that can be undone.
pub fn extract_archive_operation(archive: &PathBuf, cancelled: bool) -> (result: Result<
    ExtractOperation,
    String,
>)
    ensures
        match result {
            Ok(operation) => !cancelled && operation.archive == *archive,
            Err(message) => cancelled && message@ == "Archive operation cancelled"@,
        },
{
    match check_cancelled(cancelled) {
        Ok(_) => Ok(ExtractOperation { archive: archive.clone() }),
        Err(message) => Err(message),
    }
}

impl ExtractOperation {
    /// What walking the archive gave.
    pub fn described(self, walked: Result<Vec<PathSnapshot>, String>) -> (result: Result<
        (Extraction, ExtractRecord),
        String,
    >)
        ensures
            match result {
                Ok((extraction, record)) => {
                    &&& removable_tree(walked) == Some(record.source)
                    &&& self.archive@.parent() == Some(extraction.parent@)
                    &&& extraction.archive == self.archive
                    &&& extraction.current == self.archive
                    &&& !extraction.nested
                },
                Err(message) => match walked {
                    Err(why) => message == why,
                    Ok(snapshots) => if special_refusal(snapshots@) is Some {
                        special_refusal(snapshots@) == Some(message@)
                    } else {
                        self.archive@.parent() is None && message@
                            == "Archive has no containing directory"@
                    },
                },
            },
    {
        let source = match snapshot_removable_tree(walked) {
            Ok(source) => source,
            Err(message) => {
                return Err(message);
            },
        };
        match extract_archive(&self.archive) {
            Ok(extraction) => Ok((extraction, ExtractRecord { source })),
            Err(message) => Err(message),
        }
    }
}

impl ExtractRecord {
    /// Whether `step` is what is recorded of what was published.
    pub open spec fn records(self, outcome: ArchiveOutcome, step: ExtractRecordStep) -> bool {
        match outcome.merged {
            Some(merge) => {
                &&& step matches ExtractRecordStep::Committed(committed)
                &&& committed.path == outcome.published
                &&& committed.changes.removed@.len() == 0
                &&& committed.changes.upserted@ == seq![outcome.published]
                &&& match committed.record {
                    None => !merge.undoable,
                    Some(record) => {
                        &&& merge.undoable
                        &&& record matches OperationRecord::ArchiveExtract {
                            source,
                            output,
                            created,
                            replaced,
                            merged,
                        }
                        &&& source == self.source
                        &&& output == outcome.published
                        &&& created@.len() == 0
                        &&& replaced@.len() == 0
                        &&& merged == merge.added
                    },
                }
            },
            None => step == ExtractRecordStep::Measure(
                ExtractMeasure {
                    source: self.source,
                    published: outcome.published,
                    replaced: outcome.replaced,
                },
            ),
        }
    }

    /// What was published.
    ///
    /// A merge added to a tree that was already there, so its record names
    /// those additions rather than the tree.
    pub fn published(self, outcome: ArchiveOutcome) -> (step: ExtractRecordStep)
        ensures
            self.records(outcome, step),
    {
        let ArchiveOutcome { published, replaced, merged } = outcome;
        match merged {
            Some(merge) => {
                let record = if merge.undoable {
                    Some(
                        OperationRecord::ArchiveExtract {
                            source: self.source,
                            output: published.clone(),
                            created: Vec::new(),
                            replaced: Vec::new(),
                            merged: merge.added,
                        },
                    )
                } else {
                    None
                };
                ExtractRecordStep::Committed(CommittedOperation::published(published, record))
            },
            None => ExtractRecordStep::Measure(
                ExtractMeasure { source: self.source, published, replaced },
            ),
        }
    }
}

/// The sum of some sizes.
pub open spec fn sum_of(sizes: Seq<u64>) -> nat
    decreases sizes.len(),
{
    if sizes.len() == 0 {
        0
    } else {
        sum_of(sizes.drop_last()) + sizes.last() as nat
    }
}

/// Whether items held aside are within what one operation may hold.
fn within_budget(sizes: &Vec<u64>) -> (within: bool)
    ensures
        within == (sum_of(sizes@) <= REPLACEMENT_UNDO_BYTE_LIMIT),
{
    let mut total: u64 = 0;
    let mut i: usize = 0;
    assert(sizes@.take(0) =~= Seq::empty());
    while i < sizes.len()
        invariant
            i <= sizes@.len(),
            if sum_of(sizes@.take(i as int)) <= u64::MAX {
                total == sum_of(sizes@.take(i as int))
            } else {
                total == u64::MAX
            },
        decreases sizes.len() - i,
    {
        assert(sizes@.take(i + 1).drop_last() =~= sizes@.take(i as int));
        total = total.saturating_add(sizes[i]);
        i += 1;
    }
    assert(sizes@.take(sizes@.len() as int) =~= sizes@);
    total <= REPLACEMENT_UNDO_BYTE_LIMIT
}

impl ExtractMeasure {
    /// Whether `committed` is what is recorded, and `released` what is to be
    /// erased, once what is held aside was measured.
    pub open spec fn settles(
        self,
        held: Seq<u64>,
        walked: Result<Vec<PathSnapshot>, String>,
        committed: CommittedOperation,
        released: Vec<ReplacedItem>,
    ) -> bool {
                let within = sum_of(held) <= REPLACEMENT_UNDO_BYTE_LIMIT;
        &&& committed.path == self.published
        &&& committed.changes.removed@.len() == 0
        &&& committed.changes.upserted@ == seq![self.published]
        &&& released@ == if committed.record is Some {
            Seq::empty()
        } else {
            self.replaced@
        }
        &&& match committed.record {
            None => !within || removable_tree(walked) is None,
            Some(record) => {
                &&& within
                &&& record matches OperationRecord::ArchiveExtract {
                    source,
                    output,
                    created,
                    replaced,
                    merged,
                }
                &&& source == self.source
                &&& output == self.published
                &&& removable_tree(walked) == Some(created)
                &&& replaced == self.replaced
                &&& merged@.len() == 0
            },
        }
    }

    /// How many bytes each displaced item holds, and what walking the
    /// published tree gave. The items that come back are to be erased.
    ///
    /// Holding a displaced item is what makes replacing it undoable. Past the
    /// budget, or where what was published cannot be described, the replacement
    /// stands and simply cannot be taken back, the same rule a transfer applies.
    /// No record can reach the item then, so it is not kept.
    pub fn measured(self, held: &Vec<u64>, walked: Result<Vec<PathSnapshot>, String>) -> (result: (
        CommittedOperation,
        Vec<ReplacedItem>,
    ))
        ensures
            self.settles(held@, walked, result.0, result.1),
    {
        let ExtractMeasure { source, published, replaced } = self;
        if !within_budget(held) {
            return (CommittedOperation::published(published, None), replaced);
        }
        match snapshot_removable_tree(walked) {
            Ok(created) => {
                let record = OperationRecord::ArchiveExtract {
                    source,
                    output: published.clone(),
                    created,
                    replaced,
                    merged: Vec::new(),
                };
                (CommittedOperation::published(published, Some(record)), Vec::new())
            },
            Err(_) => (CommittedOperation::published(published, None), replaced),
        }
    }
}

} // verus!
