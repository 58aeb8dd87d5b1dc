//! Copying one tree into a private staging directory, entry by entry.
//!
//! The source is read through descriptors, never re-resolved by path. The
//! walker holds one directory per level and opens every entry relative to its
//! parent without following links, so a component that another writer swaps
//! for a symlink after the walk listed it is not followed, and a FIFO or link
//! put in a file's place between inspection and open is refused rather than
//! blocked on or read through.

use std::collections::HashMap;
use vstd::prelude::*;

use crate::fsops::copy::{begins_content, copy_file_cancellable, ContentStep, WholeContent};
use crate::fsops::dropped::Dropped;
use crate::fsops::identity::{about, message_about, Metadata, ObjectKey, SnapshotKind};
use crate::fsops::local::{at, located, sorted_children, Name};
use crate::fsops::snapshots::{collected, recollected, SnapshotCollector};
use crate::fsops::{counted, TransferProgress, TransferProgressSnapshot};
use crate::order::sorted;
use crate::path::{PathBuf, PathModel};

verus! {

broadcast use vstd::std_specs::hash::group_hash_axioms;

/// A directory the caller holds open, by the number it was given.
pub type Handle = usize;

/// One unit of copy work. Directories are visited twice so their metadata is
/// applied after their children exist, which an explicit stack expresses
/// directly.
#[derive(Debug)]
pub enum CopyStep {
    Visit {
        /// The held directory `source` is named in, or `None` for the root,
        /// whose whole path the user chose.
        parent: Option<Handle>,
        source: PathBuf,
        destination: PathBuf,
    },
    FinishDirectory {
        directory: Handle,
        source: PathBuf,
        destination: PathBuf,
        metadata: Metadata,
        /// Where the directory was recorded, if it was.
        place: Option<usize>,
    },
}

/// One number for device and inode together.
pub open spec fn link_key(key: ObjectKey) -> u128 {
    (key.device * 0x1_0000_0000_0000_0000 + key.inode) as u128
}

/// Different objects have different numbers.
pub proof fn lemma_link_key_is_unique(left: ObjectKey, right: ObjectKey)
    requires
        link_key(left) == link_key(right),
    ensures
        left == right,
{
}

fn link_key_of(metadata: &Metadata) -> (key: u128)
    ensures
        key == link_key(metadata.key()),
{
    (metadata.device as u128) * 0x1_0000_0000_0000_0000 + (metadata.inode as u128)
}

/// What one copy carries across its whole tree.
#[verifier::ext_equal]
pub struct CopierModel {
    /// What is left to do, the next one last.
    pub steps: Seq<CopyStep>,
    /// Hardlinked sources already copied, so their siblings can link to the
    /// copy instead of duplicating its bytes.
    pub hardlinks: Map<u128, PathBuf>,
    pub sources: SnapshotCollector,
    pub created: SnapshotCollector,
    /// Every directory created so far, synced together before publication.
    pub staged_directories: Seq<PathBuf>,
    /// What the destination could not keep so far.
    pub dropped: Dropped,
}

impl CopierModel {
    /// Whether every place given out is one that was recorded.
    pub open spec fn places_recorded(self) -> bool {
        forall|i: int|
            0 <= i < self.steps.len() ==> (#[trigger] self.steps[i] matches
                CopyStep::FinishDirectory { place: Some(place), .. } ==> place
                < self.created.snapshots@.len())
    }

    /// The same copy, without what the destination could not keep.
    pub open spec fn having_dropped(self, lost: Dropped) -> CopierModel {
        CopierModel { dropped: self.dropped.with(lost), ..self }
    }

    /// Whether this is what the copy wants next.
    pub open spec fn wants(self, cancelled: bool, step: TreeStep) -> bool {
        match step {
            TreeStep::Staged(staged) => {
                &&& self.steps.len() == 0
                &&& staged.sources == self.sources
                &&& staged.created == self.created
                &&& staged.directories@ == self.staged_directories
                &&& staged.dropped == self.dropped
                &&& staged.sources.within_budget()
                &&& staged.created.within_budget()
            },
            TreeStep::FinishDirectory(finishing) => {
                &&& self.steps.len() > 0
                &&& self.steps.last() is FinishDirectory
                &&& finishing.what() == self.steps.last()
                &&& finishing.state() == (CopierModel {
                    steps: self.steps.drop_last(),
                    ..self
                })
            },
            TreeStep::Visit(visiting) => {
                &&& self.steps.len() > 0
                &&& !cancelled
                &&& self.steps.last() == (CopyStep::Visit {
                    parent: visiting.parent,
                    source: visiting.source,
                    destination: visiting.destination,
                })
                &&& visiting.parent is Some ==> visiting.source@.file_name() is Some
                &&& visiting.copier@ == (CopierModel {
                    steps: self.steps.drop_last(),
                    ..self
                })
            },
            TreeStep::Failed(message) => {
                &&& self.steps.len() > 0
                &&& self.steps.last() matches CopyStep::Visit { parent, source, .. }
                &&& if cancelled {
                    message@ == "Operation cancelled"@
                } else {
                    parent is Some && source@.file_name() is None && message@
                        == "Source entry has no file name"@
                }
            },
        }
    }

    /// Whether no more is recorded than is allowed.
    pub open spec fn within_budget(self) -> bool {
        self.sources.within_budget() && self.created.within_budget()
    }
}

/// The state one copy carries across its whole tree.
#[derive(Debug)]
pub struct Copier {
    steps: Vec<CopyStep>,
    hardlinks: HashMap<u128, PathBuf>,
    sources: SnapshotCollector,
    created: SnapshotCollector,
    staged_directories: Vec<PathBuf>,
    dropped: Dropped,
}

impl View for Copier {
    type V = CopierModel;

    closed spec fn view(&self) -> CopierModel {
        CopierModel {
            steps: self.steps@,
            hardlinks: self.hardlinks@,
            sources: self.sources,
            created: self.created,
            staged_directories: self.staged_directories@,
            dropped: self.dropped,
        }
    }
}

/// What copying a tree wants next.
#[derive(Debug)]
pub enum TreeStep {
    /// Look at a source entry.
    Visit(Visiting),
    /// Give a finished directory the attributes of its source.
    FinishDirectory(Finishing),
    /// Everything is staged.
    Staged(StagedCopy),
    Failed(String),
}

/// A staged tree, and what was recorded of it.
#[derive(Debug)]
pub struct StagedCopy {
    pub sources: SnapshotCollector,
    pub created: SnapshotCollector,
    /// The directories to sync before the tree is published.
    pub directories: Vec<PathBuf>,
    /// What the destination could not keep.
    pub dropped: Dropped,
}

/// A source entry to look at.
#[derive(Debug)]
pub struct Visiting {
    pub copier: Copier,
    pub parent: Option<Handle>,
    pub source: PathBuf,
    pub destination: PathBuf,
}

/// A directory to finish.
#[derive(Debug)]
pub struct Finishing {
    copier: Copier,
    directory: Handle,
    source: PathBuf,
    destination: PathBuf,
    metadata: Metadata,
    place: Option<usize>,
}

impl Finishing {
    pub closed spec fn state(self) -> CopierModel {
        self.copier@
    }

    pub closed spec fn what(self) -> CopyStep {
        CopyStep::FinishDirectory {
            directory: self.directory,
            source: self.source,
            destination: self.destination,
            metadata: self.metadata,
            place: self.place,
        }
    }

    #[verifier::type_invariant]
    spec fn well_formed(self) -> bool {
        self.place matches Some(place) ==> place < self.copier@.created.snapshots@.len()
    }

    /// The directory, its source and copy, and what its source was.
    pub fn directory(&self) -> (directory: Handle)
        ensures
            self.what() matches CopyStep::FinishDirectory { directory: handle, .. } && handle
                == directory,
    {
        self.directory
    }

    pub fn source(&self) -> (path: &PathBuf)
        ensures
            self.what() matches CopyStep::FinishDirectory { source, .. } && source == *path,
    {
        &self.source
    }

    pub fn destination(&self) -> (path: &PathBuf)
        ensures
            self.what() matches CopyStep::FinishDirectory { destination, .. } && destination
                == *path,
    {
        &self.destination
    }

    pub fn metadata(&self) -> (metadata: Metadata)
        ensures
            self.what() matches CopyStep::FinishDirectory { metadata: found, .. } && found
                == metadata,
    {
        self.metadata
    }
}

/// What a source entry wants once it is known what it is.
#[derive(Debug)]
pub enum VisitStep {
    /// Open the source directory.
    OpenDirectory(OpeningDirectory),
    /// Open the source file.
    OpenFile(OpeningFile),
    /// Recreate a link.
    CopyLink(Linking),
    Failed(String),
}

/// A source directory to open.
#[derive(Debug)]
pub struct OpeningDirectory {
    pub copier: Copier,
    pub source: PathBuf,
    pub destination: PathBuf,
    pub metadata: Metadata,
}

/// A directory to create and a source directory to list.
#[derive(Debug)]
pub struct CreatingDirectory {
    pub copier: Copier,
    pub source: PathBuf,
    pub destination: PathBuf,
    pub metadata: Metadata,
}

/// A source file to open.
#[derive(Debug)]
pub struct OpeningFile {
    pub copier: Copier,
    pub source: PathBuf,
    pub destination: PathBuf,
    pub metadata: Metadata,
}

/// What an opened file wants.
#[derive(Debug)]
pub enum FileStep {
    /// Link to the copy of another name of the same file.
    Link(LinkingFile),
    /// Copy the content.
    Content(CopyingContent),
    Failed(String),
}

/// A file to link to a copy that exists.
#[derive(Debug)]
pub struct LinkingFile {
    pub copier: Copier,
    pub source: PathBuf,
    pub destination: PathBuf,
    pub metadata: Metadata,
    pub existing: PathBuf,
}

/// A file whose content is to be copied.
#[derive(Debug)]
pub struct CopyingContent {
    pub copier: Copier,
    pub source: PathBuf,
    pub destination: PathBuf,
    pub metadata: Metadata,
}

/// A copied file that is to get the attributes of its source.
#[derive(Debug)]
pub struct PreservingFile {
    pub copier: Copier,
    pub source: PathBuf,
    pub destination: PathBuf,
    pub metadata: Metadata,
}

/// A link to recreate.
#[derive(Debug)]
pub struct Linking {
    pub copier: Copier,
    pub source: PathBuf,
    pub destination: PathBuf,
}

/// What opening an entry gave.
#[derive(Clone, Copy, Debug)]
pub enum Opened {
    /// It could not be opened.
    Refused,
    /// It was opened, but not identified.
    Uninspected,
    /// It was opened, and is this.
    As(Metadata),
}

/// What creating a directory gave.
#[derive(Debug)]
pub enum MadeDirectory {
    NotCreated,
    /// It was created, but could not be looked at.
    Uninspected,
    /// It was created, but its source could not be listed.
    Unlisted,
    Made { created: Metadata, directory: Handle, children: Vec<Name> },
}

/// What recreating a link gave.
#[derive(Clone, Copy, Debug)]
pub enum MadeLink {
    /// The target of the source could not be read.
    Unread,
    NotCreated,
    /// The filesystem has no links.
    Unsupported,
    /// It was created, but could not be looked at.
    Uninspected,
    Made(Metadata),
}

impl Copier {
    #[verifier::type_invariant]
    pub open spec fn well_formed(self) -> bool {
        self@.places_recorded() && self@.within_budget()
    }

    /// Copies the tree at `source` to `staged`, recording at most
    /// `snapshot_limit` entries of each.
    pub fn new(source: &PathBuf, staged: &PathBuf, snapshot_limit: usize) -> (copier: Copier)
        ensures
            copier@.steps == seq![
                CopyStep::Visit { parent: None, source: *source, destination: *staged },
            ],
            copier@.hardlinks == Map::<u128, PathBuf>::empty(),
            copier@.sources.snapshots@.len() == 0,
            copier@.sources.limit == snapshot_limit,
            !copier@.sources.overflowed,
            copier@.created.snapshots@.len() == 0,
            copier@.created.limit == snapshot_limit,
            !copier@.created.overflowed,
            copier@.staged_directories.len() == 0,
            copier@.dropped.is_nothing(),
    {
        let mut steps: Vec<CopyStep> = Vec::new();
        steps.push(
            CopyStep::Visit { parent: None, source: source.clone(), destination: staged.clone() },
        );
        Copier {
            steps,
            hardlinks: HashMap::new(),
            sources: SnapshotCollector::new(snapshot_limit),
            created: SnapshotCollector::new(snapshot_limit),
            staged_directories: Vec::new(),
            dropped: Dropped::nothing(),
        }
    }

    /// What the copy wants next. `cancelled` says whether it was abandoned.
    pub fn copy_tree(self, cancelled: bool) -> (step: TreeStep)
        ensures
            self@.wants(cancelled, step),
    {
        proof {
            use_type_invariant(&self);
        }
        let ghost before = self@;
        let Copier { steps, hardlinks, sources, created, staged_directories, dropped } = self;
        let mut steps = steps;
        match steps.pop() {
            None => TreeStep::Staged(
                StagedCopy { sources, created, directories: staged_directories, dropped },
            ),
            Some(step) => {
                proof {
                    assert(steps@ =~= before.steps.drop_last());
                    assert forall|i: int| 0 <= i < steps@.len() implies (#[trigger] steps@[i] matches
                        CopyStep::FinishDirectory { place: Some(place), .. } ==> place
                        < created.snapshots@.len()) by {
                        assert(steps@[i] == before.steps[i]);
                    }
                }
                let copier = Copier { steps, hardlinks, sources, created, staged_directories, dropped };
                match step {
                    CopyStep::Visit { parent, source, destination } => {
                        if cancelled {
                            return TreeStep::Failed("Operation cancelled".to_owned());
                        }
                        if parent.is_some() && source.file_name().is_none() {
                            return TreeStep::Failed("Source entry has no file name".to_owned());
                        }
                        TreeStep::Visit(Visiting { copier, parent, source, destination })
                    },
                    CopyStep::FinishDirectory {
                        directory,
                        source,
                        destination,
                        metadata,
                        place,
                    } => TreeStep::FinishDirectory(
                        Finishing { copier, directory, source, destination, metadata, place },
                    ),
                }
            },
        }
    }

    /// Goes on without what the destination could not keep.
    fn without(self, lost: Dropped) -> (copier: Copier)
        ensures
            copier@ == self@.having_dropped(lost),
    {
        proof {
            use_type_invariant(&self);
        }
        let Copier { steps, hardlinks, sources, created, staged_directories, dropped } = self;
        let dropped = dropped.also(lost);
        Copier { steps, hardlinks, sources, created, staged_directories, dropped }
    }

    /// Records what was created and goes on.
    fn record(self, destination: &PathBuf, created: &Metadata) -> (copier: Copier)
        ensures
            grown(self@, copier@, *destination, *created),
    {
        proof {
            use_type_invariant(&self);
        }
        let ghost before = self@;
        let Copier { steps, hardlinks, sources, created: collector, staged_directories, dropped } = self;
        let mut collector = collector;
        let _ = collector.push(destination, created);
        Copier { steps, hardlinks, sources, created: collector, staged_directories, dropped }
    }
}

/// Whether a copy has recorded one more thing it created, and done nothing
/// else.
pub open spec fn grown(
    before: CopierModel,
    after: CopierModel,
    destination: PathBuf,
    created: Metadata,
) -> bool {
    &&& after == (CopierModel { created: after.created, ..before })
    &&& exists|place: Option<usize>|
        #[trigger] collected(before.created, after.created, place, destination, created)
}

/// Whether a copy has recorded the source entry it looks at, and done nothing
/// else.
pub open spec fn looked_at(
    before: CopierModel,
    after: CopierModel,
    source: PathBuf,
    metadata: Metadata,
) -> bool {
    &&& after == (CopierModel { sources: after.sources, ..before })
    &&& exists|place: Option<usize>|
        #[trigger] collected(before.sources, after.sources, place, source, metadata)
}

impl Visiting {
    /// What follows from what the source entry is.
    pub open spec fn follows(self, found: Option<Metadata>, step: VisitStep) -> bool {
        match found {
            None => step matches VisitStep::Failed(message) && message@ == located(
                "Could not inspect"@,
                self.source.text(),
            ),
            Some(metadata) => match metadata.kind {
                SnapshotKind::Directory => step matches VisitStep::OpenDirectory(opening)
                    && looked_at(
                    self.copier@,
                    opening.copier@,
                    self.source,
                    metadata,
                ) && opening.source == self.source && opening.destination
                    == self.destination && opening.metadata == metadata,
                SnapshotKind::File => step matches VisitStep::OpenFile(opening)
                    && looked_at(
                    self.copier@,
                    opening.copier@,
                    self.source,
                    metadata,
                ) && opening.source == self.source && opening.destination
                    == self.destination && opening.metadata == metadata,
                SnapshotKind::Symlink => step matches VisitStep::CopyLink(linking)
                    && looked_at(
                    self.copier@,
                    linking.copier@,
                    self.source,
                    metadata,
                ) && linking.source == self.source && linking.destination
                    == self.destination,
                _ => step matches VisitStep::Failed(message) && message@ == about(
                    "Special files are not supported yet: "@,
                    self.source.text(),
                    ""@,
                ),
            },
        }
    }

    /// What the source entry is, if it could be looked at.
    pub fn visit(self, found: Option<Metadata>, progress: &mut TransferProgress) -> (step:
        VisitStep)
        ensures
            self.follows(found, step),
            final(progress)@ == match found {
                None => old(progress)@,
                Some(_) => TransferProgressSnapshot {
                    current_path: Some(self.source),
                    ..old(progress)@
                },
            },
    {
        let metadata = match found {
            Some(metadata) => metadata,
            None => {
                return VisitStep::Failed(at("Could not inspect", &self.source));
            },
        };
        let Visiting { copier, source, destination, .. } = self;
        proof {
            use_type_invariant(&copier);
        }
        let Copier { steps, hardlinks, sources, created, staged_directories, dropped } = copier;
        let mut sources = sources;
        let _ = sources.push(&source, &metadata);
        let copier = Copier { steps, hardlinks, sources, created, staged_directories, dropped };
        progress.set_current_path(Some(source.clone()));
        match metadata.kind {
            SnapshotKind::Directory => VisitStep::OpenDirectory(
                OpeningDirectory { copier, source, destination, metadata },
            ),
            SnapshotKind::File => VisitStep::OpenFile(
                OpeningFile { copier, source, destination, metadata },
            ),
            SnapshotKind::Symlink => VisitStep::CopyLink(Linking { copier, source, destination }),
            _ => VisitStep::Failed(
                message_about("Special files are not supported yet: ", &source, ""),
            ),
        }
    }
}

/// Why what was opened cannot be copied, if it cannot.
pub open spec fn opened_refusal(
    expected: Metadata,
    opened: Opened,
    source: Seq<u8>,
) -> Option<Seq<char>> {
    match opened {
        Opened::Refused => Some(located("Could not open"@, source)),
        Opened::Uninspected => Some(located("Could not inspect"@, source)),
        Opened::As(found) => if found.key() == expected.key() && found.kind == expected.kind {
            None
        } else {
            Some(about(""@, source, " was replaced while it was being copied"@))
        },
    }
}

/// Refuse what was opened unless it is the object the walker inspected.
///
/// Opening without following links already rejects a link in the final
/// position; this catches the rest — a name unlinked and recreated as another
/// file, or a directory swapped for a different one — by comparing device,
/// inode, and type.
pub fn ensure_same_object(expected: &Metadata, opened: Opened, source: &PathBuf) -> (verdict:
    Result<(), String>)
    ensures
        match verdict {
            Ok(_) => opened_refusal(*expected, opened, source.text()) is None,
            Err(message) => opened_refusal(*expected, opened, source.text()) == Some(message@),
        },
{
    match opened {
        Opened::Refused => Err(at("Could not open", source)),
        Opened::Uninspected => Err(at("Could not inspect", source)),
        Opened::As(found) => if ObjectKey::of(&found) == ObjectKey::of(expected) && found.kind
            == expected.kind {
            Ok(())
        } else {
            Err(message_about("", source, " was replaced while it was being copied"))
        },
    }
}

impl OpeningDirectory {
    /// What follows from opening the source directory.
    pub open spec fn follows(
        self,
        opened: Opened,
        result: Result<CreatingDirectory, String>,
    ) -> bool {
        match result {
            Ok(creating) => opened_refusal(self.metadata, opened, self.source.text()) is None
                && creating == (CreatingDirectory {
                copier: self.copier,
                source: self.source,
                destination: self.destination,
                metadata: self.metadata,
            }),
            Err(message) => opened_refusal(self.metadata, opened, self.source.text()) == Some(
                message@,
            ),
        }
    }

    /// What opening the source directory gave.
    pub fn opened(self, opened: Opened) -> (result: Result<CreatingDirectory, String>)
        ensures
            self.follows(opened, result),
    {
        match ensure_same_object(&self.metadata, opened, &self.source) {
            Ok(_) => {
                let OpeningDirectory { copier, source, destination, metadata } = self;
                Ok(CreatingDirectory { copier, source, destination, metadata })
            },
            Err(message) => Err(message),
        }
    }
}

/// Whether a step visits one child of a directory.
pub open spec fn visits_child(
    step: CopyStep,
    directory: Handle,
    source: PathModel,
    destination: PathModel,
    child: Seq<u8>,
) -> bool {
    step matches CopyStep::Visit { parent, source: from, destination: to } && parent == Some(
        directory,
    ) && from@ == source.join(child) && to@ == destination.join(child)
}

/// Whether a copy has entered a directory: the directory is recorded and to be
/// synced, its children come next in name order, and it is finished after
/// them.
pub open spec fn entered(
    before: CopierModel,
    after: CopierModel,
    creating: CreatingDirectory,
    created: Metadata,
    directory: Handle,
    children: Seq<Name>,
) -> bool {
    let below = before.steps.len();
    let ordered = sorted(children);
    &&& after.hardlinks == before.hardlinks
    &&& after.sources == before.sources
    &&& after.dropped == before.dropped
    &&& after.staged_directories == before.staged_directories.push(creating.destination)
    &&& after.steps.len() == below + 1 + ordered.len()
    &&& after.steps.take(below as int) == before.steps
    &&& after.steps[below as int] matches CopyStep::FinishDirectory {
        directory: handle,
        source,
        destination,
        metadata,
        place,
    }
    &&& handle == directory
    &&& source == creating.source
    &&& destination == creating.destination
    &&& metadata == creating.metadata
    &&& collected(before.created, after.created, place, creating.destination, created)
    &&& forall|i: int|
        0 <= i < ordered.len() ==> visits_child(
            #[trigger] after.steps[below + 1 + i],
            directory,
            creating.source@,
            creating.destination@,
            ordered[ordered.len() - 1 - i]@,
        )
}

impl CreatingDirectory {
    /// What follows from creating the directory and listing its source.
    pub open spec fn follows(
        self,
        made: MadeDirectory,
        result: Result<Copier, String>,
    ) -> bool {
        match made {
            MadeDirectory::NotCreated => result matches Err(message) && message@ == located(
                "Could not create"@,
                self.destination.text(),
            ),
            MadeDirectory::Uninspected => result matches Err(message) && message@ == located(
                "Could not inspect"@,
                self.destination.text(),
            ),
            MadeDirectory::Unlisted => result matches Err(message) && message@ == located(
                "Could not read"@,
                self.source.text(),
            ),
            MadeDirectory::Made { created, directory, children } => result matches Ok(copier)
                && entered(self.copier@, copier@, self, created, directory, children@),
        }
    }

    /// What creating the directory and listing its source gave.
    pub fn created(self, made: MadeDirectory) -> (result: Result<Copier, String>)
        ensures
            self.follows(made, result),
    {
        let (made_metadata, directory, children) = match made {
            MadeDirectory::NotCreated => {
                return Err(at("Could not create", &self.destination));
            },
            MadeDirectory::Uninspected => {
                return Err(at("Could not inspect", &self.destination));
            },
            MadeDirectory::Unlisted => {
                return Err(at("Could not read", &self.source));
            },
            MadeDirectory::Made { created, directory, children } => (created, directory, children),
        };
        let children = sorted_children(children);
        let ghost this = self;
        let CreatingDirectory { copier, source, destination, metadata } = self;
        proof {
            use_type_invariant(&copier);
        }
        let ghost before = copier@;
        let Copier { steps, hardlinks, sources, created, staged_directories, dropped } = copier;
        let mut created = created;
        let place = created.push(&destination, &made_metadata);
        let mut staged_directories = staged_directories;
        staged_directories.push(destination.clone());
        let mut steps = steps;
        steps.push(
            CopyStep::FinishDirectory {
                directory,
                source: source.clone(),
                destination: destination.clone(),
                metadata,
                place,
            },
        );
        let ghost below = before.steps.len() as int;
        // Reversed so children pop in enumeration order.
        let mut left: usize = children.len();
        assert(steps@.take(below) =~= before.steps);
        while left > 0
            invariant
                left <= children.len(),
                below == before.steps.len(),
                steps@.len() == below + 1 + (children.len() - left),
                steps@.take(below) == before.steps,
                steps@[below] == (CopyStep::FinishDirectory {
                    directory,
                    source,
                    destination,
                    metadata,
                    place,
                }),
                forall|i: int|
                    0 <= i < children.len() - left ==> visits_child(
                        #[trigger] steps@[below + 1 + i],
                        directory,
                        source@,
                        destination@,
                        children@[children@.len() - 1 - i]@,
                    ),
            decreases left,
        {
            left -= 1;
            let ghost steps_before = steps@;
            let name = children[left].as_bytes();
            let child_destination = destination.join(name);
            let child_source = source.join(name);
            steps.push(
                CopyStep::Visit {
                    parent: Some(directory),
                    source: child_source,
                    destination: child_destination,
                },
            );
            proof {
                assert(steps@.take(below) =~= steps_before.take(below));
                assert forall|i: int| 0 <= i < children.len() - left implies visits_child(
                    #[trigger] steps@[below + 1 + i],
                    directory,
                    source@,
                    destination@,
                    children@[children@.len() - 1 - i]@,
                ) by {
                    if i < children.len() - left - 1 {
                        assert(steps@[below + 1 + i] == steps_before[below + 1 + i]);
                    }
                }
            }
        }
        proof {
            assert forall|i: int| 0 <= i < steps@.len() implies (#[trigger] steps@[i] matches
                CopyStep::FinishDirectory { place: Some(place), .. } ==> place
                < created.snapshots@.len()) by {
                if i < below {
                    assert(steps@[i] == steps@.take(below)[i]);
                    assert(steps@[i] == before.steps[i]);
                } else if i > below {
                    assert(visits_child(
                        steps@[below + 1 + (i - below - 1)],
                        directory,
                        source@,
                        destination@,
                        children@[children@.len() - 1 - (i - below - 1)]@,
                    ));
                }
            }
        }
        Ok(Copier { steps, hardlinks, sources, created, staged_directories, dropped })
    }
}

impl OpeningFile {
    /// What follows from opening the source file.
    pub open spec fn follows(
        self,
        opened: Opened,
        step: FileStep,
    ) -> bool {
        match opened_refusal(self.metadata, opened, self.source.text()) {
            Some(refusal) => step matches FileStep::Failed(message) && message@ == refusal,
            None => if self.metadata.links > 1 && self.copier@.hardlinks.contains_key(
                link_key(self.metadata.key()),
            ) {
                step == FileStep::Link(
                    LinkingFile {
                        copier: self.copier,
                        source: self.source,
                        destination: self.destination,
                        metadata: self.metadata,
                        existing: self.copier@.hardlinks[link_key(self.metadata.key())],
                    },
                )
            } else {
                step == FileStep::Content(
                    CopyingContent {
                        copier: self.copier,
                        source: self.source,
                        destination: self.destination,
                        metadata: self.metadata,
                    },
                )
            },
        }
    }

    /// What opening the source file gave.
    pub fn copy_regular_file(self, opened: Opened) -> (step: FileStep)
        ensures
            self.follows(opened, step),
    {
        match ensure_same_object(&self.metadata, opened, &self.source) {
            Ok(_) => {},
            Err(message) => {
                return FileStep::Failed(message);
            },
        }
        let OpeningFile { copier, source, destination, metadata } = self;
        if metadata.links > 1 {
            let existing = match copier.hardlinks.get(&link_key_of(&metadata)) {
                Some(existing) => Some(existing.clone()),
                None => None,
            };
            match existing {
                Some(existing) => {
                    return FileStep::Link(
                        LinkingFile { copier, source, destination, metadata, existing },
                    );
                },
                None => {},
            }
        }
        FileStep::Content(CopyingContent { copier, source, destination, metadata })
    }
}

impl LinkingFile {
    /// What follows from making the link.
    pub open spec fn follows(
        self,
        made: bool,
        result: Result<PreservingFile, String>,
    ) -> bool {
        match result {
            Ok(preserving) => made && preserving == (PreservingFile {
                copier: self.copier,
                source: self.source,
                destination: self.destination,
                metadata: self.metadata,
            }),
            Err(message) => !made && message@ == about(
                "Could not preserve hardlink "@,
                self.source.text(),
                about(" at "@, self.destination.text(), ""@),
            ),
        }
    }

    /// Whether the link was made.
    pub fn linked(self, made: bool, progress: &mut TransferProgress) -> (result: Result<
        PreservingFile,
        String,
    >)
        ensures
            self.follows(made, result),
            final(progress)@ == if made {
                TransferProgressSnapshot {
                    completed_bytes: counted(old(progress)@.completed_bytes, self.metadata.len),
                    ..old(progress)@
                }
            } else {
                old(progress)@
            },
    {
        let LinkingFile { copier, source, destination, metadata, .. } = self;
        if made {
            progress.complete_bytes(metadata.len);
            Ok(PreservingFile { copier, source, destination, metadata })
        } else {
            let place = message_about(" at ", &destination, "");
            Err(message_about("Could not preserve hardlink ", &source, place.as_str()))
        }
    }
}

impl CopyingContent {
    /// Begins to copy the content.
    pub fn content(&self) -> (step: ContentStep)
        ensures
            begins_content(self.source, self.destination, step),
    {
        copy_file_cancellable(&self.source, &self.destination)
    }

    /// What follows from copying the content.
    pub open spec fn follows(
        self,
        result: Result<WholeContent, String>,
        next: Result<PreservingFile, String>,
    ) -> bool {
        match next {
            Ok(preserving) => result is Ok && preserving.source == self.source
                && preserving.destination == self.destination && preserving.metadata
                == self.metadata && preserving.copier@ == (if self.metadata.links > 1 {
                CopierModel {
                    hardlinks: self.copier@.hardlinks.insert(
                        link_key(self.metadata.key()),
                        self.destination,
                    ),
                    ..self.copier@
                }
            } else {
                self.copier@
            }),
            Err(message) => result == Err::<WholeContent, String>(message),
        }
    }

    /// The content that was copied and is durable, or why there is none. The
    /// attributes of the source come after that.
    pub fn copied(self, result: Result<WholeContent, String>) -> (next: Result<
        PreservingFile,
        String,
    >)
        ensures
            self.follows(result, next),
    {
        match result {
            Ok(_) => {},
            Err(message) => {
                return Err(message);
            },
        }
        let CopyingContent { copier, source, destination, metadata } = self;
        if metadata.links > 1 {
            proof {
                use_type_invariant(&copier);
            }
            let Copier { steps, hardlinks, sources, created, staged_directories, dropped } = copier;
            let mut hardlinks = hardlinks;
            hardlinks.insert(link_key_of(&metadata), destination.clone());
            let copier = Copier { steps, hardlinks, sources, created, staged_directories, dropped };
            Ok(PreservingFile { copier, source, destination, metadata })
        } else {
            Ok(PreservingFile { copier, source, destination, metadata })
        }
    }
}

impl PreservingFile {
    /// What follows from giving the copy its attributes.
    pub open spec fn follows(
        self,
        result: Result<Dropped, String>,
        created: Option<Metadata>,
        next: Result<Copier, String>,
    ) -> bool {
        match next {
            Ok(copier) => (result matches Ok(lost) && created matches Some(created) && grown(
                self.copier@.having_dropped(lost),
                copier@,
                self.destination,
                created,
            )),
            Err(message) => match result {
                Err(why) => message == why,
                Ok(_) => created is None && message@ == located(
                    "Could not inspect"@,
                    self.destination.text(),
                ),
            },
        }
    }

    /// What of the attributes of its source the copy could not keep, or why it
    /// could not be given them, and what the copy is.
    pub fn preserved(
        self,
        result: Result<Dropped, String>,
        created: Option<Metadata>,
        progress: &mut TransferProgress,
    ) -> (next: Result<Copier, String>)
        ensures
            self.follows(result, created, next),
            final(progress)@ == if next is Ok {
                one_more(old(progress)@)
            } else {
                old(progress)@
            },
    {
        let lost = match result {
            Ok(lost) => lost,
            Err(message) => {
                return Err(message);
            },
        };
        let PreservingFile { copier, destination, .. } = self;
        match created {
            None => Err(at("Could not inspect", &destination)),
            Some(created) => {
                progress.complete_item();
                Ok(copier.without(lost).record(&destination, &created))
            },
        }
    }
}

/// Progress after one more item.
pub open spec fn one_more(before: TransferProgressSnapshot) -> TransferProgressSnapshot {
    TransferProgressSnapshot { completed_items: counted(before.completed_items, 1), ..before }
}

impl Linking {
    /// What follows from recreating the link.
    pub open spec fn follows(
        self,
        made: MadeLink,
        next: Result<Copier, String>,
    ) -> bool {
        match next {
            Ok(copier) => match made {
                MadeLink::Made(created) => grown(
                    self.copier@,
                    copier@,
                    self.destination,
                    created,
                ),
                MadeLink::Unsupported => copier@ == self.copier@.having_dropped(
                    Dropped { permissions: false, attributes: false, links: true },
                ),
                _ => false,
            },
            Err(message) => match made {
                MadeLink::Unread => message@ == located("Could not read link"@, self.source.text()),
                MadeLink::NotCreated => message@ == located(
                    "Could not copy link"@,
                    self.source.text(),
                ),
                MadeLink::Uninspected => message@ == located(
                    "Could not inspect"@,
                    self.destination.text(),
                ),
                MadeLink::Unsupported | MadeLink::Made(_) => false,
            },
        }
    }

    /// What recreating the link gave. Where there are no links, the copy goes
    /// on without this one.
    pub fn linked(self, made: MadeLink, progress: &mut TransferProgress) -> (next: Result<
        Copier,
        String,
    >)
        ensures
            self.follows(made, next),
            final(progress)@ == if next is Ok {
                one_more(old(progress)@)
            } else {
                old(progress)@
            },
    {
        let Linking { copier, source, destination } = self;
        match made {
            MadeLink::Unread => Err(at("Could not read link", &source)),
            MadeLink::NotCreated => Err(at("Could not copy link", &source)),
            MadeLink::Uninspected => Err(at("Could not inspect", &destination)),
            MadeLink::Unsupported => {
                progress.complete_item();
                let lost = Dropped { permissions: false, attributes: false, links: true };
                Ok(copier.without(lost))
            },
            MadeLink::Made(created) => {
                progress.complete_item();
                Ok(copier.record(&destination, &created))
            },
        }
    }
}

impl Finishing {
    /// What follows from giving the directory its attributes.
    pub open spec fn follows(
        self,
        result: Result<Dropped, String>,
        found: Option<Metadata>,
        next: Result<Copier, String>,
    ) -> bool {
        self.what() matches CopyStep::FinishDirectory { destination, place, .. } && match next {
            Ok(copier) => {
                &&& result matches Ok(lost)
                &&& found matches Some(metadata)
                &&& copier@ == (CopierModel {
                    created: copier@.created,
                    ..self.state().having_dropped(lost)
                })
                &&& recollected(
                    self.state().created,
                    copier@.created,
                    place,
                    destination,
                    metadata,
                )
            },
            Err(message) => match result {
                Err(why) => message == why,
                Ok(_) => found is None && message@ == located(
                    "Could not inspect"@,
                    destination.text(),
                ),
            },
        }
    }

    /// What of the attributes of its source the directory could not keep, or
    /// why it could not be given them, and what it is now.
    pub fn finished(
        self,
        result: Result<Dropped, String>,
        found: Option<Metadata>,
        progress: &mut TransferProgress,
    ) -> (next: Result<Copier, String>)
        ensures
            self.follows(result, found, next),
            final(progress)@ == if next is Ok {
                one_more(old(progress)@)
            } else {
                old(progress)@
            },
    {
        proof {
            use_type_invariant(&self);
        }
        let lost = match result {
            Ok(lost) => lost,
            Err(message) => {
                return Err(message);
            },
        };
        let Finishing { copier, destination, place, .. } = self;
        match found {
            None => Err(at("Could not inspect", &destination)),
            Some(metadata) => {
                proof {
                    use_type_invariant(&copier);
                }
                let Copier { steps, hardlinks, sources, created, staged_directories, dropped } = copier;
                let mut created = created;
                created.refresh(place, &destination, &metadata);
                let dropped = dropped.also(lost);
                progress.complete_item();
                Ok(Copier { steps, hardlinks, sources, created, staged_directories, dropped })
            },
        }
    }
}

} // verus!
