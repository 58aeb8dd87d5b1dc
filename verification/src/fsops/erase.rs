//! Erasing one quarantined root leaf by leaf.
//!
//! Nothing here resolves a whole path. Each entry is unlinked on a descriptor
//! of its parent, and that parent is reached from the quarantine root one
//! component at a time without following links, each directory checked against
//! the plan as it is opened. Removing by path would resolve the path all over
//! again after the check, and a subdirectory swapped for a symbolic link in
//! that gap would carry the removal to wherever the link points; opened this
//! way, the swap fails to open instead.

use vstd::prelude::*;

use crate::fsops::delete::{
    known_as, leaves_last, parent_planned, DeleteEntry, DeleteIdentity, DeleteKind,
    QuarantinedRoot,
};
use crate::fsops::identity::{about, message_about, Metadata};
use crate::fsops::local::{at, located, models};
use crate::fsops::{counted, PathFailure, TransferProgress, TransferProgressSnapshot};
use crate::index::{is_last_position, PathIndex};
use crate::path::{copy_bytes, PathBuf, PathModel};

verus! {

/// A root being erased.
pub struct Erase {
    pub original: PathBuf,
    pub quarantine: PathBuf,
    /// The whole plan.
    pub entries: DeletePlan,
    /// How much of the plan is left, taken from its end.
    pub left: usize,
    /// Whether the quarantine root is held open.
    pub holds_root: bool,
    /// The directory below the root that is held open, if one is.
    pub held: Option<PathBuf>,
    pub failures: Vec<PathFailure>,
}

/// The folder a quarantine root was renamed within is to be opened.
pub struct OutsideWanted {
    pub erase: Erase,
    pub outside: PathBuf,
}

/// Where a directory that is opened is named.
#[derive(Clone, Copy, Debug, PartialEq, Eq, Structural)]
pub enum OpenWithin {
    /// In the folder the quarantine root is in.
    Outside,
    /// In the quarantine root.
    Root,
    /// In the directory opened last.
    Last,
}

/// Where an entry that is erased is named.
#[derive(Clone, Copy, Debug, PartialEq, Eq, Structural)]
pub enum ParentHeld {
    /// In the folder the quarantine root is in: it is the root itself.
    Outside,
    /// In the quarantine root.
    Root,
    /// In the directory held below the root.
    Below,
}

/// What erasing a root wants next.
pub enum EraseStep {
    /// Open a directory on the way to the next entry.
    Open(AncestorOpen),
    /// Pin the next entry.
    Pin(PinWanted),
    /// An entry could not be reached; go on with the next.
    Next(Erase),
    /// What could not go.
    Done(Vec<PathFailure>),
}

/// A directory that is to be opened without following links.
pub struct AncestorOpen {
    pub erase: Erase,
    /// How many names of the entry's parent lie above the directory to open.
    pub depth: usize,
    pub path: PathBuf,
    pub name: Vec<u8>,
    pub within: OpenWithin,
}

/// An entry that is to be pinned by its name in its parent.
pub struct PinWanted {
    pub erase: Erase,
    pub within: ParentHeld,
    pub name: Vec<u8>,
}

/// What an entry's name was when it was pinned.
#[derive(Debug)]
pub enum EntryPin {
    /// It could not be pinned, with what the system said.
    Refused(String),
    /// It was pinned, but not identified.
    Uninspected,
    As(Metadata),
}

/// What opening a directory gave.
#[derive(Debug)]
pub enum DirectoryOpened {
    /// It could not be opened, with what the system said.
    Refused(String),
    /// It was opened, but not identified.
    Uninspected,
    As(Metadata),
}

/// A pinned entry that is to be unlinked, as a directory or not.
pub struct UnlinkWanted {
    pub erase: Erase,
    pub within: ParentHeld,
    pub name: Vec<u8>,
    pub directory: bool,
}

/// What a pinned entry wants.
pub enum PinStep {
    Unlink(UnlinkWanted),
    /// It is not what the plan holds; go on with the next.
    Next(Erase),
}

impl Erase {
    /// The entry that is being erased: the last one not yet left behind.
    pub open spec fn current(self) -> DeleteEntry {
        self.entries@[self.left as int]
    }

    /// Whether there is an entry that is being erased.
    pub open spec fn erasing(self) -> bool {
        self.left < self.entries@.len()
    }
}

/// Whether one failure was noted about the entry being erased, and nothing
/// else happened.
pub open spec fn noted(before: Erase, after: Erase, message: Seq<char>) -> bool {
    &&& after.original == before.original
    &&& after.quarantine == before.quarantine
    &&& after.entries == before.entries
    &&& after.left == before.left
    &&& after.holds_root == before.holds_root
    &&& after.held == before.held
    &&& after.failures@.len() == before.failures@.len() + 1
    &&& after.failures@.drop_last() == before.failures@
    &&& after.failures@.last().path@ == known_as(
        before.original@,
        before.quarantine@,
        before.current().path@,
    )
    &&& after.failures@.last().message@ == message
}

impl Erase {
    fn note(self, message: String) -> (erase: Erase)
        requires
            self.erasing(),
        ensures
            noted(self, erase, message@),
    {
        let path = self.display_path();
        let Erase { original, quarantine, entries, left, holds_root, held, failures } = self;
        let ghost before = failures@;
        let mut failures = failures;
        failures.push(PathFailure { path, message });
        assert(failures@.drop_last() =~= before);
        Erase { original, quarantine, entries, left, holds_root, held, failures }
    }

    /// The path the user knows the current entry by.
    fn display_path(&self) -> (path: PathBuf)
        requires
            self.erasing(),
        ensures
            path@ == known_as(self.original@, self.quarantine@, self.current().path@),
    {
        match self.entries.at(self.left).path.strip_prefix(&self.quarantine) {
            Some(relative) => if relative.is_absolute() || relative.name_count() > 0 {
                self.original.extended(&relative)
            } else {
                self.original.clone()
            },
            None => self.original.clone(),
        }
    }

    /// What the plan holds of the directory at `path`.
    fn planned_directory(&self, path: &PathBuf) -> (identity: Option<DeleteIdentity>)
        ensures
            identity == planned_at(self.entries@, path@),
    {
        self.entries.directory(path)
    }
}

/// What a plan holds of the directory at a path.
pub open spec fn planned_at(entries: Seq<DeleteEntry>, path: PathModel) -> Option<DeleteIdentity>
    decreases entries.len(),
{
    if entries.len() == 0 {
        None
    } else if entries.last().kind is Directory && entries.last().path@ == path {
        Some(entries.last().identity)
    } else {
        planned_at(entries.drop_last(), path)
    }
}

/// Where the directories of a plan are.
pub open spec fn directories_of(entries: Seq<DeleteEntry>) -> Seq<PathModel>
    decreases entries.len(),
{
    if entries.len() == 0 {
        Seq::empty()
    } else if entries.last().kind is Directory {
        directories_of(entries.drop_last()).push(entries.last().path@)
    } else {
        directories_of(entries.drop_last())
    }
}

/// What a plan holds of its directories.
pub open spec fn identities_of(entries: Seq<DeleteEntry>) -> Seq<DeleteIdentity>
    decreases entries.len(),
{
    if entries.len() == 0 {
        Seq::empty()
    } else if entries.last().kind is Directory {
        identities_of(entries.drop_last()).push(entries.last().identity)
    } else {
        identities_of(entries.drop_last())
    }
}

proof fn lemma_planned_at(entries: Seq<DeleteEntry>, path: PathModel)
    ensures
        identities_of(entries).len() == directories_of(entries).len(),
        forall|k: int| #[trigger]
            is_last_position(directories_of(entries), path, k) ==> planned_at(entries, path)
                == Some(identities_of(entries)[k]),
        (forall|k: int|
            0 <= k < directories_of(entries).len() ==> #[trigger] directories_of(entries)[k] != path)
            ==> planned_at(entries, path) is None,
    decreases entries.len(),
{
    if entries.len() > 0 {
        let rest = entries.drop_last();
        lemma_planned_at(rest, path);
        let all = directories_of(entries);
        let before = directories_of(rest);
        if entries.last().kind is Directory {
            assert forall|k: int| #[trigger] is_last_position(all, path, k) implies planned_at(
                entries,
                path,
            ) == Some(identities_of(entries)[k]) by {
                let last = all.len() - 1;
                if k < last {
                    assert(all[last] != path);
                    assert forall|j: int| k < j < before.len() implies #[trigger] before[j]
                        != path by {
                        assert(all[j] == before[j]);
                    }
                    assert(before[k] == all[k]);
                    assert(is_last_position(before, path, k));
                }
            }
            if forall|k: int| 0 <= k < all.len() ==> #[trigger] all[k] != path {
                assert(all[all.len() - 1] != path);
                assert forall|k: int| 0 <= k < before.len() implies #[trigger] before[k] != path by {
                    assert(all[k] == before[k]);
                }
            }
        }
    }
}

/// What is to be erased, the root first, with its directories to be found by
/// path.
pub struct DeletePlan {
    entries: Vec<DeleteEntry>,
    directories: PathIndex,
    identities: Vec<DeleteIdentity>,
}

impl View for DeletePlan {
    type V = Seq<DeleteEntry>;

    closed spec fn view(&self) -> Seq<DeleteEntry> {
        self.entries@
    }
}

impl DeletePlan {
    #[verifier::type_invariant]
    spec fn well_formed(self) -> bool {
        self.directories@ == directories_of(self.entries@) && self.identities@ == identities_of(
            self.entries@,
        )
    }

    pub fn new(entries: Vec<DeleteEntry>) -> (plan: DeletePlan)
        ensures
            plan@ == entries@,
    {
        let mut paths: Vec<PathBuf> = Vec::new();
        let mut identities: Vec<DeleteIdentity> = Vec::new();
        let mut i: usize = 0;
        assert(entries@.take(0) =~= Seq::empty());
        assert(models(paths@) =~= Seq::empty());
        while i < entries.len()
            invariant
                i <= entries@.len(),
                models(paths@) == directories_of(entries@.take(i as int)),
                identities@ == identities_of(entries@.take(i as int)),
            decreases entries.len() - i,
        {
            proof {
                assert(entries@.take(i + 1).drop_last() =~= entries@.take(i as int));
                assert(entries@.take(i + 1).last() == entries@[i as int]);
            }
            let ghost before = paths@;
            if entries[i].kind == DeleteKind::Directory {
                paths.push(entries[i].path.clone());
                identities.push(entries[i].identity);
                assert(models(paths@) =~= models(before).push(entries@[i as int].path@));
            }
            i += 1;
        }
        assert(entries@.take(i as int) =~= entries@);
        let directories = PathIndex::new(paths.as_slice());
        DeletePlan { entries, directories, identities }
    }

    pub fn len(&self) -> (len: usize)
        ensures
            len == self@.len(),
    {
        self.entries.len()
    }

    pub fn at(&self, i: usize) -> (entry: &DeleteEntry)
        requires
            i < self@.len(),
        ensures
            *entry == self@[i as int],
    {
        &self.entries[i]
    }

    /// What the plan holds of the directory at `path`.
    pub fn directory(&self, path: &PathBuf) -> (identity: Option<DeleteIdentity>)
        ensures
            identity == planned_at(self@, path@),
    {
        proof {
            use_type_invariant(self);
            lemma_planned_at(self@, path@);
        }
        match self.directories.find(path) {
            Some(place) => Some(self.identities[place]),
            None => None,
        }
    }
}

/// The directory a path is in that has so many names.
pub open spec fn above(path: PathModel, names: int) -> PathModel {
    PathModel { absolute: path.absolute, names: path.names.take(names) }
}

fn ancestor_of(path: &PathBuf, names: usize) -> (ancestor: PathBuf)
    requires
        names <= path@.names.len(),
    ensures
        ancestor@ == above(path@, names as int),
{
    let mut ancestor = path.clone();
    assert(above(path@, path@.names.len() as int) =~= path@);
    while ancestor.name_count() > names
        invariant
            names <= ancestor@.names.len() <= path@.names.len(),
            ancestor@ == above(path@, ancestor@.names.len() as int),
        decreases ancestor@.names.len(),
    {
        let ghost before = ancestor@;
        match ancestor.parent() {
            Some(parent) => {
                ancestor = parent;
                assert(ancestor@.names =~= path@.names.take(ancestor@.names.len() as int));
            },
            None => {},
        }
    }
    ancestor
}

/// Starts erasing a root.
pub fn erase_root(root: QuarantinedRoot) -> (result: Result<OutsideWanted, Vec<PathFailure>>)
    ensures
        match root.quarantine@.parent() {
            None => result matches Err(failures) && failures@.len() == 1 && failures@[0].path
                == root.original && failures@[0].message@ == "Quarantine path has no parent"@,
            Some(outside) => {
                &&& result matches Ok(wanted)
                &&& wanted.outside@ == outside
                &&& wanted.erase.original == root.original
                &&& wanted.erase.quarantine == root.quarantine
                &&& wanted.erase.entries@ == root.entries@
                &&& wanted.erase.left == root.entries@.len()
                &&& !wanted.erase.holds_root
                &&& wanted.erase.held is None
                &&& wanted.erase.failures@.len() == 0
            },
        },
{
    let QuarantinedRoot { original, quarantine, entries } = root;
    match quarantine.parent() {
        Some(outside) => {
            let entries = DeletePlan::new(entries);
            let left: usize = entries.len();
            Ok(
                OutsideWanted {
                    erase: Erase {
                        original,
                        quarantine,
                        entries,
                        left,
                        holds_root: false,
                        held: None,
                        failures: Vec::new(),
                    },
                    outside,
                },
            )
        },
        None => {
            let mut failures: Vec<PathFailure> = Vec::new();
            failures.push(
                PathFailure {
                    path: original,
                    message: "Quarantine path has no parent".to_owned(),
                },
            );
            Err(failures)
        },
    }
}

impl OutsideWanted {
    /// Whether the folder was opened.
    pub fn opened(self, opened: bool) -> (result: Result<Erase, Vec<PathFailure>>)
        ensures
            match result {
                Ok(erase) => opened && erase == self.erase,
                Err(failures) => !opened && failures@.len() == 1 && failures@[0].path
                    == self.erase.original && failures@[0].message@ == located(
                    "Could not open"@,
                    self.outside.text(),
                ),
            },
    {
        if opened {
            return Ok(self.erase);
        }
        let mut failures: Vec<PathFailure> = Vec::new();
        failures.push(
            PathFailure {
                path: self.erase.original,
                message: at("Could not open", &self.outside),
            },
        );
        Err(failures)
    }
}

/// How the parent of an entry is reached from what is held.
pub enum Reach {
    /// The entry has no parent, or no name.
    Unreachable(Seq<char>),
    /// The parent is held.
    Held(ParentHeld),
    /// The quarantine root has to be opened first.
    OpenRoot,
    /// The directories below the root have to be opened, one after another.
    OpenBelow,
}

/// How the parent of the entry being erased is reached.
pub open spec fn reach(erase: Erase) -> Reach {
    let path = erase.current().path@;
    match path.parent() {
        None => Reach::Unreachable("Delete entry has no parent"@),
        Some(parent) => if !parent.starts_with(erase.quarantine@) {
            Reach::Held(ParentHeld::Outside)
        } else if !erase.holds_root {
            Reach::OpenRoot
        } else if parent == erase.quarantine@ {
            Reach::Held(ParentHeld::Root)
        } else if erase.held is Some && erase.held.unwrap()@ == parent {
            Reach::Held(ParentHeld::Below)
        } else if parent.names.len() <= erase.quarantine@.names.len() {
            Reach::Unreachable("Delete entry has no parent below the quarantine"@)
        } else {
            Reach::OpenBelow
        },
    }
}

/// The directories that stay open once an entry is reached: an entry outside
/// lets both go, an entry in the root lets the one below it go.
pub open spec fn keeps_open(erase: Erase, within: ParentHeld) -> Erase {
    match within {
        ParentHeld::Outside => Erase { holds_root: false, held: None, ..erase },
        ParentHeld::Root => Erase { held: None, ..erase },
        ParentHeld::Below => erase,
    }
}

impl Erase {
    /// Whether this is what erasing wants next.
    pub open spec fn wants(self, step: EraseStep) -> bool {
        if self.left == 0 || self.left > self.entries@.len() {
            step == EraseStep::Done(self.failures)
        } else {
            approached(Erase { left: (self.left - 1) as usize, ..self }, step)
        }
    }

    /// Whether going on takes the progress from `before` to `after`.
    pub open spec fn shows(
        self,
        before: TransferProgressSnapshot,
        after: TransferProgressSnapshot,
    ) -> bool {
        if self.left == 0 || self.left > self.entries@.len() {
            after == before
        } else {
            let taken = Erase { left: (self.left - 1) as usize, ..self };
            &&& after.current_path matches Some(shown)
            &&& shown@ == known_as(self.original@, self.quarantine@, taken.current().path@)
            &&& after == (TransferProgressSnapshot {
                current_path: Some(shown),
                ..before
            })
        }
    }

    /// Goes on with the next entry, the last of the plan first.
    pub fn next(self, progress: &mut TransferProgress) -> (step: EraseStep)
        ensures
            self.wants(step),
            self.shows(old(progress)@, final(progress)@),
    {
        if self.left == 0 || self.left > self.entries.len() {
            return EraseStep::Done(self.failures);
        }
        let mut erase = self;
        erase.left = erase.left - 1;
        progress.set_current_path(Some(erase.display_path()));
        erase.parent_of()
    }
}

/// Whether a step is the one towards the entry being erased.
pub open spec fn approached(erase: Erase, step: EraseStep) -> bool {
    match reach(erase) {
        Reach::Unreachable(why) => step matches EraseStep::Next(next) && noted(erase, next, why),
        Reach::Held(within) => match erase.current().path@.file_name() {
            None => step matches EraseStep::Next(next) && noted(
                keeps_open(erase, within),
                next,
                "Delete entry has no name"@,
            ),
            Some(name) => step matches EraseStep::Pin(pin) && pin.erase == keeps_open(erase, within)
                && pin.within == within && pin.name@ == name,
        },
        Reach::OpenRoot => match erase.quarantine@.file_name() {
            None => step matches EraseStep::Next(next) && noted(
                erase,
                next,
                "Quarantine path has no name"@,
            ),
            Some(name) => step matches EraseStep::Open(open) && open.erase == erase && open.path@
                == erase.quarantine@ && open.name@ == name && open.within is Outside,
        },
        Reach::OpenBelow => {
            let parent = erase.current().path@.parent().unwrap();
            let first = erase.quarantine@.names.len();
            step matches EraseStep::Open(open) && open.erase == erase && open.depth == first
                && open.path@ == above(parent, (first + 1) as int) && open.name@
                == parent.names[first as int] && open.within is Root
        },
    }
}

impl Erase {
    /// The step towards the entry being erased.
    fn parent_of(self) -> (step: EraseStep)
        requires
            self.erasing(),
        ensures
            approached(self, step),
    {
        let parent = match self.entries.at(self.left).path.parent() {
            Some(parent) => parent,
            None => {
                return EraseStep::Next(self.note("Delete entry has no parent".to_owned()));
            },
        };
        if !parent.starts_with(&self.quarantine) {
            // The root itself is going: let its descriptors go first.
            let mut erase = self;
            erase.holds_root = false;
            erase.held = None;
            return erase.pin(ParentHeld::Outside);
        }
        if !self.holds_root {
            let name = match self.quarantine.file_name() {
                Some(name) => copy_bytes(name),
                None => {
                    return EraseStep::Next(self.note("Quarantine path has no name".to_owned()));
                },
            };
            let path = self.quarantine.clone();
            let depth = path.name_count();
            return EraseStep::Open(
                AncestorOpen { erase: self, depth, path, name, within: OpenWithin::Outside },
            );
        }
        if parent.same(&self.quarantine) {
            let mut erase = self;
            erase.held = None;
            return erase.pin(ParentHeld::Root);
        }
        let is_held = match &self.held {
            Some(held) => held.same(&parent),
            None => false,
        };
        if is_held {
            return self.pin(ParentHeld::Below);
        }
        let depth = self.quarantine.name_count();
        if depth >= parent.name_count() {
            return EraseStep::Next(
                self.note("Delete entry has no parent below the quarantine".to_owned()),
            );
        }
        let path = ancestor_of(&parent, depth + 1);
        let name = copy_bytes(parent.name_at(depth));
        EraseStep::Open(AncestorOpen { erase: self, depth, path, name, within: OpenWithin::Root })
    }

    fn pin(self, within: ParentHeld) -> (step: EraseStep)
        requires
            self.erasing(),
        ensures
            match self.current().path@.file_name() {
                None => step matches EraseStep::Next(next) && noted(
                    self,
                    next,
                    "Delete entry has no name"@,
                ),
                Some(name) => step matches EraseStep::Pin(pin) && pin.erase == self && pin.within
                    == within && pin.name@ == name,
            },
    {
        let name = match self.entries.at(self.left).path.file_name() {
            Some(name) => copy_bytes(name),
            None => {
                return EraseStep::Next(self.note("Delete entry has no name".to_owned()));
            },
        };
        EraseStep::Pin(PinWanted { erase: self, within, name })
    }
}

/// Why a directory on the way cannot be gone through, if it cannot.
pub open spec fn ancestor_refusal(
    entries: Seq<DeleteEntry>,
    path: PathBuf,
    opened: DirectoryOpened,
) -> Option<Seq<char>> {
    match opened {
        DirectoryOpened::Refused(why) => Some(
            about(
                "Cannot continue: "@,
                path.text(),
                " is no longer a directory that can be opened: "@ + why@,
            ),
        ),
        _ => match planned_at(entries, path@) {
            None => Some(
                about("Cannot continue: ancestor "@, path.text(), " was not in the delete plan"@),
            ),
            Some(expected) => match opened {
                DirectoryOpened::As(metadata) => if expected.pins(metadata.planned()) {
                    None
                } else {
                    Some(
                        about("Cannot continue: ancestor "@, path.text(), " changed or was replaced"@),
                    )
                },
                _ => Some(located("Could not inspect"@, path.text())),
            },
        },
    }
}

impl Erase {
    /// Refuse a directory that is not the one the plan recorded at `path`.
    fn check_planned(&self, path: &PathBuf, opened: DirectoryOpened) -> (verdict: Result<
        (),
        String,
    >)
        ensures
            match verdict {
                Ok(_) => ancestor_refusal(self.entries@, *path, opened) is None,
                Err(message) => ancestor_refusal(self.entries@, *path, opened) == Some(message@),
            },
    {
        match &opened {
            DirectoryOpened::Refused(why) => {
                let mut after = " is no longer a directory that can be opened: ".to_owned();
                after.append(why.as_str());
                return Err(message_about("Cannot continue: ", path, after.as_str()));
            },
            _ => {},
        }
        let expected = match self.planned_directory(path) {
            Some(expected) => expected,
            None => {
                return Err(
                    message_about(
                        "Cannot continue: ancestor ",
                        path,
                        " was not in the delete plan",
                    ),
                );
            },
        };
        match opened {
            DirectoryOpened::As(metadata) => if expected.same_object(DeleteIdentity::of(&metadata)) {
                Ok(())
            } else {
                Err(message_about("Cannot continue: ancestor ", path, " changed or was replaced"))
            },
            _ => Err(at("Could not inspect", path)),
        }
    }
}

impl AncestorOpen {
    /// What follows from what opening the directory gave.
    pub open spec fn follows(self, opened: DirectoryOpened, step: EraseStep) -> bool {
        match ancestor_refusal(self.erase.entries@, self.path, opened) {
            Some(why) => step matches EraseStep::Next(next) && noted(self.erase, next, why),
            None => {
                let parent = self.erase.current().path@.parent().unwrap();
                if self.within is Outside {
                    approached(Erase { holds_root: true, ..self.erase }, step)
                } else if self.depth + 1 < parent.names.len() {
                    step matches EraseStep::Open(open) && open.erase == self.erase
                        && open.depth == self.depth + 1 && open.path@ == above(
                        parent,
                        self.depth + 2,
                    ) && open.name@ == parent.names[self.depth + 1] && open.within is Last
                } else {
                    let reached = match step {
                        EraseStep::Pin(pin) => pin.erase.held,
                        EraseStep::Next(next) => next.held,
                        _ => None,
                    };
                    let erase = Erase { held: reached, ..self.erase };
                    &&& reached matches Some(held)
                    &&& held@ == parent
                    &&& match self.erase.current().path@.file_name() {
                        None => step matches EraseStep::Next(next) && noted(
                            erase,
                            next,
                            "Delete entry has no name"@,
                        ),
                        Some(name) => step matches EraseStep::Pin(pin) && pin.erase == erase
                            && pin.within is Below && pin.name@ == name,
                    }
                }
            },
        }
    }

    /// What opening the directory gave.
    pub fn opened(self, opened: DirectoryOpened) -> (step: EraseStep)
        requires
            self.erase.erasing(),
            self.erase.current().path@.parent() is Some,
        ensures
            self.follows(opened, step),
    {
        let AncestorOpen { erase, depth, path, within, .. } = self;
        match erase.check_planned(&path, opened) {
            Ok(_) => {},
            Err(message) => {
                return EraseStep::Next(erase.note(message));
            },
        }
        let mut erase = erase;
        if within == OpenWithin::Outside {
            erase.holds_root = true;
            return erase.parent_of();
        }
        match erase.entries.at(erase.left).path.parent() {
            Some(parent) => {
                if depth < parent.name_count() && depth + 1 < parent.name_count() {
                    let path = ancestor_of(&parent, depth + 2);
                    let name = copy_bytes(parent.name_at(depth + 1));
                    return EraseStep::Open(
                        AncestorOpen {
                            erase,
                            depth: depth + 1,
                            path,
                            name,
                            within: OpenWithin::Last,
                        },
                    );
                }
                erase.held = Some(parent);
                erase.pin(ParentHeld::Below)
            },
            None => EraseStep::Next(erase),
        }
    }
}

/// Why a pinned entry is not erased, if it is not.
pub open spec fn pin_refusal(entry: DeleteEntry, pin: EntryPin) -> Option<Seq<char>> {
    match pin {
        EntryPin::Refused(why) => Some(
            about("Cannot continue: "@, entry.path.text(), " could not be inspected: "@ + why@),
        ),
        EntryPin::Uninspected => Some(located("Could not inspect"@, entry.path.text())),
        EntryPin::As(metadata) => if entry.still_planned(metadata.planned()) {
            None
        } else {
            Some(about("Cannot continue: "@, entry.path.text(), " changed or was replaced"@))
        },
    }
}

impl PinWanted {
    /// What follows from what the entry's name was when it was pinned.
    pub open spec fn follows(self, pin: EntryPin, step: PinStep) -> bool {
        match pin_refusal(self.erase.current(), pin) {
            Some(why) => step matches PinStep::Next(next) && noted(self.erase, next, why),
            None => step == PinStep::Unlink(
                UnlinkWanted {
                    erase: self.erase,
                    within: self.within,
                    name: self.name,
                    directory: self.erase.current().kind is Directory,
                },
            ),
        }
    }

    /// What the entry's name was when it was pinned. Only what the plan holds
    /// is ever unlinked.
    pub fn pinned(self, pin: EntryPin) -> (step: PinStep)
        requires
            self.erase.erasing(),
        ensures
            self.follows(pin, step),
    {
        let PinWanted { erase, within, name } = self;
        let kind = erase.entries.at(erase.left).kind;
        let metadata = match pin {
            EntryPin::Refused(why) => {
                let mut after = " could not be inspected: ".to_owned();
                after.append(why.as_str());
                let message = message_about(
                    "Cannot continue: ",
                    &erase.entries.at(erase.left).path,
                    after.as_str(),
                );
                return PinStep::Next(erase.note(message));
            },
            EntryPin::Uninspected => {
                let message = at("Could not inspect", &erase.entries.at(erase.left).path);
                return PinStep::Next(erase.note(message));
            },
            EntryPin::As(metadata) => metadata,
        };
        let found = DeleteIdentity::of(&metadata);
        let planned = erase.entries.at(erase.left).identity;
        let still = match kind {
            DeleteKind::Directory => planned.same_object(found),
            DeleteKind::Other => planned.describes(found),
        };
        if !still {
            let message = message_about(
                "Cannot continue: ",
                &erase.entries.at(erase.left).path,
                " changed or was replaced",
            );
            return PinStep::Next(erase.note(message));
        }
        PinStep::Unlink(
            UnlinkWanted { erase, within, name, directory: kind == DeleteKind::Directory },
        )
    }
}

impl UnlinkWanted {
    /// What comes of whether the entry was unlinked.
    pub open spec fn settles(self, gone: bool, next: Erase) -> bool {
        if gone {
            next == self.erase
        } else {
            noted(
                self.erase,
                next,
                located("Could not permanently delete"@, self.erase.current().path.text()),
            )
        }
    }

    /// Whether erasing an entry takes the progress from `before` to `after`.
    pub open spec fn counts(
        self,
        gone: bool,
        before: TransferProgressSnapshot,
        after: TransferProgressSnapshot,
    ) -> bool {
        after == if gone {
            TransferProgressSnapshot {
                completed_items: counted(before.completed_items, 1),
                completed_bytes: counted(
                    before.completed_bytes,
                    self.erase.current().bytes,
                ),
                ..before
            }
        } else {
            before
        }
    }

    /// Whether the entry was unlinked.
    pub fn unlinked(self, gone: bool, progress: &mut TransferProgress) -> (next: Erase)
        requires
            self.erase.erasing(),
        ensures
            self.settles(gone, next),
            self.counts(gone, old(progress)@, final(progress)@),
    {
        let erase = self.erase;
        if gone {
            progress.complete_item();
            progress.complete_bytes(erase.entries.at(erase.left).bytes);
            return erase;
        }
        let message = at("Could not permanently delete", &erase.entries.at(erase.left).path);
        erase.note(message)
    }
}

/// Whether what is found has the device, inode and mode that were recorded.
pub open spec fn keeps(identity: DeleteIdentity, found: Metadata) -> bool {
    &&& found.device == identity.identity.key.device
    &&& found.inode == identity.identity.key.inode
    &&& found.mode == identity.mode
}

/// Whether what is found last changed when it was recorded to have.
pub open spec fn keeps_time(identity: DeleteIdentity, found: Metadata) -> bool {
    &&& found.changed_seconds == identity.identity.changed_seconds
    &&& found.changed_nanoseconds == identity.identity.changed_nanoseconds
}

/// Whether nobody has interfered with an entry since it was planned. Taking
/// out what is in a directory changes its time and link count, and removing
/// another name of a file changes that file's.
pub open spec fn left_alone(entry: DeleteEntry, found: Metadata) -> bool {
    &&& keeps(entry.identity, found)
    &&& entry.kind is Directory || keeps_time(entry.identity, found) || entry.identity.links > 1
}

/// An entry is unlinked exactly where nobody has interfered with it: a
/// directory with the device, inode and mode that were recorded always is,
/// whatever its link count and time of last change have become, and what is
/// not the planned object never is.
pub proof fn lemma_only_what_was_left_alone_is_unlinked(
    wanted: PinWanted,
    found: Metadata,
    step: PinStep,
)
    requires
        wanted.follows(EntryPin::As(found), step),
    ensures
        step is Unlink <==> left_alone(wanted.erase.current(), found),
        step matches PinStep::Unlink(unlink) ==> unlink.erase == wanted.erase && unlink.within
            == wanted.within && unlink.name == wanted.name && unlink.directory == (
        wanted.erase.current().kind is Directory),
{
}

/// What could not be pinned or looked at is never unlinked.
pub proof fn lemma_unseen_entries_stay(wanted: PinWanted, pin: EntryPin, step: PinStep)
    requires
        wanted.follows(pin, step),
        !(pin is As),
    ensures
        step matches PinStep::Next(next) && next.failures@.len() == wanted.erase.failures@.len()
            + 1,
{
}

/// An erasure under way, and what was unlinked so far.
pub struct ErasureState {
    pub step: EraseStep,
    pub gone: Seq<PathBuf>,
}

/// Whether an erasure went on from one state to the next, with nobody
/// interfering and everything asked for done.
pub open spec fn erases_on(before: ErasureState, after: ErasureState) -> bool {
    match before.step {
        EraseStep::Next(erase) => erase.wants(after.step) && after.gone == before.gone,
        EraseStep::Open(open) => after.gone == before.gone && exists|found: Metadata|
            opens_planned(open, found, after.step),
        EraseStep::Pin(wanted) => exists|found: Metadata, step: PinStep| #[trigger]
            unlinks_planned(wanted, found, step, before, after),
        EraseStep::Done(_) => false,
    }
}

/// Whether a directory on the way was opened, which is the one that every
/// entry of the plan at its path is about.
pub open spec fn opens_planned(open: AncestorOpen, found: Metadata, step: EraseStep) -> bool {
    &&& forall|j: int|
        0 <= j < open.erase.entries@.len() && (#[trigger] open.erase.entries@[j]).path@
            == open.path@ ==> keeps(open.erase.entries@[j].identity, found)
    &&& open.follows(DirectoryOpened::As(found), step)
}

/// Whether an entry was found that nobody has interfered with, and what was
/// made of it was done.
pub open spec fn unlinks_planned(
    wanted: PinWanted,
    found: Metadata,
    step: PinStep,
    before: ErasureState,
    after: ErasureState,
) -> bool {
    &&& left_alone(wanted.erase.current(), found)
    &&& wanted.follows(EntryPin::As(found), step)
    &&& match step {
        PinStep::Unlink(unlink) => after.step matches EraseStep::Next(next) && unlink.settles(
            true,
            next,
        ) && after.gone == before.gone.push(wanted.erase.current().path),
        PinStep::Next(next) => after.step == EraseStep::Next(next) && after.gone == before.gone,
    }
}

/// Whether a plan is one of a tree: everything in it lies in a directory that
/// is planned before it, down from the root, and has a name.
pub open spec fn plans_a_tree(entries: Seq<DeleteEntry>, root: PathModel) -> bool {
    &&& root.file_name() is Some
    &&& leaves_last(entries, root)
    &&& forall|i: int| 0 <= i < entries.len() ==> (#[trigger] entries[i]).path@.file_name() is Some
}

/// Whether the directory at a path is planned.
pub open spec fn directory_planned(entries: Seq<DeleteEntry>, path: PathModel) -> bool {
    exists|j: int|
        0 <= j < entries.len() && (#[trigger] entries[j]).kind is Directory && entries[j].path@
            == path
}

proof fn lemma_ancestors_are_planned(entries: Seq<DeleteEntry>, root: PathModel, k: int, n: int)
    requires
        plans_a_tree(entries, root),
        0 <= k < entries.len(),
        root.names.len() <= n < entries[k].path@.names.len(),
    ensures
        entries[k].path@.starts_with(root),
        directory_planned(entries, above(entries[k].path@, n)),
    decreases k,
{
    let path = entries[k].path@;
    if path != root {
        assert(parent_planned(entries, k, path));
        let j = choose|j: int|
            0 <= j < k && (#[trigger] entries[j]).kind is Directory && path.parent() == Some(
                entries[j].path@,
            );
        let parent = entries[j].path@;
        if n == parent.names.len() {
            assert(above(path, n).names =~= parent.names);
            assert(above(path, n) == parent);
            lemma_entry_is_inside(entries, root, k);
        } else {
            lemma_ancestors_are_planned(entries, root, j, n);
            assert(above(path, n).names =~= above(parent, n).names);
            lemma_entry_is_inside(entries, root, k);
        }
    }
}

proof fn lemma_entry_is_inside(entries: Seq<DeleteEntry>, root: PathModel, k: int)
    requires
        plans_a_tree(entries, root),
        0 <= k < entries.len(),
    ensures
        entries[k].path@.starts_with(root),
        entries[k].path@ != root ==> root.names.len() < entries[k].path@.names.len(),
        entries[k].path@ != root ==> entries[k].path@.parent().unwrap().starts_with(root),
    decreases k,
{
    let path = entries[k].path@;
    if path != root {
        assert(parent_planned(entries, k, path));
        let j = choose|j: int|
            0 <= j < k && (#[trigger] entries[j]).kind is Directory && path.parent() == Some(
                entries[j].path@,
            );
        lemma_entry_is_inside(entries, root, j);
        let parent = entries[j].path@;
        assert(root.names.is_prefix_of(parent.names));
        assert(path.names.subrange(0, root.names.len() as int) =~= root.names) by {
            assert forall|i: int| 0 <= i < root.names.len() implies path.names[i]
                == root.names[i] by {
                assert(path.names[i] == parent.names[i]);
            }
        }
    } else {
        assert(root.names.is_prefix_of(root.names));
    }
}

proof fn lemma_planned_at_some_entry(entries: Seq<DeleteEntry>, path: PathModel)
    ensures
        planned_at(entries, path) matches Some(identity) ==> exists|j: int|
            0 <= j < entries.len() && (#[trigger] entries[j]).path@ == path && entries[j].identity
                == identity,
        directory_planned(entries, path) ==> planned_at(entries, path) is Some,
    decreases entries.len(),
{
    if entries.len() > 0 {
        let rest = entries.drop_last();
        lemma_planned_at_some_entry(rest, path);
        if entries.last().kind is Directory && entries.last().path@ == path {
            assert(entries[entries.len() - 1].path@ == path);
        } else {
            match planned_at(rest, path) {
                Some(identity) => {
                    let j = choose|j: int|
                        0 <= j < rest.len() && (#[trigger] rest[j]).path@ == path
                            && rest[j].identity == identity;
                    assert(entries[j].path@ == path);
                },
                None => {},
            }
            if directory_planned(entries, path) {
                let j = choose|j: int|
                    0 <= j < entries.len() && (#[trigger] entries[j]).kind is Directory
                        && entries[j].path@ == path;
                assert(rest[j] == entries[j]);
            }
        }
    }
}

/// What was unlinked when everything behind the first `left` entries of a plan
/// is: the last one first.
pub open spec fn gone_behind(entries: Seq<DeleteEntry>, left: int, gone: Seq<PathBuf>) -> bool {
    &&& 0 <= left <= entries.len()
    &&& gone.len() == entries.len() - left
    &&& forall|i: int|
        0 <= i < gone.len() ==> #[trigger] gone[i] == entries[entries.len() - 1 - i].path
}

/// What holds of an erasure at every step that nobody interferes with.
pub open spec fn erasure_stands(
    entries: Seq<DeleteEntry>,
    root: PathModel,
    state: ErasureState,
) -> bool {
    match state.step {
        EraseStep::Next(erase) => {
            &&& erase.entries@ == entries
            &&& erase.quarantine@ == root
            &&& erase.failures@.len() == 0
            &&& gone_behind(entries, erase.left as int, state.gone)
        },
        EraseStep::Open(open) => {
            let path = open.erase.current().path@;
            &&& open.erase.entries@ == entries
            &&& open.erase.quarantine@ == root
            &&& open.erase.failures@.len() == 0
            &&& open.erase.erasing()
            &&& gone_behind(entries, open.erase.left + 1, state.gone)
            &&& path != root
            &&& if open.within is Outside {
                open.path@ == root
            } else {
                &&& open.erase.holds_root
                &&& root.names.len() <= open.depth
                &&& open.depth + 1 < path.names.len()
                &&& open.path@ == above(path, open.depth + 1)
            }
        },
        EraseStep::Pin(wanted) => {
            &&& wanted.erase.entries@ == entries
            &&& wanted.erase.quarantine@ == root
            &&& wanted.erase.failures@.len() == 0
            &&& wanted.erase.erasing()
            &&& gone_behind(entries, wanted.erase.left + 1, state.gone)
        },
        EraseStep::Done(failures) => failures@.len() == 0 && gone_behind(entries, 0, state.gone),
    }
}

proof fn lemma_approach_stands(
    entries: Seq<DeleteEntry>,
    root: PathModel,
    erase: Erase,
    step: EraseStep,
    gone: Seq<PathBuf>,
)
    requires
        plans_a_tree(entries, root),
        erase.entries@ == entries,
        erase.quarantine@ == root,
        erase.failures@.len() == 0,
        erase.erasing(),
        gone_behind(entries, erase.left + 1, gone),
        approached(erase, step),
    ensures
        erasure_stands(entries, root, ErasureState { step, gone }),
{
    let path = erase.current().path@;
    lemma_entry_is_inside(entries, root, erase.left as int);
    assert(path.file_name() is Some);
    let parent = path.parent().unwrap();
    if path == root {
        assert(!parent.starts_with(root));
    } else {
        match step {
            EraseStep::Open(open) => if open.within is Root {
                let first = (root.names.len() + 1) as int;
                assert(above(parent, first).names =~= above(path, first).names);
            },
            _ => {},
        }
        if parent.names.len() <= root.names.len() {
            assert(parent.names =~= root.names);
        }
    }
}

proof fn lemma_opening_stands(
    entries: Seq<DeleteEntry>,
    root: PathModel,
    open: AncestorOpen,
    found: Metadata,
    step: EraseStep,
    gone: Seq<PathBuf>,
)
    requires
        plans_a_tree(entries, root),
        erasure_stands(entries, root, ErasureState { step: EraseStep::Open(open), gone }),
        opens_planned(open, found, step),
    ensures
        erasure_stands(entries, root, ErasureState { step, gone }),
{
    let k = open.erase.left as int;
    let path = open.erase.current().path@;
    lemma_entry_is_inside(entries, root, k);
    assert(path.file_name() is Some);
    let parent = path.parent().unwrap();
    if open.within is Outside {
        lemma_ancestors_are_planned(entries, root, k, root.names.len() as int);
        assert(above(path, root.names.len() as int).names =~= root.names);
    } else {
        lemma_ancestors_are_planned(entries, root, k, open.depth + 1);
    }
    assert(directory_planned(entries, open.path@));
    lemma_planned_at_some_entry(entries, open.path@);
    assert(ancestor_refusal(entries, open.path, DirectoryOpened::As(found)) is None);
    if open.within is Outside {
        lemma_approach_stands(entries, root, Erase { holds_root: true, ..open.erase }, step, gone);
    } else if open.depth + 1 < parent.names.len() {
        assert(above(parent, open.depth + 2).names =~= above(path, open.depth + 2).names);
    }
}

proof fn lemma_unlinking_stands(
    entries: Seq<DeleteEntry>,
    root: PathModel,
    wanted: PinWanted,
    found: Metadata,
    step: PinStep,
    before: ErasureState,
    after: ErasureState,
)
    requires
        before.step == EraseStep::Pin(wanted),
        erasure_stands(entries, root, before),
        unlinks_planned(wanted, found, step, before, after),
    ensures
        erasure_stands(entries, root, after),
{
    lemma_only_what_was_left_alone_is_unlinked(wanted, found, step);
    let left = wanted.erase.left as int;
    assert forall|i: int| 0 <= i < after.gone.len() implies #[trigger] after.gone[i]
        == entries[entries.len() - 1 - i].path by {
        if i < before.gone.len() {
            assert(after.gone[i] == before.gone[i]);
        }
    }
}

/// A plan that nobody interferes with is erased to the end: nothing fails,
/// and every entry of the plan is unlinked, once, what is inside a directory
/// before the directory. However far it has come, what is gone are the last
/// entries of the plan.
pub proof fn lemma_undisturbed_plan_is_erased(
    entries: Seq<DeleteEntry>,
    root: PathModel,
    run: Seq<ErasureState>,
    at: int,
)
    requires
        plans_a_tree(entries, root),
        run[0].step matches EraseStep::Next(erase) && erase.entries@ == entries
            && erase.quarantine@ == root && erase.left == entries.len() && erase.failures@.len()
            == 0,
        run[0].gone.len() == 0,
        forall|i: int| 0 <= i < run.len() - 1 ==> #[trigger] erases_at(run, i),
        0 <= at < run.len(),
    ensures
        erasure_stands(entries, root, run[at]),
        run[at].step matches EraseStep::Done(failures) ==> failures@.len() == 0
            && run[at].gone.len() == entries.len() && forall|i: int|
            0 <= i < entries.len() ==> #[trigger] run[at].gone[i] == entries[entries.len() - 1
                - i].path,
    decreases at,
{
    if at > 0 {
        lemma_undisturbed_plan_is_erased(entries, root, run, at - 1);
        let before = run[at - 1];
        let after = run[at];
        assert(erases_at(run, at - 1));
        match before.step {
            EraseStep::Next(erase) => {
                if erase.left > 0 {
                    let taken = Erase { left: (erase.left - 1) as usize, ..erase };
                    lemma_approach_stands(entries, root, taken, after.step, before.gone);
                }
            },
            EraseStep::Open(open) => {
                let found = choose|found: Metadata| opens_planned(open, found, after.step);
                lemma_opening_stands(entries, root, open, found, after.step, before.gone);
            },
            EraseStep::Pin(wanted) => {
                let (found, step) = choose|found: Metadata, step: PinStep| #[trigger]
                    unlinks_planned(wanted, found, step, before, after);
                lemma_unlinking_stands(entries, root, wanted, found, step, before, after);
            },
            _ => {},
        }
    }
}

/// Whether an erasure went on from one state to the next.
pub open spec fn erases_at(run: Seq<ErasureState>, at: int) -> bool {
    erases_on(run[at], run[at + 1])
}

} // verus!
