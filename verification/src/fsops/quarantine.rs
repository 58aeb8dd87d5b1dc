//! Holding a replaced object aside so an undo can put it back, and what
//! happens to it when nothing can any more.

use vstd::prelude::*;

use crate::fsops::identity::{
    about, message_about, refusal, FileIdentity, Metadata, ObjectKey, SnapshotKind,
};
use crate::fsops::journal::ReplacedItem;
use crate::fsops::local::{
    at, carried_name, located, models, quarantined_name, Lookup, Name, RenameErrorKind,
};
use crate::fsops::working::{recovery_prefix, recovery_remnant_prefix};
use crate::fsops::tree::{put_back, renamed, Objects};
use crate::path::{copy_bytes, PathBuf};

verus! {

/// How many names are tried before giving up on finding a free one.
pub const RESERVATION_ATTEMPTS: u32 = 1024;

/// Adding up what a quarantine holds.
#[derive(Debug)]
pub struct HeldBytes {
    /// What is left to look at, the next one last.
    pub pending: Vec<PathBuf>,
    pub total: u64,
}

/// What adding up wants next.
#[derive(Debug)]
pub enum HeldStep {
    Inspect(HeldWanted),
    /// Total bytes the quarantine is holding.
    Total(u64),
}

/// Adding up waits to know what is at `path`.
#[derive(Debug)]
pub struct HeldWanted {
    pub held: HeldBytes,
    pub path: PathBuf,
}

/// What adding up wants once an entry is known.
#[derive(Debug)]
pub enum HeldEntryStep {
    List(HeldList),
    Next(HeldBytes),
}

/// Adding up waits for the names in a directory.
#[derive(Debug)]
pub struct HeldList {
    pub held: HeldBytes,
    pub path: PathBuf,
}

impl ReplacedItem {
    /// Starts adding up the bytes this quarantine is holding.
    pub fn bytes(&self) -> (held: HeldBytes)
        ensures
            held.pending@ == seq![self.quarantine],
            held.total == 0,
    {
        let mut pending: Vec<PathBuf> = Vec::new();
        pending.push(self.quarantine.clone());
        HeldBytes { pending, total: 0 }
    }
}

impl HeldBytes {
    pub fn next(self) -> (step: HeldStep)
        ensures
            match step {
                HeldStep::Total(total) => self.pending@.len() == 0 && total == self.total,
                HeldStep::Inspect(wanted) => self.pending@.len() > 0 && wanted.path
                    == self.pending@.last() && wanted.held.pending@ == self.pending@.drop_last()
                    && wanted.held.total == self.total,
            },
    {
        let HeldBytes { pending, total } = self;
        let mut pending = pending;
        match pending.pop() {
            None => HeldStep::Total(total),
            Some(path) => HeldStep::Inspect(HeldWanted { held: HeldBytes { pending, total }, path }),
        }
    }
}

/// A sum that stops at the largest number there is.
pub open spec fn saturated(total: u64, more: u64) -> u64 {
    if total + more > u64::MAX {
        u64::MAX
    } else {
        (total + more) as u64
    }
}

impl HeldWanted {
    /// Whether `step` is what follows on what is at the path.
    pub open spec fn comes_to(self, found: Option<Metadata>, step: HeldEntryStep) -> bool {
        match found {
            None => step == HeldEntryStep::Next(self.held),
            Some(metadata) => match metadata.kind {
                SnapshotKind::File => step == HeldEntryStep::Next(
                    HeldBytes {
                        pending: self.held.pending,
                        total: saturated(self.held.total, metadata.len),
                    },
                ),
                SnapshotKind::Directory => step == HeldEntryStep::List(
                    HeldList { held: self.held, path: self.path },
                ),
                _ => step == HeldEntryStep::Next(self.held),
            },
        }
    }

    /// What is at the path, if anything is.
    pub fn found(self, found: Option<Metadata>) -> (step: HeldEntryStep)
        ensures
            self.comes_to(found, step),
    {
        let metadata = match found {
            Some(metadata) => metadata,
            None => {
                return HeldEntryStep::Next(self.held);
            },
        };
        if metadata.kind == SnapshotKind::File {
            let HeldBytes { pending, total } = self.held;
            return HeldEntryStep::Next(
                HeldBytes { pending, total: total.saturating_add(metadata.len) },
            );
        }
        if metadata.kind == SnapshotKind::Directory {
            return HeldEntryStep::List(HeldList { held: self.held, path: self.path });
        }
        HeldEntryStep::Next(self.held)
    }
}

impl HeldList {
    /// The names that could be read in the directory.
    pub fn listed(self, children: &Vec<Name>) -> (held: HeldBytes)
        ensures
            held.total == self.held.total,
            models(held.pending@) == models(self.held.pending@) + Seq::new(
                children@.len(),
                |i: int| self.path@.join(children@[i]@),
            ),
    {
        let HeldList { held, path } = self;
        let HeldBytes { pending, total } = held;
        let mut pending = pending;
        let ghost before = models(pending@);
        let ghost added = Seq::new(children@.len(), |i: int| path@.join(children@[i]@));
        let mut i: usize = 0;
        assert(models(pending@) =~= before + added.take(0));
        while i < children.len()
            invariant
                i <= children@.len(),
                added == Seq::new(children@.len(), |k: int| path@.join(children@[k]@)),
                models(pending@) == before + added.take(i as int),
            decreases children.len() - i,
        {
            let ghost earlier = pending@;
            pending.push(path.join(children[i].as_bytes()));
            proof {
                assert(models(pending@) =~= models(earlier).push(added[i as int]));
                assert(added.take(i + 1) =~= added.take(i as int).push(added[i as int]));
            }
            i += 1;
        }
        assert(added.take(children@.len() as int) =~= added);
        HeldBytes { pending, total }
    }
}

/// An object that is to be moved aside.
#[derive(Debug)]
pub struct Quarantining {
    pub path: PathBuf,
    pub parent: PathBuf,
    pub name: Vec<u8>,
    pub expected: ObjectKey,
    /// What the names of this process's quarantines begin with.
    pub prefix: Vec<u8>,
    pub attempts_left: u32,
}

/// A name for the quarantine, about which the filesystem is asked.
#[derive(Debug)]
pub struct CandidateWanted {
    pub quarantining: Quarantining,
    pub candidate: PathBuf,
}

/// What a name for the quarantine turned out to be.
#[derive(Debug)]
pub enum CandidateStep {
    /// It is taken; another is tried.
    Again(Quarantining),
    /// It is free: rename the object to it.
    Rename(AsideWanted),
    Failed(String),
}

/// An object that is to be renamed to `candidate`.
#[derive(Debug)]
pub struct AsideWanted {
    pub path: PathBuf,
    pub candidate: PathBuf,
    pub expected: ObjectKey,
}

/// An object that was moved aside and is to be identified again.
#[derive(Debug)]
pub struct AsideConfirm {
    pub path: PathBuf,
    pub candidate: PathBuf,
    pub expected: ObjectKey,
}

/// Move the object at `path` aside. `found` is what is there, and `prefix` what
/// the names of this process's quarantines begin with.
///
/// The rename is atomic, so the destination is never briefly absent in a way
/// that another writer could occupy, and the displaced object is never
/// destroyed before its replacement is safely published.
pub fn quarantine_for_replacement(path: &PathBuf, prefix: Vec<u8>, found: Lookup) -> (result:
    Result<Quarantining, String>)
    ensures
        match result {
            Ok(quarantining) => {
                &&& quarantining.path == *path
                &&& path@.parent() == Some(quarantining.parent@)
                &&& path@.file_name() == Some(quarantining.name@)
                &&& found matches Lookup::Found(metadata)
                &&& quarantining.expected == metadata.key()
                &&& quarantining.prefix == prefix
                &&& quarantining.attempts_left == RESERVATION_ATTEMPTS
            },
            Err(message) => if path@.parent() is None {
                message@ == "Replacement target has no parent directory"@
            } else if path@.file_name() is None {
                message@ == "Replacement target has no file name"@
            } else {
                !(found is Found) && message@ == located("Could not inspect"@, path.text())
            },
        },
{
    let parent = match path.parent() {
        Some(parent) => parent,
        None => {
            return Err("Replacement target has no parent directory".to_owned());
        },
    };
    let name = match path.file_name() {
        Some(name) => copy_bytes(name),
        None => {
            return Err("Replacement target has no file name".to_owned());
        },
    };
    match FileIdentity::read(path, found) {
        Ok(identity) => Ok(
            Quarantining {
                path: path.clone(),
                parent,
                name,
                expected: identity.key,
                prefix,
                attempts_left: RESERVATION_ATTEMPTS,
            },
        ),
        Err(message) => Err(message),
    }
}

impl Quarantining {
    /// The next name to try. `sequence` is a number not used before.
    pub fn next(self, sequence: u64) -> (result: Result<CandidateWanted, String>)
        ensures
            match result {
                Ok(wanted) => self.attempts_left > 0 && wanted.candidate@ == self.parent@.join(
                    carried_name(self.prefix@, sequence as nat, self.name@),
                ) && wanted.quarantining == (Quarantining {
                    attempts_left: (self.attempts_left - 1) as u32,
                    ..self
                }),
                Err(message) => self.attempts_left == 0 && message@
                    == "Could not reserve a unique replacement quarantine path"@,
            },
    {
        if self.attempts_left == 0 {
            return Err("Could not reserve a unique replacement quarantine path".to_owned());
        }
        let name = quarantined_name(self.prefix.as_slice(), sequence, self.name.as_slice());
        let candidate = self.parent.join(name.as_slice());
        let mut quarantining = self;
        quarantining.attempts_left = quarantining.attempts_left - 1;
        Ok(CandidateWanted { quarantining, candidate })
    }
}

impl CandidateWanted {
    /// What follows from what is at the candidate.
    pub open spec fn follows(self, found: Lookup, step: CandidateStep) -> bool {
        match found {
            Lookup::Found(_) => step == CandidateStep::Again(self.quarantining),
            Lookup::Missing => step == CandidateStep::Rename(
                AsideWanted {
                    path: self.quarantining.path,
                    candidate: self.candidate,
                    expected: self.quarantining.expected,
                },
            ),
            Lookup::Failed(_) => step matches CandidateStep::Failed(message) && message@
                == located("Could not inspect replacement quarantine"@, self.candidate.text()),
        }
    }

    /// What is at the candidate.
    pub fn found(self, found: &Lookup) -> (step: CandidateStep)
        ensures
            self.follows(*found, step),
    {
        match found {
            Lookup::Found(_) => CandidateStep::Again(self.quarantining),
            Lookup::Missing => CandidateStep::Rename(
                AsideWanted {
                    path: self.quarantining.path,
                    candidate: self.candidate,
                    expected: self.quarantining.expected,
                },
            ),
            Lookup::Failed(_) => CandidateStep::Failed(
                at("Could not inspect replacement quarantine", &self.candidate),
            ),
        }
    }
}

impl AsideWanted {
    /// Whether `result` is what moving the entry aside comes to.
    pub open spec fn passes(self, renamed: bool, result: Result<AsideConfirm, String>) -> bool {
        match result {
            Ok(confirm) => renamed && confirm == (AsideConfirm {
                path: self.path,
                candidate: self.candidate,
                expected: self.expected,
            }),
            Err(message) => !renamed && message@ == about(
                "Could not move "@,
                self.path.text(),
                " aside to replace it"@,
            ),
        }
    }

    /// Whether the object was renamed.
    pub fn renamed(self, renamed: bool) -> (result: Result<AsideConfirm, String>)
        ensures
            self.passes(renamed, result),
    {
        if renamed {
            Ok(
                AsideConfirm {
                    path: self.path,
                    candidate: self.candidate,
                    expected: self.expected,
                },
            )
        } else {
            Err(message_about("Could not move ", &self.path, " aside to replace it"))
        }
    }
}

impl AsideConfirm {
    /// What comes of what is at the quarantine now.
    pub open spec fn comes_to(
        self,
        found: Option<Metadata>,
        result: Result<ReplacedItem, String>,
    ) -> bool {
        match result {
            Ok(item) => (found matches Some(metadata) && metadata.key() == self.expected
                && item == (ReplacedItem {
                path: self.path,
                quarantine: self.candidate,
                identity: metadata.identity(),
            })),
            Err(message) => match found {
                None => message@ == about(
                    "Could not inspect "@,
                    self.candidate.text(),
                    " after moving it aside"@,
                ),
                Some(metadata) => metadata.key() != self.expected && message@ == about(
                    ""@,
                    self.path.text(),
                    " changed while being moved aside to replace it"@,
                ),
            },
        }
    }

    /// What is now at the quarantine.
    ///
    /// The rename moved the object's time of last change, so the identity has
    /// to be read again rather than carried over. Device and inode survive a
    /// rename, so they prove this is still the object that was moved and not
    /// something that took its place.
    pub fn found(self, found: Option<Metadata>) -> (result: Result<ReplacedItem, String>)
        ensures
            self.comes_to(found, result),
    {
        let identity = match found {
            Some(metadata) => FileIdentity::of(&metadata),
            None => {
                return Err(
                    message_about("Could not inspect ", &self.candidate, " after moving it aside"),
                );
            },
        };
        if identity.key != self.expected {
            return Err(
                message_about("", &self.path, " changed while being moved aside to replace it"),
            );
        }
        Ok(ReplacedItem { path: self.path, quarantine: self.candidate, identity })
    }
}

/// Originals a restoration could not put back, and the failure that stopped it.
#[derive(Debug)]
pub struct UnrestoredItems {
    pub error: String,
    /// Still in quarantine, and so still to be taken care of.
    pub remaining: Vec<ReplacedItem>,
}

/// Displaced objects that are to be put back.
#[derive(Debug)]
pub struct Restoring {
    /// What is left to put back, the next one last.
    pub left: Vec<ReplacedItem>,
}

/// A displaced object about which the filesystem is asked.
#[derive(Debug)]
pub struct QuarantineCheck {
    pub left: Vec<ReplacedItem>,
    pub item: ReplacedItem,
}

/// A displaced object that is to be renamed back.
#[derive(Debug)]
pub struct PutBackWanted {
    pub left: Vec<ReplacedItem>,
    pub item: ReplacedItem,
}

/// Put displaced objects back where they came from.
///
/// Restoration walks in reverse, so the items still in quarantine when it stops
/// are exactly the ones it had not reached yet plus the one that failed. The
/// caller owes those items a home; it cannot treat this as a plain error.
pub fn restore_replaced_items(replaced: Vec<ReplacedItem>) -> (restoring: Restoring)
    ensures
        restoring.left == replaced,
{
    Restoring { left: replaced }
}

impl Restoring {
    /// Whether this is the next object to put back.
    pub open spec fn wants(self, wanted: Option<QuarantineCheck>) -> bool {
        match wanted {
            None => self.left@.len() == 0 && forall|disk: Objects| #[trigger]
                put_back(disk, self.left@) == disk,
            Some(wanted) => self.left@.len() > 0 && wanted.item == self.left@.last()
                && wanted.left@ == self.left@.drop_last() && forall|disk: Objects| #[trigger]
                put_back(disk, self.left@) == put_back(
                    renamed(disk, wanted.item.quarantine@, wanted.item.path@),
                    wanted.left@,
                ),
        }
    }

    /// The next object to put back, if there is one.
    pub fn next(self) -> (wanted: Option<QuarantineCheck>)
        ensures
            self.wants(wanted),
    {
        let mut left = self.left;
        match left.pop() {
            None => None,
            Some(item) => Some(QuarantineCheck { left, item }),
        }
    }
}

/// Everything still in quarantine, the one that failed last.
fn unrestored(left: Vec<ReplacedItem>, item: ReplacedItem, error: String) -> (items:
    UnrestoredItems)
    ensures
        items.error == error,
        items.remaining@ == left@.push(item),
{
    let mut remaining = left;
    remaining.push(item);
    UnrestoredItems { error, remaining }
}

impl QuarantineCheck {
    /// What comes of what is at the quarantine.
    pub open spec fn comes_to(
        self,
        found: Option<Metadata>,
        result: Result<PutBackWanted, UnrestoredItems>,
    ) -> bool {
        match result {
            Ok(wanted) => (found matches Some(metadata) && metadata.identity()
                == self.item.identity) && wanted == (PutBackWanted {
                left: self.left,
                item: self.item,
            }),
            Err(stopped) => !(found matches Some(metadata) && metadata.identity()
                == self.item.identity) && stopped.remaining@ == self.left@.push(self.item)
                && stopped.error@ == refusal(
                self.item.quarantine.text(),
                "restore the replaced item"@,
                found is Some,
            ),
        }
    }

    /// What is at the quarantine.
    pub fn found(self, found: Option<Metadata>) -> (result: Result<PutBackWanted, UnrestoredItems>)
        ensures
            self.comes_to(found, result),
    {
        match self.item.identity.validate(
            &self.item.quarantine,
            "restore the replaced item",
            found,
        ) {
            Ok(_) => Ok(PutBackWanted { left: self.left, item: self.item }),
            Err(error) => Err(unrestored(self.left, self.item, error)),
        }
    }
}

impl PutBackWanted {
    /// What comes of renaming the object back.
    pub open spec fn settles(
        self,
        renamed: bool,
        result: Result<Restoring, UnrestoredItems>,
    ) -> bool {
        match result {
            Ok(restoring) => renamed && restoring.left == self.left,
            Err(stopped) => !renamed && stopped.remaining@ == self.left@.push(self.item)
                && stopped.error@ == about(
                "Could not put "@,
                self.item.path.text(),
                " back after undoing a replacement"@,
            ),
        }
    }

    /// Whether the object was renamed back.
    pub fn renamed(self, renamed: bool) -> (result: Result<Restoring, UnrestoredItems>)
        ensures
            self.settles(renamed, result),
    {
        if renamed {
            return Ok(Restoring { left: self.left });
        }
        let error = message_about(
            "Could not put ",
            &self.item.path,
            " back after undoing a replacement",
        );
        Err(unrestored(self.left, self.item, error))
    }
}

/// An original on its way into recovery storage.
#[derive(Debug)]
pub struct Promoting {
    pub quarantine: PathBuf,
    pub parent: PathBuf,
    pub name: Vec<u8>,
    pub attempts_left: u32,
}

/// An original that is to be renamed to `candidate`.
#[derive(Debug)]
pub struct PromotionWanted {
    pub promoting: Promoting,
    pub candidate: PathBuf,
}

/// What came of renaming an original into recovery storage.
#[derive(Debug)]
pub enum PromotionStep {
    /// Where the data is now.
    Promoted(PathBuf),
    /// The name is taken; another is tried.
    Again(Promoting),
    Failed(String),
}

/// Move a quarantine that could not be restored into recovery storage.
///
/// A plain rename within one directory is about as reliable as a filesystem
/// operation gets; when even this fails, the object keeps its quarantine name
/// and the caller says so, because a message naming the wrong path would be
/// worse than a long one.
pub fn promote_to_recovery(item: &ReplacedItem) -> (result: Result<Promoting, String>)
    ensures
        match result {
            Ok(promoting) => promoting.quarantine == item.quarantine && item.quarantine@.parent()
                == Some(promoting.parent@) && item.path@.file_name() == Some(promoting.name@)
                && promoting.attempts_left == RESERVATION_ATTEMPTS,
            Err(message) => if item.quarantine@.parent() is None {
                message@ == "Quarantined item has no parent directory"@
            } else {
                item.path@.file_name() is None && message@ == "Replaced item has no file name"@
            },
        },
{
    let parent = match item.quarantine.parent() {
        Some(parent) => parent,
        None => {
            return Err("Quarantined item has no parent directory".to_owned());
        },
    };
    match item.path.file_name() {
        Some(name) => Ok(
            Promoting {
                quarantine: item.quarantine.clone(),
                parent,
                name: copy_bytes(name),
                attempts_left: RESERVATION_ATTEMPTS,
            },
        ),
        None => Err("Replaced item has no file name".to_owned()),
    }
}

impl Promoting {
    /// The next name to try. `sequence` is a number not used before.
    pub fn next(self, sequence: u64) -> (result: Result<PromotionWanted, String>)
        ensures
            match result {
                Ok(wanted) => self.attempts_left > 0 && wanted.candidate@ == self.parent@.join(
                    carried_name(recovery_prefix(), sequence as nat, self.name@),
                ) && wanted.promoting == (Promoting {
                    attempts_left: (self.attempts_left - 1) as u32,
                    ..self
                }),
                Err(message) => self.attempts_left == 0 && message@
                    == "Could not reserve a unique recovery path"@,
            },
    {
        if self.attempts_left == 0 {
            return Err("Could not reserve a unique recovery path".to_owned());
        }
        let prefix = recovery_remnant_prefix();
        let name = quarantined_name(prefix.as_slice(), sequence, self.name.as_slice());
        let candidate = self.parent.join(name.as_slice());
        let mut promoting = self;
        promoting.attempts_left = promoting.attempts_left - 1;
        Ok(PromotionWanted { promoting, candidate })
    }
}

impl PromotionWanted {
    /// Whether `step` is what moving the item into recovery comes to.
    pub open spec fn settles(
        self,
        renamed: Result<(), RenameErrorKind>,
        step: PromotionStep,
    ) -> bool {
        match renamed {
            Ok(_) => step == PromotionStep::Promoted(self.candidate),
            Err(RenameErrorKind::AlreadyExists) => step == PromotionStep::Again(self.promoting),
            Err(_) => step matches PromotionStep::Failed(message) && message@ == about(
                "Could not move "@,
                self.promoting.quarantine.text(),
                " into recovery storage"@,
            ),
        }
    }

    /// Whether the object was renamed, or what kept it from being.
    pub fn renamed(self, renamed: Result<(), RenameErrorKind>) -> (step: PromotionStep)
        ensures
            self.settles(renamed, step),
    {
        match renamed {
            Ok(_) => PromotionStep::Promoted(self.candidate),
            Err(RenameErrorKind::AlreadyExists) => PromotionStep::Again(self.promoting),
            Err(_) => PromotionStep::Failed(
                message_about(
                    "Could not move ",
                    &self.promoting.quarantine,
                    " into recovery storage",
                ),
            ),
        }
    }
}

/// Where one original is now, in words.
pub open spec fn whereabouts(item: ReplacedItem, promoted: Result<PathBuf, String>) -> Seq<char> {
    match promoted {
        Ok(recovery) => about(
            ""@,
            item.path.text(),
            about(" is preserved at "@, recovery.text(), ""@),
        ),
        Err(failure) => about(
            ""@,
            item.path.text(),
            about(" remains at "@, item.quarantine.text(), " ("@ + failure@ + ")"@),
        ),
    }
}

/// `{error}; your original {first}; your original {second}` and so on.
pub open spec fn preserved_note(
    error: Seq<char>,
    remaining: Seq<ReplacedItem>,
    promoted: Seq<Result<PathBuf, String>>,
) -> Seq<char>
    decreases remaining.len(),
{
    if remaining.len() == 0 {
        error
    } else {
        preserved_note(error, remaining.drop_last(), promoted) + "; your original "@ + whereabouts(
            remaining.last(),
            promoted[remaining.len() - 1],
        )
    }
}

fn whereabouts_note(item: &ReplacedItem, promoted: &Result<PathBuf, String>) -> (note: String)
    ensures
        note@ == whereabouts(*item, *promoted),
{
    match promoted {
        Ok(recovery) => {
            let rest = message_about(" is preserved at ", recovery, "");
            message_about("", &item.path, rest.as_str())
        },
        Err(failure) => {
            let mut reason = " (".to_owned();
            reason.append(failure.as_str());
            reason.append(")");
            let rest = message_about(" remains at ", &item.quarantine, reason.as_str());
            message_about("", &item.path, rest.as_str())
        },
    }
}

/// Make every original a restoration could not put back findable again, and
/// say where each one is. `promoted` says what came of moving each of them into
/// recovery storage.
///
/// This is the whole difference between a failed rollback and data loss. The
/// object is sitting in storage named for undo, which a later process is
/// entitled to reclaim once this one is gone; moving it into recovery storage
/// takes it out of that sweep's reach and puts it where the browser points the
/// user at it.
pub fn preserve_unrestored(
    unrestored: UnrestoredItems,
    promoted: &Vec<Result<PathBuf, String>>,
) -> (message: String)
    requires
        promoted@.len() == unrestored.remaining@.len(),
        unrestored.remaining@.len() > 0,
    ensures
        message@ == preserved_note(unrestored.error@, unrestored.remaining@, promoted@),
{
    let mut message = unrestored.error.clone();
    let mut i: usize = 0;
    let ghost remaining = unrestored.remaining@;
    assert(remaining.take(0) =~= Seq::empty());
    while i < unrestored.remaining.len()
        invariant
            i <= unrestored.remaining@.len(),
            remaining == unrestored.remaining@,
            promoted@.len() == remaining.len(),
            message@ == preserved_note(
                unrestored.error@,
                remaining.take(i as int),
                promoted@,
            ),
        decreases unrestored.remaining.len() - i,
    {
        message.append("; your original ");
        let note = whereabouts_note(&unrestored.remaining[i], &promoted[i]);
        message.append(note.as_str());
        proof {
            assert(remaining.take(i + 1).drop_last() =~= remaining.take(i as int));
            assert(remaining.take(i + 1).last() == remaining[i as int]);
        }
        i += 1;
    }
    assert(remaining.take(i as int) =~= remaining);
    message
}

} // verus!
