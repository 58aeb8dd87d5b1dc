//! Moving one root aside under a quarantine name, proving it is still the same
//! object on both sides of the rename.
//!
//! Every refusal here carries its cause: `{what}: {why}`.

use vstd::prelude::*;

use crate::fsops::identity::{about, message_about, Metadata, ObjectKey};
use crate::fsops::local::{
    at, carried_name, diagnose_rename, located, quarantined_name, rename_diagnosis, Lookup,
    RenameError,
};
use crate::fsops::mutations::{working_name_prefix, working_prefix_bytes};
use crate::fsops::quarantine::RESERVATION_ATTEMPTS;
use crate::path::{copy_bytes, push_bytes, PathBuf};
use crate::text::{decimal_bytes, decimal_digits};

verus! {

/// `{what}: {why}`
pub open spec fn caused(what: Seq<char>, why: Seq<char>) -> Seq<char> {
    what + ": "@ + why
}

fn with_cause(what: String, why: &str) -> (text: String)
    ensures
        text@ == caused(what@, why@),
{
    let mut text = what;
    text.append(": ");
    text.append(why);
    text
}

/// `.marcel-delete-<pid>-`
pub open spec fn delete_prefix(process: nat) -> Seq<u8> {
    working_name_prefix() + seq![100u8, 101, 108, 101, 116, 101, 45] + decimal_bytes(process)
        + seq![45u8]
}

fn delete_prefix_bytes(process: u32) -> (prefix: Vec<u8>)
    ensures
        prefix@ == delete_prefix(process as nat),
{
    let mut prefix = working_prefix_bytes();
    let word: Vec<u8> = vec![100, 101, 108, 101, 116, 101, 45];
    assert(word@ =~= seq![100u8, 101, 108, 101, 116, 101, 45]);
    push_bytes(&mut prefix, word.as_slice());
    let digits = decimal_digits(process as u64);
    push_bytes(&mut prefix, digits.as_slice());
    prefix.push(45);
    assert(prefix@ =~= delete_prefix(process as nat));
    prefix
}

/// A root that is to be moved aside.
#[derive(Debug)]
pub struct StageRoot {
    pub original: PathBuf,
    /// The object the caller approved, where it approved one.
    pub expected: Option<ObjectKey>,
}

/// Why a root is not staged, and whether it left its path on the way.
#[derive(Debug)]
pub struct StageFailure {
    pub message: String,
    pub touched: bool,
}

impl StageFailure {
    /// A root that was refused before anything was renamed.
    pub fn refused(message: String) -> (failure: StageFailure)
        ensures
            failure.message == message,
            !failure.touched,
    {
        StageFailure { message, touched: false }
    }
}

/// What moving a root aside wants first.
#[derive(Debug)]
pub enum StageStep {
    /// Ask whether the path overlaps a system Trash.
    CheckTrash(TrashCheck),
    /// Look at the root.
    Inspect(StageInspect),
}

/// A root of which it is not known whether it overlaps a system Trash.
#[derive(Debug)]
pub struct TrashCheck {
    pub root: StageRoot,
}

/// A root that is to be looked at.
#[derive(Debug)]
pub struct StageInspect {
    pub root: StageRoot,
}

/// A root for which a quarantine name is sought.
#[derive(Debug)]
pub struct Reserving {
    pub original: PathBuf,
    pub key: ObjectKey,
    pub parent: PathBuf,
    pub name: Vec<u8>,
    pub prefix: Vec<u8>,
    pub attempts_left: u32,
}

/// A quarantine name about which the filesystem is asked.
#[derive(Debug)]
pub struct ReserveWanted {
    pub reserving: Reserving,
    pub candidate: PathBuf,
}

/// What a quarantine name turned out to be.
#[derive(Debug)]
pub enum ReserveStep {
    Again(Reserving),
    Ready(StageReady),
    Failed(String),
}

/// A root that is to be validated once more.
#[derive(Debug)]
pub struct StageReady {
    pub original: PathBuf,
    pub key: ObjectKey,
    pub quarantine: PathBuf,
}

/// A root that is to be renamed.
#[derive(Debug)]
pub struct StageRename {
    pub original: PathBuf,
    pub key: ObjectKey,
    pub quarantine: PathBuf,
}

/// A renamed root that is to be validated at its new path.
#[derive(Debug)]
pub struct StageVerify {
    pub original: PathBuf,
    pub key: ObjectKey,
    pub quarantine: PathBuf,
}

/// A root that is to be renamed back, because it is not the one that was meant.
#[derive(Debug)]
pub struct StagePutBack {
    pub original: PathBuf,
    pub quarantine: PathBuf,
    /// What is wrong, in short and with its cause.
    pub refusal: String,
    pub full_refusal: String,
}

/// What verifying a renamed root gave.
#[derive(Debug)]
pub enum VerifyStep {
    /// The root is staged there.
    Staged(PathBuf),
    PutBack(StagePutBack),
}

/// Starts moving one root aside.
pub fn stage_root(original: &PathBuf, expected: Option<ObjectKey>, allow_trash_backings: bool) -> (
    step: StageStep)
    ensures
        if allow_trash_backings {
            step == StageStep::Inspect(
                StageInspect { root: StageRoot { original: *original, expected } },
            )
        } else {
            step == StageStep::CheckTrash(
                TrashCheck { root: StageRoot { original: *original, expected } },
            )
        },
{
    let root = StageRoot { original: original.clone(), expected };
    if allow_trash_backings {
        StageStep::Inspect(StageInspect { root })
    } else {
        StageStep::CheckTrash(TrashCheck { root })
    }
}

impl TrashCheck {
    /// What comes of whether the root overlaps a Trash.
    pub open spec fn passes(
        self,
        overlaps: Result<bool, String>,
        result: Result<StageInspect, String>,
    ) -> bool {
        match overlaps {
            Ok(true) => result matches Err(message) && message@ == about(
                "Refusing to permanently delete "@,
                self.root.original.text(),
                " because it is inside or contains a system Trash"@,
            ),
            Ok(false) => result == Ok::<StageInspect, String>(StageInspect { root: self.root }),
            Err(why) => result == Err::<StageInspect, String>(why),
        }
    }

    /// Whether the path overlaps a system Trash, or why that is not known.
    pub fn overlaps(self, overlaps: Result<bool, String>) -> (result: Result<StageInspect, String>)
        ensures
            self.passes(overlaps, result),
    {
        match overlaps {
            Ok(overlaps) => if overlaps {
                Err(
                    message_about(
                        "Refusing to permanently delete ",
                        &self.root.original,
                        " because it is inside or contains a system Trash",
                    ),
                )
            } else {
                Ok(StageInspect { root: self.root })
            },
            Err(why) => Err(why),
        }
    }
}

/// Why a root that was looked at cannot be staged, if it cannot.
pub open spec fn stage_refusal(root: StageRoot, found: Result<Metadata, String>) -> Option<
    Seq<char>,
> {
    match found {
        Err(why) => Some(caused(located("Could not inspect"@, root.original.text()), why@)),
        Ok(metadata) => if root.original@.file_name() is None {
            Some("Refusing to permanently delete a filesystem root"@)
        } else if root.expected is Some && root.expected != Some(metadata.key()) {
            Some(
                about(
                    "Cannot permanently delete "@,
                    root.original.text(),
                    ": it changed or was replaced since it was checked"@,
                ),
            )
        } else {
            None
        },
    }
}

impl StageInspect {
    /// What comes of what is at the root.
    pub open spec fn passes(
        self,
        found: Result<Metadata, String>,
        process: u32,
        result: Result<Reserving, String>,
    ) -> bool {
        match result {
            Ok(reserving) => {
                &&& stage_refusal(self.root, found) is None
                &&& found matches Ok(metadata)
                &&& reserving.original == self.root.original
                &&& reserving.key == metadata.key()
                &&& self.root.original@.parent() == Some(reserving.parent@)
                &&& self.root.original@.file_name() == Some(reserving.name@)
                &&& reserving.prefix@ == delete_prefix(process as nat)
                &&& reserving.attempts_left == RESERVATION_ATTEMPTS
            },
            Err(message) => stage_refusal(self.root, found) == Some(message@),
        }
    }

    /// What is at the path, or what the system said. `process` is the number
    /// of this process.
    pub fn found(self, found: Result<Metadata, String>, process: u32) -> (result: Result<
        Reserving,
        String,
    >)
        ensures
            self.passes(found, process, result),
    {
        let StageRoot { original, expected } = self.root;
        let metadata = match found {
            Ok(metadata) => metadata,
            Err(why) => {
                return Err(with_cause(at("Could not inspect", &original), why.as_str()));
            },
        };
        let name = match original.file_name() {
            Some(name) => copy_bytes(name),
            None => {
                return Err("Refusing to permanently delete a filesystem root".to_owned());
            },
        };
        let key = ObjectKey::of(&metadata);
        match expected {
            Some(recorded) => {
                if recorded != key {
                    return Err(
                        message_about(
                            "Cannot permanently delete ",
                            &original,
                            ": it changed or was replaced since it was checked",
                        ),
                    );
                }
            },
            None => {},
        }
        let prefix = delete_prefix_bytes(process);
        match original.parent() {
            Some(parent) => Ok(
                Reserving {
                    original,
                    key,
                    parent,
                    name,
                    prefix,
                    attempts_left: RESERVATION_ATTEMPTS,
                },
            ),
            None => Err("Delete target has no parent".to_owned()),
        }
    }
}

impl Reserving {
    /// Whether `result` is the next name that is tried.
    pub open spec fn offers(self, sequence: u64, result: Result<ReserveWanted, String>) -> bool {
        match result {
            Ok(wanted) => self.attempts_left > 0 && wanted.candidate@ == self.parent@.join(
                carried_name(self.prefix@, sequence as nat, self.name@),
            ) && wanted.reserving == (Reserving {
                attempts_left: (self.attempts_left - 1) as u32,
                ..self
            }),
            Err(message) => self.attempts_left == 0 && message@
                == "Could not reserve a unique permanent-delete quarantine path"@,
        }
    }

    /// The next name to try. `sequence` is a number not used before.
    pub fn reserve_quarantine_path(self, sequence: u64) -> (result: Result<ReserveWanted, String>)
        ensures
            self.offers(sequence, result),
    {
        if self.attempts_left == 0 {
            return Err("Could not reserve a unique permanent-delete quarantine path".to_owned());
        }
        let name = quarantined_name(self.prefix.as_slice(), sequence, self.name.as_slice());
        let candidate = self.parent.join(name.as_slice());
        let mut reserving = self;
        reserving.attempts_left = reserving.attempts_left - 1;
        Ok(ReserveWanted { reserving, candidate })
    }
}

impl ReserveWanted {
    /// What follows from what is at the candidate.
    pub open spec fn follows(self, found: Lookup, step: ReserveStep) -> bool {
        match found {
            Lookup::Found(_) => step == ReserveStep::Again(self.reserving),
            Lookup::Missing => step == ReserveStep::Ready(
                StageReady {
                    original: self.reserving.original,
                    key: self.reserving.key,
                    quarantine: self.candidate,
                },
            ),
            Lookup::Failed(why) => step matches ReserveStep::Failed(message) && message@
                == caused(
                located("Could not inspect quarantine path"@, self.candidate.text()),
                why@,
            ),
        }
    }

    /// What is at the candidate.
    pub fn found(self, found: &Lookup) -> (step: ReserveStep)
        ensures
            self.follows(*found, step),
    {
        match found {
            Lookup::Found(_) => ReserveStep::Again(self.reserving),
            Lookup::Missing => ReserveStep::Ready(
                StageReady {
                    original: self.reserving.original,
                    key: self.reserving.key,
                    quarantine: self.candidate,
                },
            ),
            Lookup::Failed(why) => ReserveStep::Failed(
                with_cause(at("Could not inspect quarantine path", &self.candidate), why.as_str()),
            ),
        }
    }
}

/// Why what is at a path is not the object that is meant, in short.
pub open spec fn not_the_object(
    key: ObjectKey,
    path: Seq<u8>,
    found: Result<Metadata, String>,
) -> Option<Seq<char>> {
    match found {
        Err(_) => Some(about("Cannot continue: "@, path, " is missing"@)),
        Ok(metadata) => if metadata.key() != key {
            Some(about("Cannot continue: "@, path, " changed or was replaced"@))
        } else {
            None
        },
    }
}

/// Why what is at a path is not the object that is meant, with its cause.
pub open spec fn not_the_object_because(
    key: ObjectKey,
    path: Seq<u8>,
    found: Result<Metadata, String>,
) -> Option<Seq<char>> {
    match found {
        Err(why) => Some(caused(about("Cannot continue: "@, path, " is missing"@), why@)),
        Ok(_) => not_the_object(key, path, found),
    }
}

/// A refusal in short, and with its cause.
struct Refusal {
    short: String,
    full: String,
}

fn validate_object(key: ObjectKey, path: &PathBuf, found: Result<Metadata, String>) -> (verdict:
    Result<(), Refusal>)
    ensures
        match verdict {
            Ok(_) => not_the_object(key, path.text(), found) is None,
            Err(refusal) => not_the_object(key, path.text(), found) == Some(refusal.short@)
                && not_the_object_because(key, path.text(), found) == Some(refusal.full@),
        },
{
    match found {
        Err(why) => {
            let short = message_about("Cannot continue: ", path, " is missing");
            let full = with_cause(short.clone(), why.as_str());
            Err(Refusal { short, full })
        },
        Ok(metadata) => match key.validate(path, Some(metadata)) {
            Ok(_) => Ok(()),
            Err(short) => Err(Refusal { full: short.clone(), short }),
        },
    }
}

/// A root that could not be staged, and why.
pub open spec fn not_staged(original: Seq<u8>, why: Seq<char>) -> Seq<char> {
    caused(about("Could not safely stage "@, original, " for permanent deletion"@), why)
}

fn not_staged_message(original: &PathBuf, why: &str) -> (message: String)
    ensures
        message@ == not_staged(original.text(), why@),
{
    with_cause(
        message_about("Could not safely stage ", original, " for permanent deletion"),
        why,
    )
}

impl StageReady {
    /// What comes of looking at the root again.
    pub open spec fn passes(
        self,
        found: Result<Metadata, String>,
        result: Result<StageRename, String>,
    ) -> bool {
        match result {
            Ok(rename) => not_the_object(self.key, self.original.text(), found) is None && rename
                == (StageRename {
                original: self.original,
                key: self.key,
                quarantine: self.quarantine,
            }),
            Err(message) => not_the_object_because(self.key, self.original.text(), found) matches
                Some(why) && message@ == not_staged(self.original.text(), why),
        }
    }

    /// What is at the original path, or what the system said.
    pub fn validated(self, found: Result<Metadata, String>) -> (result: Result<StageRename, String>)
        ensures
            self.passes(found, result),
    {
        match validate_object(self.key, &self.original, found) {
            Ok(_) => Ok(
                StageRename {
                    original: self.original,
                    key: self.key,
                    quarantine: self.quarantine,
                },
            ),
            Err(refusal) => Err(not_staged_message(&self.original, refusal.full.as_str())),
        }
    }
}

impl StageRename {
    /// Whether `result` is what moving the root aside comes to.
    pub open spec fn passes(
        self,
        renamed: Result<(), RenameError>,
        result: Result<StageVerify, String>,
    ) -> bool {
        match renamed {
            Ok(_) => result == Ok::<StageVerify, String>(
                StageVerify {
                    original: self.original,
                    key: self.key,
                    quarantine: self.quarantine,
                },
            ),
            Err(error) => result matches Err(message) && message@ == not_staged(
                self.original.text(),
                rename_diagnosis(error, self.quarantine.text()),
            ),
        }
    }

    /// Whether the root was renamed to its quarantine.
    pub fn renamed(self, renamed: Result<(), RenameError>) -> (result: Result<StageVerify, String>)
        ensures
            self.passes(renamed, result),
    {
        match renamed {
            Ok(_) => Ok(
                StageVerify {
                    original: self.original,
                    key: self.key,
                    quarantine: self.quarantine,
                },
            ),
            Err(error) => {
                let why = diagnose_rename(&error, &self.quarantine);
                Err(not_staged_message(&self.original, why.as_str()))
            },
        }
    }
}

impl StageVerify {
    /// What follows from what is at the quarantine.
    pub open spec fn follows(self, found: Result<Metadata, String>, step: VerifyStep) -> bool {
        match not_the_object(self.key, self.quarantine.text(), found) {
            None => step == VerifyStep::Staged(self.quarantine),
            Some(short) => step matches VerifyStep::PutBack(back) && back.original
                == self.original && back.quarantine == self.quarantine && back.refusal@
                == short && not_the_object_because(self.key, self.quarantine.text(), found) == Some(
                back.full_refusal@,
            ),
        }
    }

    /// What is at the quarantine, or what the system said.
    pub fn found(self, found: Result<Metadata, String>) -> (step: VerifyStep)
        ensures
            self.follows(found, step),
    {
        match validate_object(self.key, &self.quarantine, found) {
            Ok(_) => VerifyStep::Staged(self.quarantine),
            Err(refusal) => VerifyStep::PutBack(
                StagePutBack {
                    original: self.original,
                    quarantine: self.quarantine,
                    refusal: refusal.short,
                    full_refusal: refusal.full,
                },
            ),
        }
    }
}

impl StagePutBack {
    /// Why the root is not staged, once it was renamed back or was not.
    pub fn renamed(self, renamed: Result<(), RenameError>) -> (failure: StageFailure)
        ensures
            failure.touched,
            failure.message@ == not_staged(
                self.original.text(),
                match renamed {
                    Ok(_) => self.full_refusal@,
                    Err(error) => self.refusal@ + "; staging rollback also failed: "@
                        + rename_diagnosis(error, self.original.text()),
                },
            ),
    {
        let message = match renamed {
            Ok(_) => not_staged_message(&self.original, self.full_refusal.as_str()),
            Err(error) => {
                let mut why = self.refusal.clone();
                why.append("; staging rollback also failed: ");
                let diagnosis = diagnose_rename(&error, &self.original);
                why.append(diagnosis.as_str());
                not_staged_message(&self.original, why.as_str())
            },
        };
        StageFailure { message, touched: true }
    }
}

} // verus!
