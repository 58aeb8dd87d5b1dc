//! Releasing the working state of processes that are gone.

use vstd::prelude::*;
use vstd::utf8::encode_utf8;

use crate::fsops::identity::{FileIdentity, Metadata};
use crate::fsops::journal::ReplacedItem;
use crate::fsops::local::Name;
use crate::fsops::working::{
    abandoned, erase_quarantined_object, owner_of, working_owner, BootId, Erasure, WorkingOwner,
};
use crate::path::{copy_bytes, parsed, push_bytes, PathBuf};
use crate::text::{decimal_bytes, decimal_digits};

verus! {

/// How a displaced item is to be released, because nothing can restore it any
/// more, given what is in quarantine now.
///
/// The path alone does not justify the deletion. It was created by an atomic
/// rename under a process-namespaced name, which proves who held it *then*;
/// eviction happens arbitrarily later, and another process is free to remove
/// that quarantine and leave something else at the same name. The recorded
/// identity is what makes this safe, so a mismatch leaves the object alone.
pub fn erase_replacement_quarantine(item: &ReplacedItem, found: Option<Metadata>) -> (erasure:
    Erasure)
    ensures
        erasure is Leave <==> !(found matches Some(metadata) && metadata.identity()
            == item.identity),
        erasure is RemoveTree <==> (found matches Some(metadata) && metadata.identity()
            == item.identity && metadata.kind is Directory),
{
    erase_quarantined_object(&item.identity, found)
}

/// A sweep over one directory.
#[derive(Debug)]
pub struct Sweep {
    pub directory: PathBuf,
    pub boot: BootId,
    /// The process that sweeps.
    pub process: u32,
    pub names: Vec<Name>,
    /// How many of the names were gone through.
    pub done: usize,
    /// How many things were released.
    pub released: usize,
}

/// What a sweep wants next.
#[derive(Debug)]
pub enum SweepStep {
    /// Find out whether an owner is still running.
    Owner(OwnerWanted),
    /// This name is nobody's working state.
    Next(Sweep),
    /// How many things were released.
    Finished(usize),
}

/// The sweep waits to know whether the owner of an entry is still running.
#[derive(Debug)]
pub struct OwnerWanted {
    pub sweep: Sweep,
    pub path: PathBuf,
    pub owner: WorkingOwner,
}

/// An entry whose metadata is wanted.
#[derive(Debug)]
pub struct ScanWanted {
    pub sweep: Sweep,
    pub path: PathBuf,
}

/// What scanning an entry wants.
#[derive(Debug)]
pub enum OwnerStep {
    Scan(ScanWanted),
    /// The entry may still be wanted.
    Next(Sweep),
}

/// An entry that is to be looked at once more before it is erased.
#[derive(Debug)]
pub struct EraseCheck {
    pub sweep: Sweep,
    pub path: PathBuf,
    pub expected: FileIdentity,
}

/// An entry that is to be removed.
#[derive(Debug)]
pub struct EraseEntry {
    pub sweep: Sweep,
    pub path: PathBuf,
    /// Whether it is a directory, removed with everything in it.
    pub tree: bool,
}

/// What is left to be asked of an entry.
#[derive(Debug)]
pub enum ScanStep {
    Check(EraseCheck),
    Next(Sweep),
}

/// What is to be done with an entry.
#[derive(Debug)]
pub enum CheckStep {
    Erase(EraseEntry),
    Next(Sweep),
}

/// Where the system shows a process while it runs: `/proc/{process}`.
///
/// A live owner's working state is its own business, and an unknown answer
/// keeps the file.
pub fn process_entry(process: u32) -> (entry: PathBuf)
    ensures
        entry@ == parsed(encode_utf8("/proc/"@) + decimal_bytes(process as nat)),
{
    let mut text: Vec<u8> = copy_bytes("/proc/".as_bytes());
    let digits = decimal_digits(process as u64);
    push_bytes(&mut text, digits.as_slice());
    PathBuf::from_bytes(text.as_slice())
}

/// Starts releasing working state abandoned by processes that are gone:
/// replacement quarantines, and copy and archive staging. A directory that
/// cannot be read has no names.
///
/// This needs no user involvement. A replaced file is one the user chose to
/// overwrite, and once the process holding its record is gone nothing can ever
/// restore it. Staging is the unfinished output of a copy or extraction whose
/// source is still where it was.
pub fn reclaim_abandoned_quarantines(
    directory: PathBuf,
    names: Vec<Name>,
    boot: BootId,
    process: u32,
) -> (sweep: Sweep)
    ensures
        sweep == (Sweep { directory, boot, process, names, done: 0, released: 0 }),
{
    Sweep { directory, boot, process, names, done: 0, released: 0 }
}

impl Sweep {
    /// Whether this is what the sweep wants next.
    pub open spec fn wants(self, step: SweepStep) -> bool {
        if self.done >= self.names@.len() {
            step == SweepStep::Finished(self.released)
        } else {
            let after = Sweep { done: (self.done + 1) as usize, ..self };
            match owner_of(self.names@[self.done as int]@) {
                Some(owner) => step matches SweepStep::Owner(wanted) && wanted.sweep == after
                    && wanted.owner@ == owner && wanted.path@ == self.directory@.join(
                    self.names@[self.done as int]@,
                ),
                None => step == SweepStep::Next(after),
            }
        }
    }

    pub fn next(self) -> (step: SweepStep)
        ensures
            self.wants(step),
    {
        if self.done >= self.names.len() {
            return SweepStep::Finished(self.released);
        }
        let name = self.names[self.done].as_bytes();
        let owner = working_owner(name);
        let path = self.directory.join(name);
        let mut sweep = self;
        sweep.done = sweep.done + 1;
        match owner {
            Some(owner) => SweepStep::Owner(OwnerWanted { sweep, path, owner }),
            None => SweepStep::Next(sweep),
        }
    }
}

impl OwnerWanted {
    /// What follows from whether the owner is still running.
    pub open spec fn follows(self, running: bool, step: OwnerStep) -> bool {
        if abandoned(
            self.owner@,
            self.sweep.boot@,
            self.sweep.process as int,
            running,
        ) {
            step == OwnerStep::Scan(ScanWanted { sweep: self.sweep, path: self.path })
        } else {
            step == OwnerStep::Next(self.sweep)
        }
    }

    /// Whether the owner is still running.
    pub fn running(self, running: bool) -> (step: OwnerStep)
        ensures
            self.follows(running, step),
    {
        if self.owner.is_abandoned(&self.sweep.boot, self.sweep.process, running) {
            return OwnerStep::Scan(ScanWanted { sweep: self.sweep, path: self.path });
        }
        OwnerStep::Next(self.sweep)
    }
}

impl ScanWanted {
    /// What follows from what the entry is.
    pub open spec fn follows(self, scanned: Option<Metadata>, step: ScanStep) -> bool {
        match scanned {
            Some(metadata) => step == ScanStep::Check(
                EraseCheck {
                    sweep: self.sweep,
                    path: self.path,
                    expected: metadata.identity(),
                },
            ),
            None => step == ScanStep::Next(self.sweep),
        }
    }

    /// What the entry is. No record survives to say what it was, so the
    /// identity read while scanning stands in for one.
    pub fn scanned(self, scanned: Option<Metadata>) -> (step: ScanStep)
        ensures
            self.follows(scanned, step),
    {
        match scanned {
            Some(metadata) => ScanStep::Check(
                EraseCheck {
                    sweep: self.sweep,
                    path: self.path,
                    expected: FileIdentity::of(&metadata),
                },
            ),
            None => ScanStep::Next(self.sweep),
        }
    }
}

impl EraseCheck {
    /// What follows from what is at the path now.
    pub open spec fn follows(self, found: Option<Metadata>, step: CheckStep) -> bool {
        match found {
            Some(metadata) if metadata.identity() == self.expected => step == CheckStep::Erase(
                EraseEntry {
                    sweep: self.sweep,
                    path: self.path,
                    tree: metadata.kind is Directory,
                },
            ),
            _ => step == CheckStep::Next(self.sweep),
        }
    }

    /// What is at the path now.
    pub fn found(self, found: Option<Metadata>) -> (step: CheckStep)
        ensures
            self.follows(found, step),
    {
        match erase_quarantined_object(&self.expected, found) {
            Erasure::Leave => CheckStep::Next(self.sweep),
            Erasure::RemoveTree => CheckStep::Erase(
                EraseEntry { sweep: self.sweep, path: self.path, tree: true },
            ),
            Erasure::RemoveFile => CheckStep::Erase(
                EraseEntry { sweep: self.sweep, path: self.path, tree: false },
            ),
        }
    }
}

impl EraseEntry {
    /// Whether it was removed.
    pub fn removed(self, removed: bool) -> (sweep: Sweep)
        ensures
            sweep == (Sweep {
                released: if removed && self.sweep.released < usize::MAX {
                    (self.sweep.released + 1) as usize
                } else {
                    self.sweep.released
                },
                ..self.sweep
            }),
    {
        let mut sweep = self.sweep;
        if removed && sweep.released < usize::MAX {
            sweep.released = sweep.released + 1;
        }
        sweep
    }
}

} // verus!
