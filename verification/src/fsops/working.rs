//! The names of working files, and who made them.
//!
//! Every kind is named `.marcel-<kind>-<boot>-<pid>-<sequence>-<rest>`. The
//! process id lets a later process tell its own live working state from what a
//! dead process abandoned. The boot id is what makes that rule safe to act on:
//! process ids are only meaningful within one boot, and a name can arrive from
//! anywhere — a backup restored mid-operation, a folder synchronized from
//! another machine, an archive made from a folder that had one. A name from
//! another boot is never hidden, so it cannot become invisible garbage.

use vstd::prelude::*;
use vstd::utf8::{is_ascii_chars_encode_utf8, valid_utf8};

use crate::fsops::identity::{FileIdentity, Metadata};
use crate::fsops::local::carried_name;
use crate::fsops::mutations::{begins_with, name_refusal, working_name_prefix};
use crate::path::{copy_bytes, push_bytes, same_bytes};
use crate::text::{
    decimal_bytes, decimal_digits, find_byte, is_digit, lemma_parse_reverses_decimal,
    parse_number, parsed_number, strict,
};

verus! {

/// What is kept in a working file or directory.
#[derive(Clone, Copy, Debug, PartialEq, Eq, Structural)]
pub enum WorkingKind {
    /// An object a replacement displaced, held so undo can put it back. The
    /// rest of the name is the original's.
    Replaced,
    /// A copy's output, private until one rename publishes it. The rest of
    /// the name is a random suffix.
    Copy,
    /// An archive's extracted or created output, likewise.
    Archive,
}

impl WorkingKind {
    /// What names of this kind begin with: `.marcel-<kind>-`.
    pub open spec fn prefix_bytes(self) -> Seq<u8> {
        match self {
            // replaced-
            WorkingKind::Replaced => working_name_prefix() + seq![
                114u8, 101, 112, 108, 97, 99, 101, 100, 45,
            ],
            // copy-
            WorkingKind::Copy => working_name_prefix() + seq![99u8, 111, 112, 121, 45],
            // archive-
            WorkingKind::Archive => working_name_prefix() + seq![
                97u8, 114, 99, 104, 105, 118, 101, 45,
            ],
        }
    }

    pub fn prefix(self) -> (prefix: Vec<u8>)
        ensures
            prefix@ == self.prefix_bytes(),
    {
        match self {
            WorkingKind::Replaced => {
                let prefix: Vec<u8> =
                    vec![
                    46, 109, 97, 114, 99, 101, 108, 45, 114, 101, 112, 108, 97, 99, 101, 100, 45,
                ];
                assert(prefix@ =~= self.prefix_bytes());
                prefix
            },
            WorkingKind::Copy => {
                let prefix: Vec<u8> = vec![46, 109, 97, 114, 99, 101, 108, 45, 99, 111, 112, 121, 45];
                assert(prefix@ =~= self.prefix_bytes());
                prefix
            },
            WorkingKind::Archive => {
                let prefix: Vec<u8> =
                    vec![
                    46, 109, 97, 114, 99, 101, 108, 45, 97, 114, 99, 104, 105, 118, 101, 45,
                ];
                assert(prefix@ =~= self.prefix_bytes());
                prefix
            },
        }
    }
}

/// How many hexadecimal digits name a boot.
pub const BOOT_ID_LENGTH: usize = 32;

/// Whether a byte is a hexadecimal digit.
pub open spec fn is_hex(byte: u8) -> bool {
    is_digit(byte) || 97 <= byte <= 102 || 65 <= byte <= 70
}

/// Whether every byte is a hexadecimal digit.
pub open spec fn all_hex(bytes: Seq<u8>) -> bool {
    forall|i: int| 0 <= i < bytes.len() ==> is_hex(#[trigger] bytes[i])
}

fn hexadecimal(byte: u8) -> (yes: bool)
    ensures
        yes == is_hex(byte),
{
    (byte >= 48 && byte <= 57) || (byte >= 97 && byte <= 102) || (byte >= 65 && byte <= 70)
}

/// One boot of the machine: 32 hexadecimal digits.
#[derive(Debug)]
pub struct BootId {
    digits: Vec<u8>,
}

impl View for BootId {
    type V = Seq<u8>;

    closed spec fn view(&self) -> Seq<u8> {
        self.digits@
    }
}

/// The hexadecimal digits of a text.
pub open spec fn hex_digits(text: Seq<u8>) -> Seq<u8> {
    text.filter(|byte: u8| is_hex(byte))
}

/// The boot a text names. What is not UTF-8 is no text.
pub open spec fn boot_named(text: Option<Seq<u8>>) -> Seq<u8> {
    match text {
        Some(text) if valid_utf8(text) && hex_digits(text).len() == BOOT_ID_LENGTH => hex_digits(
            text,
        ),
        _ => Seq::new(BOOT_ID_LENGTH as nat, |i: int| 48u8),
    }
}

/// This boot, as the system names it.
///
/// Where the system does not say, or not in text, every boot reads as the same zero id, which
/// scopes nothing and breaks nothing.
pub fn boot_id(text: Option<&[u8]>) -> (boot: BootId)
    ensures
        boot@ == boot_named(
            match text {
                Some(text) => Some(text@),
                None => None,
            },
        ),
{
    match text {
        Some(text) => {
            let mut digits: Vec<u8> = Vec::new();
            let mut i: usize = 0;
            proof {
                reveal(Seq::filter);
                assert(text@.take(0) =~= Seq::empty());
            }
            while i < text.len()
                invariant
                    i <= text@.len(),
                    digits@ == hex_digits(text@.take(i as int)),
                    all_hex(digits@),
                decreases text.len() - i,
            {
                proof {
                    reveal(Seq::filter);
                    assert(text@.take(i + 1).drop_last() =~= text@.take(i as int));
                    assert(text@.take(i + 1).last() == text@[i as int]);
                }
                if hexadecimal(text[i]) {
                    digits.push(text[i]);
                }
                i += 1;
            }
            assert(text@.take(i as int) =~= text@);
            if digits.len() == BOOT_ID_LENGTH && strict(text).is_some() {
                return BootId { digits };
            }
        },
        None => {},
    }
    let mut digits: Vec<u8> = Vec::new();
    while digits.len() < BOOT_ID_LENGTH
        invariant
            digits@.len() <= BOOT_ID_LENGTH,
            forall|i: int| 0 <= i < digits@.len() ==> #[trigger] digits@[i] == 48u8,
        decreases BOOT_ID_LENGTH - digits.len(),
    {
        digits.push(48);
    }
    assert(digits@ =~= Seq::new(BOOT_ID_LENGTH as nat, |i: int| 48u8));
    BootId { digits }
}

impl BootId {
    #[verifier::type_invariant]
    pub open spec fn well_formed(self) -> bool {
        self@.len() == BOOT_ID_LENGTH && all_hex(self@)
    }

    pub fn as_bytes(&self) -> (bytes: &[u8])
        ensures
            bytes@ == self@,
            bytes@.len() == BOOT_ID_LENGTH,
            all_hex(bytes@),
    {
        proof {
            use_type_invariant(self);
        }
        self.digits.as_slice()
    }
}

/// What the working names of one process begin with, up to the sequence
/// number: `.marcel-<kind>-<boot>-<pid>-`.
pub open spec fn owned_prefix(kind: WorkingKind, boot: Seq<u8>, process: nat) -> Seq<u8> {
    kind.prefix_bytes() + boot + seq![45u8] + decimal_bytes(process) + seq![45u8]
}

pub fn owner_prefix(kind: WorkingKind, boot: &BootId, process: u32) -> (prefix: Vec<u8>)
    ensures
        prefix@ == owned_prefix(kind, boot@, process as nat),
{
    let mut prefix = kind.prefix();
    push_bytes(&mut prefix, boot.as_bytes());
    prefix.push(45);
    let digits = decimal_digits(process as u64);
    push_bytes(&mut prefix, digits.as_slice());
    prefix.push(45);
    assert(prefix@ =~= owned_prefix(kind, boot@, process as nat));
    prefix
}

/// `.marcel-replaced-<pid>-`: what replacement quarantines began with before
/// names carried the boot. Nothing can say whether such an owner is alive, so
/// these names are nobody's.
pub fn replacement_quarantine_prefix(process: u32) -> (prefix: Vec<u8>)
    ensures
        prefix@ == WorkingKind::Replaced.prefix_bytes() + decimal_bytes(process as nat)
            + seq![45u8],
{
    let mut prefix = WorkingKind::Replaced.prefix();
    let digits = decimal_digits(process as u64);
    push_bytes(&mut prefix, digits.as_slice());
    prefix.push(45);
    assert(prefix@ =~= WorkingKind::Replaced.prefix_bytes() + decimal_bytes(process as nat)
        + seq![45u8]);
    prefix
}

/// A fresh `.marcel-<kind>-<boot>-<pid>-<sequence>-`, for a staging directory
/// that is completed with a random suffix.
///
/// Staging carries an owner for the same reason a replacement quarantine does:
/// a crash mid-copy or mid-extraction leaves the directory behind, and only a
/// name that says who made it lets a later process reclaim it instead of
/// hiding it forever.
pub fn staging_prefix(kind: WorkingKind, boot: &BootId, process: u32, sequence: u64) -> (prefix:
    Vec<u8>)
    ensures
        prefix@ == owned_prefix(kind, boot@, process as nat) + decimal_bytes(sequence as nat)
            + seq![45u8],
{
    let mut prefix = owner_prefix(kind, boot, process);
    let digits = decimal_digits(sequence);
    push_bytes(&mut prefix, digits.as_slice());
    prefix.push(45);
    assert(prefix@ =~= owned_prefix(kind, boot@, process as nat) + decimal_bytes(sequence as nat)
        + seq![45u8]);
    prefix
}

/// `.marcel-recovered-`
pub open spec fn recovery_prefix() -> Seq<u8> {
    working_name_prefix() + seq![114u8, 101, 99, 111, 118, 101, 114, 101, 100, 45]
}

/// The name prefix of data that could not be put back.
///
/// Deliberately not a replacement quarantine, because the two mean opposite
/// things. A replacement quarantine holds an original whose replacement
/// succeeded: only Undo could still want it. A recovery remnant holds an
/// original that could not be put back, which makes it the user's only copy of
/// that data. So it carries no process id — nothing can ever decide it was
/// abandoned by a dead owner — and it is not hidden.
pub const RECOVERY_REMNANT_PREFIX: &'static str = ".marcel-recovered-";

/// The bytes of [`RECOVERY_REMNANT_PREFIX`].
pub fn recovery_remnant_prefix() -> (prefix: Vec<u8>)
    ensures
        prefix@ == recovery_prefix(),
{
    proof {
        reveal_strlit(".marcel-recovered-");
        is_ascii_chars_encode_utf8(RECOVERY_REMNANT_PREFIX@);
    }
    let prefix = copy_bytes(RECOVERY_REMNANT_PREFIX.as_bytes());
    assert(prefix@ =~= recovery_prefix());
    prefix
}

pub fn is_replacement_quarantine_name(name: &[u8]) -> (yes: bool)
    ensures
        yes == WorkingKind::Replaced.prefix_bytes().is_prefix_of(name@),
{
    let prefix = WorkingKind::Replaced.prefix();
    begins_with(name, prefix.as_slice())
}

pub fn is_recovery_remnant_name(name: &[u8]) -> (yes: bool)
    ensures
        yes == recovery_prefix().is_prefix_of(name@),
{
    let prefix = recovery_remnant_prefix();
    begins_with(name, prefix.as_slice())
}

/// Who made a working file, and what for.
#[verifier::ext_equal]
pub struct OwnerModel {
    pub kind: WorkingKind,
    pub boot: Seq<u8>,
    pub process: int,
}

/// The kind of working file a name begins like.
pub open spec fn kind_of(name: Seq<u8>) -> Option<WorkingKind> {
    if WorkingKind::Replaced.prefix_bytes().is_prefix_of(name) {
        Some(WorkingKind::Replaced)
    } else if WorkingKind::Copy.prefix_bytes().is_prefix_of(name) {
        Some(WorkingKind::Copy)
    } else if WorkingKind::Archive.prefix_bytes().is_prefix_of(name) {
        Some(WorkingKind::Archive)
    } else {
        None
    }
}

/// The owner a working name carries.
pub open spec fn owner_of(name: Seq<u8>) -> Option<OwnerModel> {
    match kind_of(name) {
        None => None,
        Some(kind) => {
            let rest = name.skip(kind.prefix_bytes().len() as int);
            let boot = rest.take(BOOT_ID_LENGTH as int);
            let tail = rest.skip(BOOT_ID_LENGTH + 1);
            if rest.len() <= BOOT_ID_LENGTH || !all_hex(boot) || rest[BOOT_ID_LENGTH as int]
                != 45u8 {
                None
            } else {
                match tail.index_of_first(45u8) {
                    None => None,
                    Some(end) => match parsed_number(tail.take(end), u32::MAX as int) {
                        None => None,
                        Some(process) => Some(OwnerModel { kind, boot, process }),
                    },
                }
            }
        },
    }
}

/// Who made a working file, and what for, as its name records it.
#[derive(Debug)]
pub struct WorkingOwner {
    pub kind: WorkingKind,
    pub boot: Vec<u8>,
    pub process: u32,
}

impl View for WorkingOwner {
    type V = OwnerModel;

    open spec fn view(&self) -> OwnerModel {
        OwnerModel { kind: self.kind, boot: self.boot@, process: self.process as int }
    }
}

/// The owner a working name carries, if it has the shape of one. Other names
/// parse as nobody's, which leaves them alone — and visible.
pub fn working_owner(name: &[u8]) -> (owner: Option<WorkingOwner>)
    ensures
        match owner {
            Some(owner) => owner_of(name@) == Some(owner@),
            None => owner_of(name@) is None,
        },
{
    let replaced = WorkingKind::Replaced.prefix();
    let copy = WorkingKind::Copy.prefix();
    let archive = WorkingKind::Archive.prefix();
    let (kind, start): (WorkingKind, usize) = if begins_with(name, replaced.as_slice()) {
        (WorkingKind::Replaced, replaced.len())
    } else if begins_with(name, copy.as_slice()) {
        (WorkingKind::Copy, copy.len())
    } else if begins_with(name, archive.as_slice()) {
        (WorkingKind::Archive, archive.len())
    } else {
        return None;
    };
    assert(kind_of(name@) == Some(kind));
    let rest = vstd::slice::slice_subrange(name, start, name.len());
    let ghost spoken = name@.skip(kind.prefix_bytes().len() as int);
    assert(rest@ =~= spoken);
    if rest.len() <= BOOT_ID_LENGTH {
        return None;
    }
    let boot = vstd::slice::slice_subrange(rest, 0, BOOT_ID_LENGTH);
    assert(boot@ =~= spoken.take(BOOT_ID_LENGTH as int));
    let mut i: usize = 0;
    while i < boot.len()
        invariant
            i <= boot@.len(),
            boot@ == spoken.take(BOOT_ID_LENGTH as int),
            spoken == name@.skip(kind.prefix_bytes().len() as int),
            kind_of(name@) == Some(kind),
            forall|j: int| 0 <= j < i ==> is_hex(#[trigger] boot@[j]),
        decreases boot.len() - i,
    {
        if !hexadecimal(boot[i]) {
            assert(!is_hex(boot@[i as int]));
            return None;
        }
        i += 1;
    }
    if rest[BOOT_ID_LENGTH] != 45 {
        return None;
    }
    let tail = vstd::slice::slice_subrange(rest, BOOT_ID_LENGTH + 1, rest.len());
    assert(tail@ =~= spoken.skip(BOOT_ID_LENGTH + 1));
    match find_byte(tail, 45) {
        None => None,
        Some(end) => {
            let digits = vstd::slice::slice_subrange(tail, 0, end);
            assert(digits@ =~= tail@.take(end as int));
            match parse_number(digits, u32::MAX as u64) {
                None => None,
                Some(process) => {
                    let owner = WorkingOwner {
                        kind,
                        boot: copy_bytes(boot),
                        process: process as u32,
                    };
                    assert(owner@ =~= owner_of(name@).unwrap());
                    Some(owner)
                },
            }
        },
    }
}

/// Whether nothing can want what an owner left any more. `running` says
/// whether the owner's process runs.
///
/// Within this boot the rule is the same for every kind: a dead owner can
/// neither undo nor finish, so what it left is garbage. Across boots the kinds
/// part ways. A replacement quarantine holds a displaced original, which may be
/// the only copy of something restored from a backup, so it is kept and shown.
/// Staging holds a partial copy of a source that still exists, so another boot
/// is proof enough that nobody is coming back for it.
pub open spec fn abandoned(owner: OwnerModel, boot: Seq<u8>, process: int, running: bool) -> bool {
    if owner.boot == boot {
        owner.process != process && !running
    } else {
        !(owner.kind is Replaced)
    }
}

impl WorkingOwner {
    pub fn is_abandoned(&self, boot: &BootId, process: u32, running: bool) -> (yes: bool)
        ensures
            yes == abandoned(self@, boot@, process as int, running),
    {
        if same_bytes(self.boot.as_slice(), boot.as_bytes()) {
            self.process != process && !running
        } else {
            matches!(self.kind, WorkingKind::Copy | WorkingKind::Archive)
        }
    }
}

/// Whether a name belongs to working state rather than the user's data.
pub open spec fn hidden(name: Seq<u8>, boot: Seq<u8>) -> bool {
    owner_of(name) matches Some(owner) && owner.boot == boot
}

/// Whether a name belongs to working state rather than the user's data.
///
/// Hidden entries are shown by default, so without this a user who replaces a
/// file watches a cryptic sibling appear beside it and vanish later. Only a
/// name this boot wrote qualifies. Permanent-delete quarantines and recovery
/// remnants are deliberately excluded: their recovery guidance points the user
/// straight at the path. So is anything from another boot, and any staging name
/// without an owner: a file nothing sweeps and nothing shows is lost disk.
pub fn is_internal_working_name(name: &[u8], boot: &BootId) -> (yes: bool)
    ensures
        yes == hidden(name@, boot@),
{
    match working_owner(name) {
        Some(owner) => same_bytes(owner.boot.as_slice(), boot.as_bytes()),
        None => false,
    }
}

/// Whether a name is a replacement quarantine some other boot left behind.
///
/// Its owner is certainly gone, but so is the only context in which its name
/// meant anything, so it is left for the user rather than swept.
pub fn is_quarantine_from_another_boot(name: &[u8], boot: &BootId) -> (yes: bool)
    ensures
        yes == (owner_of(name@) matches Some(owner) && owner.kind is Replaced && owner.boot
            != boot@),
{
    match working_owner(name) {
        Some(owner) => owner.kind == WorkingKind::Replaced && !same_bytes(
            owner.boot.as_slice(),
            boot.as_bytes(),
        ),
        None => false,
    }
}

/// What is to be done with a quarantined object.
#[derive(Clone, Copy, Debug, PartialEq, Eq, Structural)]
pub enum Erasure {
    /// It is not the object that was expected, so it is left alone.
    Leave,
    RemoveTree,
    RemoveFile,
}

/// How to remove an object, but only while it is still what `expected`
/// describes.
pub fn erase_quarantined_object(expected: &FileIdentity, found: Option<Metadata>) -> (erasure:
    Erasure)
    ensures
        erasure == match found {
            Some(metadata) => if metadata.identity() != *expected {
                Erasure::Leave
            } else if metadata.kind is Directory {
                Erasure::RemoveTree
            } else {
                Erasure::RemoveFile
            },
            None => Erasure::Leave,
        },
{
    match found {
        None => Erasure::Leave,
        Some(metadata) => if FileIdentity::of(&metadata) != *expected {
            Erasure::Leave
        } else if metadata.kind == crate::fsops::identity::SnapshotKind::Directory {
            Erasure::RemoveTree
        } else {
            Erasure::RemoveFile
        },
    }
}

/// Every name of one process's working state says who made it, whatever
/// follows the owner.
pub proof fn lemma_working_name_has_owner(
    kind: WorkingKind,
    boot: Seq<u8>,
    process: u32,
    rest: Seq<u8>,
)
    requires
        boot.len() == BOOT_ID_LENGTH,
        all_hex(boot),
    ensures
        owner_of(owned_prefix(kind, boot, process as nat) + rest) == Some(
            OwnerModel { kind, boot, process: process as int },
        ),
{
    let name = owned_prefix(kind, boot, process as nat) + rest;
    let prefix = kind.prefix_bytes();
    let digits = decimal_bytes(process as nat);
    let start = prefix.len() as int;
    assert(name.subrange(0, start) =~= prefix);
    assert(prefix.is_prefix_of(name));
    lemma_kinds_differ(name, kind);
    assert(kind_of(name) == Some(kind));
    let after = name.skip(start);
    assert(after =~= boot + seq![45u8] + digits + seq![45u8] + rest);
    assert(after.take(BOOT_ID_LENGTH as int) =~= boot);
    assert(after[BOOT_ID_LENGTH as int] == 45u8);
    let tail = after.skip(BOOT_ID_LENGTH + 1);
    assert(tail =~= digits + seq![45u8] + rest);
    lemma_parse_reverses_decimal(process as nat, u32::MAX as int);
    tail.index_of_first_ensures(45u8);
    assert(tail[digits.len() as int] == 45u8);
    assert(tail.contains(45u8));
    assert forall|i: int| 0 <= i < digits.len() implies tail[i] != 45u8 by {
        assert(is_digit(digits[i]));
        assert(tail[i] == digits[i]);
    }
    assert(tail.index_of_first(45u8) == Some(digits.len() as int));
    assert(tail.take(digits.len() as int) =~= digits);
}

/// A name begins like one kind of working file at most.
proof fn lemma_kinds_differ(name: Seq<u8>, kind: WorkingKind)
    requires
        kind.prefix_bytes().is_prefix_of(name),
    ensures
        forall|other: WorkingKind|
            other != kind ==> !(#[trigger] other.prefix_bytes()).is_prefix_of(name),
{
    assert forall|other: WorkingKind| other != kind implies !(
    #[trigger] other.prefix_bytes()).is_prefix_of(name) by {
        if other.prefix_bytes().is_prefix_of(name) {
            assert(name[8] == kind.prefix_bytes()[8]);
            assert(name[8] == other.prefix_bytes()[8]);
        }
    }
}

/// A quarantine says who holds it, so that it is hidden while its owner lives.
pub proof fn lemma_quarantine_has_owner(
    boot: Seq<u8>,
    process: u32,
    sequence: nat,
    original: Seq<u8>,
)
    requires
        boot.len() == BOOT_ID_LENGTH,
        all_hex(boot),
    ensures
        ({
            let name = carried_name(
                owned_prefix(WorkingKind::Replaced, boot, process as nat),
                sequence,
                original,
            );
            &&& owner_of(name) == Some(
                OwnerModel { kind: WorkingKind::Replaced, boot, process: process as int },
            )
            &&& hidden(name, boot)
        }),
{
    let prefix = owned_prefix(WorkingKind::Replaced, boot, process as nat);
    let name = carried_name(prefix, sequence, original);
    assert(name =~= prefix + name.skip(prefix.len() as int));
    lemma_working_name_has_owner(
        WorkingKind::Replaced,
        boot,
        process,
        name.skip(prefix.len() as int),
    );
}

/// What could not be put back has a name that is nobody's: it is never hidden
/// and never swept.
pub proof fn lemma_recovered_is_nobodys(name: Seq<u8>, boot: Seq<u8>)
    requires
        recovery_prefix().is_prefix_of(name),
    ensures
        owner_of(name) is None,
        !hidden(name, boot),
{
    assert(name[8] == recovery_prefix()[8]);
    assert(name[10] == recovery_prefix()[10]);
    if WorkingKind::Replaced.prefix_bytes().is_prefix_of(name) {
        assert(name[10] == WorkingKind::Replaced.prefix_bytes()[10]);
    }
    if WorkingKind::Copy.prefix_bytes().is_prefix_of(name) {
        assert(name[8] == WorkingKind::Copy.prefix_bytes()[8]);
    }
    if WorkingKind::Archive.prefix_bytes().is_prefix_of(name) {
        assert(name[8] == WorkingKind::Archive.prefix_bytes()[8]);
    }
}

/// The live working state of a process is never swept by that process.
pub proof fn lemma_own_work_is_not_abandoned(owner: OwnerModel, boot: Seq<u8>, running: bool)
    requires
        owner.boot == boot,
    ensures
        !abandoned(owner, boot, owner.process, running),
{
}

/// A displaced original is only ever swept in the boot it was displaced in,
/// once the process that holds its record is gone.
pub proof fn lemma_swept_originals_are_unreachable(
    owner: OwnerModel,
    boot: Seq<u8>,
    process: int,
    running: bool,
)
    requires
        owner.kind is Replaced,
        abandoned(owner, boot, process, running),
    ensures
        owner.boot == boot,
        owner.process != process,
        !running,
{
}

/// A name without a boot is nobody's.
pub proof fn lemma_bootless_is_nobodys(process: u32, rest: Seq<u8>)
    ensures
        owner_of(
            WorkingKind::Replaced.prefix_bytes() + decimal_bytes(process as nat) + seq![45u8]
                + rest,
        ) is None,
{
    let prefix = WorkingKind::Replaced.prefix_bytes();
    let digits = decimal_bytes(process as nat);
    let name = prefix + digits + seq![45u8] + rest;
    assert(digits.len() <= 10) by {
        reveal_with_fuel(decimal_bytes, 11);
    }
    let after = name.skip(prefix.len() as int);
    assert(name.subrange(0, prefix.len() as int) =~= prefix);
    assert(kind_of(name) == Some(WorkingKind::Replaced));
    if after.len() > BOOT_ID_LENGTH {
        let boot = after.take(BOOT_ID_LENGTH as int);
        assert(boot[digits.len() as int] == 45u8);
        assert(!is_hex(boot[digits.len() as int]));
    }
}

/// A user cannot give an entry the name of a working file or of a recovery
/// remnant.
pub proof fn lemma_working_names_are_reserved(name: Seq<u8>)
    requires
        kind_of(name) is Some || recovery_prefix().is_prefix_of(name),
    ensures
        name_refusal(name) is Some,
{
    let prefix = match kind_of(name) {
        Some(kind) => kind.prefix_bytes(),
        None => recovery_prefix(),
    };
    assert(prefix.is_prefix_of(name));
    assert(prefix.subrange(0, 8) =~= working_name_prefix());
    assert forall|i: int| 0 <= i < 8 implies name[i] == working_name_prefix()[i] by {
        assert(name.subrange(0, prefix.len() as int)[i] == prefix[i]);
        assert(prefix.subrange(0, 8)[i] == prefix[i]);
    }
    assert(name.subrange(0, 8) =~= working_name_prefix());
}

} // verus!
