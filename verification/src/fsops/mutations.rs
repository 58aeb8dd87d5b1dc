//! The single-commit mutations: create, rename, change permissions, compress,
//! extract.
//!
//! Each follows the prepare / commit / finalize rule spelled out on
//! [`CommittedOperation`]: everything that can fail happens before the one
//! system call that changes the disk, and nothing after it can fail the
//! operation.

use vstd::prelude::*;
use vstd::utf8::encode_utf8;

use crate::fsops::identity::{
    about, message_about, refusal, FileIdentity, Metadata, SnapshotKind,
};
use crate::fsops::journal::{CommittedOperation, OperationRecord};
use crate::fsops::local::{at, ensure_unoccupied, inspect, located, occupied, Lookup};
use crate::fsops::DirectoryChanges;
use crate::path::{parent_directory, same_bytes, this_directory, PathBuf, PathModel, DOT, SLASH};
use crate::text::{lossy, utf8_lossy};

verus! {

/// Whether a byte is ASCII whitespace.
pub open spec fn is_blank(byte: u8) -> bool {
    byte == 32 || byte == 9 || byte == 10 || byte == 12 || byte == 13
}

/// Whether a byte string holds nothing but ASCII whitespace.
pub open spec fn all_blank(bytes: Seq<u8>) -> bool {
    forall|i: int| 0 <= i < bytes.len() ==> is_blank(#[trigger] bytes[i])
}

/// What every name given to working state begins with: `.marcel-`.
pub open spec fn working_name_prefix() -> Seq<u8> {
    seq![46u8, 109, 97, 114, 99, 101, 108, 45]
}

/// Why a name cannot be given to an entry, if it cannot.
pub open spec fn name_refusal(name: Seq<u8>) -> Option<Seq<char>> {
    if all_blank(name) {
        Some("Enter a name"@)
    } else if name == this_directory() || name == parent_directory() {
        Some("“"@ + utf8_lossy(name) + "” is reserved and cannot be used as a name"@)
    } else if name.contains(SLASH) || name.contains(0) {
        Some("Names cannot contain “/” or a null character"@)
    } else if working_name_prefix().is_prefix_of(name) {
        Some(
            "Names beginning with “.marcel-” are reserved for Marcel's own working files"@,
        )
    } else {
        None
    }
}

/// A name that is not refused names an entry in the directory it is joined to,
/// and nothing outside it.
pub proof fn lemma_accepted_name_stays_inside(name: Seq<u8>)
    requires
        name_refusal(name) is None,
    ensures
        name.len() > 0,
        !name.contains(SLASH),
        name != this_directory(),
        name != parent_directory(),
        !working_name_prefix().is_prefix_of(name),
{
    if name.len() == 0 {
        assert(all_blank(name));
    }
}

/// Whether a byte string begins with another.
pub fn begins_with(bytes: &[u8], prefix: &[u8]) -> (yes: bool)
    ensures
        yes == prefix@.is_prefix_of(bytes@),
{
    if prefix.len() > bytes.len() {
        return false;
    }
    let mut i: usize = 0;
    while i < prefix.len()
        invariant
            i <= prefix.len() <= bytes.len(),
            forall|j: int| 0 <= j < i ==> bytes@[j] == prefix@[j],
        decreases prefix.len() - i,
    {
        if bytes[i] != prefix[i] {
            assert(bytes@.subrange(0, prefix@.len() as int)[i as int] != prefix@[i as int]);
            return false;
        }
        i += 1;
    }
    assert(bytes@.subrange(0, prefix@.len() as int) =~= prefix@);
    true
}

/// Whether a byte string holds a byte.
pub fn holds_byte(bytes: &[u8], byte: u8) -> (yes: bool)
    ensures
        yes == bytes@.contains(byte),
{
    let mut i: usize = 0;
    while i < bytes.len()
        invariant
            i <= bytes.len(),
            forall|j: int| 0 <= j < i ==> bytes@[j] != byte,
        decreases bytes.len() - i,
    {
        if bytes[i] == byte {
            assert(bytes@.contains(bytes@[i as int]));
            return true;
        }
        i += 1;
    }
    false
}

fn is_all_blank(bytes: &[u8]) -> (yes: bool)
    ensures
        yes == all_blank(bytes@),
{
    let mut i: usize = 0;
    while i < bytes.len()
        invariant
            i <= bytes.len(),
            forall|j: int| 0 <= j < i ==> is_blank(#[trigger] bytes@[j]),
        decreases bytes.len() - i,
    {
        let byte = bytes[i];
        if !(byte == 32 || byte == 9 || byte == 10 || byte == 12 || byte == 13) {
            assert(!is_blank(bytes@[i as int]));
            return false;
        }
        i += 1;
    }
    true
}

/// The bytes of [`working_name_prefix`].
pub fn working_prefix_bytes() -> (bytes: Vec<u8>)
    ensures
        bytes@ == working_name_prefix(),
{
    let bytes: Vec<u8> = vec![46u8, 109, 97, 114, 99, 101, 108, 45];
    assert(bytes@ =~= working_name_prefix());
    bytes
}

pub fn validate_entry_name(name: &str) -> (verdict: Result<(), String>)
    ensures
        match verdict {
            Ok(_) => name_refusal(encode_utf8(name@)) is None,
            Err(message) => name_refusal(encode_utf8(name@)) == Some(message@),
        },
{
    validate_entry_os_name(name.as_bytes())
}

/// The one name rule, applied to the raw bytes.
///
/// A conflict can be resolved by choosing a new name, and that name must clear
/// exactly the same bar as a rename and a new folder. File names need not be
/// UTF-8, so the check works on bytes. Working files are told apart from the
/// user's by name alone, and the browser hides them and a later process may
/// sweep them, so the user must not be able to give their own file that fate.
pub fn validate_entry_os_name(name: &[u8]) -> (verdict: Result<(), String>)
    ensures
        match verdict {
            Ok(_) => name_refusal(name@) is None,
            Err(message) => name_refusal(name@) == Some(message@),
        },
{
    if is_all_blank(name) {
        return Err("Enter a name".to_owned());
    }
    let special = (name.len() == 1 && name[0] == DOT) || (name.len() == 2 && name[0] == DOT
        && name[1] == DOT);
    proof {
        if name@.len() == 1 && name@[0] == DOT {
            assert(name@ =~= this_directory());
        }
        if name@.len() == 2 && name@[0] == DOT && name@[1] == DOT {
            assert(name@ =~= parent_directory());
        }
    }
    if special {
        let mut message = "“".to_owned();
        let shown = lossy(name);
        message.append(shown.as_str());
        message.append("” is reserved and cannot be used as a name");
        return Err(message);
    }
    if holds_byte(name, SLASH) || holds_byte(name, 0) {
        return Err("Names cannot contain “/” or a null character".to_owned());
    }
    let prefix = working_prefix_bytes();
    if begins_with(name, prefix.as_slice()) {
        return Err(
            "Names beginning with “.marcel-” are reserved for Marcel's own working files".to_owned(),
        );
    }
    Ok(())
}

/// Where a new entry of `parent` is to be created.
pub open spec fn new_entry(parent: PathModel, name: Seq<char>) -> PathModel {
    parent.join(encode_utf8(name))
}

fn entry_to_create(parent: &PathBuf, name: &str) -> (path: Result<PathBuf, String>)
    ensures
        match path {
            Ok(path) => name_refusal(encode_utf8(name@)) is None && path@ == new_entry(
                parent@,
                name@,
            ),
            Err(message) => name_refusal(encode_utf8(name@)) == Some(message@),
        },
{
    match validate_entry_name(name) {
        Ok(_) => Ok(parent.join(name.as_bytes())),
        Err(message) => Err(message),
    }
}

/// A directory that is to be created.
#[derive(Debug)]
pub struct DirectoryToCreate {
    pub path: PathBuf,
}

/// An empty file that is to be created, where nothing is yet.
#[derive(Debug)]
pub struct FileToCreate {
    pub path: PathBuf,
}

/// Whether `result` is how creating a directory begins.
pub open spec fn begins_directory(
    parent: PathBuf,
    name: Seq<char>,
    result: Result<DirectoryToCreate, String>,
) -> bool {
    match result {
        Ok(wanted) => name_refusal(encode_utf8(name)) is None && wanted.path@ == new_entry(
            parent@,
            name,
        ),
        Err(message) => name_refusal(encode_utf8(name)) == Some(message@),
    }
}

pub fn create_directory(parent: &PathBuf, name: &str) -> (result: Result<DirectoryToCreate, String>)
    ensures
        begins_directory(*parent, name@, result),
{
    match entry_to_create(parent, name) {
        Ok(path) => Ok(DirectoryToCreate { path }),
        Err(message) => Err(message),
    }
}

/// Whether `result` is how creating a file begins.
pub open spec fn begins_file(
    parent: PathBuf,
    name: Seq<char>,
    result: Result<FileToCreate, String>,
) -> bool {
    match result {
        Ok(wanted) => name_refusal(encode_utf8(name)) is None && wanted.path@ == new_entry(
            parent@,
            name,
        ),
        Err(message) => name_refusal(encode_utf8(name)) == Some(message@),
    }
}

pub fn create_file(parent: &PathBuf, name: &str) -> (result: Result<FileToCreate, String>)
    ensures
        begins_file(*parent, name@, result),
{
    match entry_to_create(parent, name) {
        Ok(path) => Ok(FileToCreate { path }),
        Err(message) => Err(message),
    }
}

/// Whether a commit published `path` and recorded what `record` says.
pub open spec fn published_with(
    committed: CommittedOperation,
    path: PathBuf,
    record: Option<OperationRecord>,
) -> bool {
    &&& committed.path == path
    &&& committed.changes.removed@ == Seq::<PathBuf>::empty()
    &&& committed.changes.upserted@ == seq![path]
    &&& committed.record == record
}

impl DirectoryToCreate {
    /// What comes of creating the directory.
    pub open spec fn comes_to(
        self,
        created: bool,
        found: Option<Metadata>,
        result: Result<CommittedOperation, String>,
    ) -> bool {
        match result {
            Ok(committed) => created && published_with(
                committed,
                self.path,
                match found {
                    Some(metadata) if metadata.kind is Directory => Some(
                        OperationRecord::CreateDirectory {
                            path: self.path,
                            identity: metadata.identity(),
                        },
                    ),
                    _ => None,
                },
            ),
            Err(message) => !created && message@ == located("Could not create"@, self.path.text()),
        }
    }

    /// Whether the directory was created, and what is there now.
    ///
    /// The directory exists. Refusing to record an unexpected result costs
    /// undo, but must not report the creation as failed.
    pub fn create_directory_at(self, created: bool, found: Option<Metadata>) -> (result: Result<
        CommittedOperation,
        String,
    >)
        ensures
            self.comes_to(created, found, result),
    {
        if !created {
            return Err(at("Could not create", &self.path));
        }
        let record = match found {
            Some(metadata) => if metadata.kind == SnapshotKind::Directory {
                Some(
                    OperationRecord::CreateDirectory {
                        path: self.path.clone(),
                        identity: FileIdentity::of(&metadata),
                    },
                )
            } else {
                None
            },
            None => None,
        };
        Ok(CommittedOperation::published(self.path, record))
    }
}

impl FileToCreate {
    /// What comes of creating the file.
    pub open spec fn comes_to(
        self,
        created: bool,
        opened: Option<Metadata>,
        result: Result<CommittedOperation, String>,
    ) -> bool {
        match result {
            Ok(committed) => created && published_with(
                committed,
                self.path,
                match opened {
                    Some(metadata) if metadata.kind is File => Some(
                        OperationRecord::CreateFile {
                            path: self.path,
                            identity: metadata.identity(),
                        },
                    ),
                    _ => None,
                },
            ),
            Err(message) => !created && message@ == located("Could not create"@, self.path.text()),
        }
    }

    /// Whether the file was created, and what was opened.
    ///
    /// Its identity comes from the descriptor just opened, so it is this
    /// file's and not that of something that replaced it.
    pub fn create_file_at(self, created: bool, opened: Option<Metadata>) -> (result: Result<
        CommittedOperation,
        String,
    >)
        ensures
            self.comes_to(created, opened, result),
    {
        if !created {
            return Err(at("Could not create", &self.path));
        }
        let record = match opened {
            Some(metadata) => if metadata.kind == SnapshotKind::File {
                Some(
                    OperationRecord::CreateFile {
                        path: self.path.clone(),
                        identity: FileIdentity::of(&metadata),
                    },
                )
            } else {
                None
            },
            None => None,
        };
        Ok(CommittedOperation::published(self.path, record))
    }
}

/// A rename that is to be checked.
#[derive(Debug)]
pub struct RenameCheck {
    pub source: PathBuf,
    pub destination: PathBuf,
}

/// A rename that is to be carried out.
#[derive(Debug)]
pub struct RenameReady {
    pub from: PathBuf,
    pub to: PathBuf,
}

/// Why an entry cannot be given a name, whatever is on disk.
pub open spec fn rename_refusal(source: PathModel, name: Seq<u8>) -> Option<Seq<char>> {
    if name_refusal(name) is Some {
        name_refusal(name)
    } else if source.parent() is None {
        Some("Rename source has no parent"@)
    } else if source.file_name() is None {
        Some("Rename source has no name"@)
    } else if source.file_name() == Some(name) {
        Some("The new name is unchanged"@)
    } else {
        None
    }
}

/// Whether `result` is how renaming an entry begins.
pub open spec fn begins_rename(
    source: PathBuf,
    name: Seq<char>,
    result: Result<RenameCheck, String>,
) -> bool {
    match result {
        Ok(check) => rename_refusal(source@, encode_utf8(name)) is None && check.source
            == source && check.destination@ == new_entry(source@.parent().unwrap(), name),
        Err(message) => rename_refusal(source@, encode_utf8(name)) == Some(message@),
    }
}

pub fn rename_entry(source: &PathBuf, name: &str) -> (result: Result<RenameCheck, String>)
    ensures
        begins_rename(*source, name@, result),
{
    match validate_entry_name(name) {
        Ok(_) => {},
        Err(message) => {
            return Err(message);
        },
    }
    let parent = match source.parent() {
        Some(parent) => parent,
        None => {
            return Err("Rename source has no parent".to_owned());
        },
    };
    match source.file_name() {
        Some(current) => {
            if same_bytes(current, name.as_bytes()) {
                return Err("The new name is unchanged".to_owned());
            }
        },
        None => {
            return Err("Rename source has no name".to_owned());
        },
    }
    Ok(RenameCheck { source: source.clone(), destination: parent.join(name.as_bytes()) })
}

impl RenameCheck {
    /// What comes of what is at both paths.
    pub open spec fn passes(
        self,
        destination: Lookup,
        source: Lookup,
        again: Option<Metadata>,
        result: Result<RenameReady, String>,
    ) -> bool {
        match result {
            Ok(ready) => {
                &&& occupied(self.destination.text(), destination) is None
                &&& source matches Lookup::Found(first)
                &&& again matches Some(second)
                &&& second.identity() == first.identity()
                &&& ready == (RenameReady { from: self.source, to: self.destination })
            },
            Err(message) => if occupied(self.destination.text(), destination) is Some {
                occupied(self.destination.text(), destination) == Some(message@)
            } else {
                match source {
                    Lookup::Found(first) => !(again matches Some(second) && second.identity()
                        == first.identity()) && message@ == refusal(
                        self.source.text(),
                        "rename"@,
                        again is Some,
                    ),
                    _ => message@ == located("Could not inspect"@, self.source.text()),
                }
            },
        }
    }

    /// What is at the destination and, read twice, at the source.
    pub fn checked(self, destination: &Lookup, source: Lookup, again: Option<Metadata>) -> (result:
        Result<RenameReady, String>)
        ensures
            self.passes(*destination, source, again, result),
    {
        match ensure_unoccupied(&self.destination, destination) {
            Ok(_) => {},
            Err(message) => {
                return Err(message);
            },
        }
        let expected = match FileIdentity::read(&self.source, source) {
            Ok(expected) => expected,
            Err(message) => {
                return Err(message);
            },
        };
        match expected.validate(&self.source, "rename", again) {
            Ok(_) => Ok(RenameReady { from: self.source, to: self.destination }),
            Err(message) => Err(message),
        }
    }
}

impl RenameReady {
    /// What comes of renaming the entry.
    pub open spec fn comes_to(
        self,
        renamed: bool,
        found: Option<Metadata>,
        result: Result<CommittedOperation, String>,
    ) -> bool {
        match result {
            Ok(committed) => {
                &&& renamed
                &&& committed.path == self.to
                &&& committed.changes.removed@ == seq![self.from]
                &&& committed.changes.upserted@ == seq![self.to]
                &&& committed.record == match found {
                    Some(metadata) => Some(rename_record(self.from, self.to, metadata)),
                    None => None,
                }
            },
            Err(message) => !renamed && message@ == about(
                "Could not rename "@,
                self.from.text(),
                about(" to "@, self.to.text(), ""@),
            ),
        }
    }

    /// Commit a rename and describe it, whichever direction it runs in:
    /// whether the entry was renamed, and what is at its new path.
    pub fn rename_committing(self, renamed: bool, found: Option<Metadata>) -> (result: Result<
        CommittedOperation,
        String,
    >)
        ensures
            self.comes_to(renamed, found, result),
    {
        if !renamed {
            let rest = message_about(" to ", &self.to, "");
            return Err(message_about("Could not rename ", &self.from, rest.as_str()));
        }
        let record = match found {
            Some(metadata) => Some(
                OperationRecord::Rename {
                    source: self.from.clone(),
                    destination: self.to.clone(),
                    identity: FileIdentity::of(&metadata),
                },
            ),
            None => None,
        };
        let mut removed: Vec<PathBuf> = Vec::new();
        removed.push(self.from);
        let mut upserted: Vec<PathBuf> = Vec::new();
        upserted.push(self.to.clone());
        assert(removed@ =~= seq![self.from]);
        assert(upserted@ =~= seq![self.to]);
        Ok(CommittedOperation::new(self.to, DirectoryChanges { removed, upserted }, record))
    }
}

/// A rename that is to be taken back, once it was checked.
#[derive(Debug)]
pub struct ReverseRename {
    pub source: PathBuf,
    pub destination: PathBuf,
    pub identity: FileIdentity,
}

/// The rename that takes a rename back.
pub open spec fn rename_reversal(operation: OperationRecord) -> Option<ReverseRename> {
    match operation {
        OperationRecord::Rename { source, destination, identity } => Some(
            ReverseRename { source, destination, identity },
        ),
        _ => None,
    }
}

/// What is recorded of a rename once `found` is at its new path.
pub open spec fn rename_record(from: PathBuf, to: PathBuf, found: Metadata) -> OperationRecord {
    OperationRecord::Rename { source: from, destination: to, identity: found.identity() }
}

/// Undo or redo a rename by renaming back, which is one more atomic commit.
pub fn reverse_rename(operation: &OperationRecord) -> (result: Result<ReverseRename, String>)
    ensures
        match rename_reversal(*operation) {
            Some(reverse) => result == Ok::<ReverseRename, String>(reverse),
            None => result matches Err(message) && message@ == "Operation is not a rename"@,
        },
{
    match operation {
        OperationRecord::Rename { source, destination, identity } => Ok(
            ReverseRename {
                source: source.clone(),
                destination: destination.clone(),
                identity: *identity,
            },
        ),
        _ => Err("Operation is not a rename".to_owned()),
    }
}

impl ReverseRename {
    /// What follows from what is at both paths.
    pub open spec fn passes(
        self,
        renamed: Option<Metadata>,
        before: Lookup,
        result: Result<RenameReady, String>,
    ) -> bool {
        match result {
            Ok(ready) => (renamed matches Some(metadata) && metadata.identity()
                == self.identity) && occupied(self.source.text(), before) is None && ready == (
            RenameReady { from: self.destination, to: self.source }),
            Err(message) => if !(renamed matches Some(metadata) && metadata.identity()
                == self.identity) {
                message@ == refusal(self.destination.text(), "reverse rename"@, renamed is Some)
            } else {
                occupied(self.source.text(), before) == Some(message@)
            },
        }
    }

    /// What is at the renamed path, and at the path it had before.
    pub fn checked(self, renamed: Option<Metadata>, before: &Lookup) -> (result: Result<
        RenameReady,
        String,
    >)
        ensures
            self.passes(renamed, *before, result),
    {
        match self.identity.validate(&self.destination, "reverse rename", renamed) {
            Ok(_) => {},
            Err(message) => {
                return Err(message);
            },
        }
        match ensure_unoccupied(&self.source, before) {
            Ok(_) => Ok(RenameReady { from: self.destination, to: self.source }),
            Err(message) => Err(message),
        }
    }
}

/// The permission bits of a mode.
pub const PERMISSION_BITS: u32 = 0o7777;

/// A mode change that is to be carried out on one object.
#[derive(Debug)]
pub struct ModeChange {
    pub path: PathBuf,
    pub expected: FileIdentity,
    pub from: u32,
    pub to: u32,
}

/// What comes of asking to change the bits of what is at a path.
pub open spec fn asks_for_mode(
    path: PathBuf,
    mode: u32,
    found: Lookup,
    result: Result<ModeChange, String>,
) -> bool {
    match found {
        Lookup::Found(metadata) => if metadata.kind is Symlink {
            result matches Err(message) && message@
                == "The permissions of a symbolic link cannot be changed"@
        } else if metadata.mode & PERMISSION_BITS == mode & PERMISSION_BITS {
            result matches Err(message) && message@ == "The permissions are unchanged"@
        } else {
            result == Ok::<ModeChange, String>(
                ModeChange {
                    path,
                    expected: metadata.identity(),
                    from: metadata.mode & PERMISSION_BITS,
                    to: mode,
                },
            )
        },
        _ => result matches Err(message) && message@ == located("Could not inspect"@, path.text()),
    }
}

/// Change an object's permission bits, recording the ones it had. `found` is
/// what is at the path.
///
/// Symbolic links are refused: changing the mode follows them, so the bits
/// would land on whatever the link points at, which is not what was shown.
pub fn set_mode(path: &PathBuf, mode: u32, found: Lookup) -> (result: Result<ModeChange, String>)
    ensures
        asks_for_mode(*path, mode, found, result),
{
    let metadata = match inspect(path, found) {
        Ok(metadata) => metadata,
        Err(message) => {
            return Err(message);
        },
    };
    if metadata.kind == SnapshotKind::Symlink {
        return Err("The permissions of a symbolic link cannot be changed".to_owned());
    }
    let previous: u32 = metadata.mode & PERMISSION_BITS;
    if previous == mode & PERMISSION_BITS {
        return Err("The permissions are unchanged".to_owned());
    }
    Ok(
        ModeChange {
            path: path.clone(),
            expected: FileIdentity::of(&metadata),
            from: previous,
            to: mode,
        },
    )
}

/// The change that takes a mode change back.
pub open spec fn mode_reversal(operation: OperationRecord) -> Option<ModeChange> {
    match operation {
        OperationRecord::SetMode { path, identity, previous, mode } => Some(
            ModeChange { path, expected: identity, from: mode, to: previous },
        ),
        _ => None,
    }
}

/// What is recorded of a mode change once `found` is the object.
pub open spec fn mode_record(path: PathBuf, from: u32, to: u32, found: Metadata) -> OperationRecord {
    OperationRecord::SetMode { path, identity: found.identity(), previous: from, mode: to }
}

/// Undo or redo a mode change by putting the other mode on, which is one more
/// single commit.
pub fn reverse_set_mode(operation: &OperationRecord) -> (result: Result<ModeChange, String>)
    ensures
        match mode_reversal(*operation) {
            Some(change) => result == Ok::<ModeChange, String>(change),
            None => result matches Err(message) && message@
                == "Operation is not a permission change"@,
        },
{
    match operation {
        OperationRecord::SetMode { path, identity, previous, mode } => Ok(
            ModeChange { path: path.clone(), expected: *identity, from: *mode, to: *previous },
        ),
        _ => Err("Operation is not a permission change".to_owned()),
    }
}

/// The object a path named when it was pinned.
#[derive(Clone, Copy, Debug)]
pub enum Pinned {
    /// Nothing could be pinned.
    Gone,
    /// It was pinned, but not identified.
    Uninspected,
    As(Metadata),
}

/// A pinned object whose bits are to be changed.
#[derive(Debug)]
pub struct ModeReady {
    pub path: PathBuf,
    pub from: u32,
    pub to: u32,
}

/// Why the bits of a pinned object cannot be changed, if they cannot.
pub open spec fn mode_refusal(change: ModeChange, pinned: Pinned) -> Option<Seq<char>> {
    match pinned {
        Pinned::Gone => Some(
            about("Cannot change permissions: "@, change.path.text(), " no longer exists"@),
        ),
        Pinned::Uninspected => Some(located("Could not inspect"@, change.path.text())),
        Pinned::As(metadata) => if metadata.kind is Symlink {
            Some("The permissions of a symbolic link cannot be changed"@)
        } else if metadata.identity() != change.expected {
            Some(about("Cannot change permissions: "@, change.path.text(), " changed or was replaced"@))
        } else {
            None
        },
    }
}

impl ModeChange {
    /// What follows from what was pinned.
    pub open spec fn passes(
        self,
        pinned: Pinned,
        result: Result<ModeReady, String>,
    ) -> bool {
        match result {
            Ok(ready) => mode_refusal(self, pinned) is None && ready == (ModeReady {
                path: self.path,
                from: self.from,
                to: self.to,
            }),
            Err(message) => mode_refusal(self, pinned) == Some(message@),
        }
    }

    /// What the path named when it was pinned.
    ///
    /// Changing the mode resolves its path again and follows a symbolic link at
    /// the end of it, so a check followed by a change by path leaves a window
    /// in which the object can be swapped. The object is pinned with a
    /// descriptor instead: the identity check and the commit then concern one
    /// object, whatever the path names in between.
    pub fn change_mode(self, pinned: Pinned) -> (result: Result<ModeReady, String>)
        ensures
            self.passes(pinned, result),
    {
        match pinned {
            Pinned::Gone => Err(
                message_about("Cannot change permissions: ", &self.path, " no longer exists"),
            ),
            Pinned::Uninspected => Err(at("Could not inspect", &self.path)),
            Pinned::As(metadata) => {
                if metadata.kind == SnapshotKind::Symlink {
                    return Err("The permissions of a symbolic link cannot be changed".to_owned());
                }
                if FileIdentity::of(&metadata) != self.expected {
                    return Err(
                        message_about(
                            "Cannot change permissions: ",
                            &self.path,
                            " changed or was replaced",
                        ),
                    );
                }
                Ok(ModeReady { path: self.path, from: self.from, to: self.to })
            },
        }
    }
}

impl ModeReady {
    /// What comes of changing the bits.
    pub open spec fn comes_to(
        self,
        done: bool,
        found: Option<Metadata>,
        result: Result<CommittedOperation, String>,
    ) -> bool {
        match result {
            Ok(committed) => done && published_with(
                committed,
                self.path,
                match found {
                    Some(metadata) => Some(
                        mode_record(self.path, self.from, self.to, metadata),
                    ),
                    None => None,
                },
            ),
            Err(message) => !done && message@ == located(
                "Could not change permissions on"@,
                self.path.text(),
            ),
        }
    }

    /// Whether the bits were changed, and what the object is now.
    ///
    /// The change moved the time of last change, so the record carries a fresh
    /// identity; a failed read costs undo, not the change.
    pub fn changed(self, done: bool, found: Option<Metadata>) -> (result: Result<
        CommittedOperation,
        String,
    >)
        ensures
            self.comes_to(done, found, result),
    {
        if !done {
            return Err(at("Could not change permissions on", &self.path));
        }
        let record = match found {
            Some(metadata) => Some(
                OperationRecord::SetMode {
                    path: self.path.clone(),
                    identity: FileIdentity::of(&metadata),
                    previous: self.from,
                    mode: self.to,
                },
            ),
            None => None,
        };
        Ok(CommittedOperation::published(self.path, record))
    }
}

/// Taking back a mode change that was taken back makes the change again.
pub proof fn lemma_mode_change_reverses_twice(operation: OperationRecord, found: Metadata)
    requires
        operation is SetMode,
    ensures
        ({
            let back = mode_reversal(operation).unwrap();
            let forth = mode_reversal(mode_record(back.path, back.from, back.to, found)).unwrap();
            &&& operation matches OperationRecord::SetMode { path, previous, mode, .. }
            &&& forth.path == path
            &&& forth.from == previous
            &&& forth.to == mode
            &&& forth.expected == found.identity()
        }),
{
}

/// Taking back a rename that was taken back renames the entry again.
pub proof fn lemma_rename_reverses_twice(operation: OperationRecord, found: Metadata)
    requires
        operation is Rename,
    ensures
        ({
            let back = rename_reversal(operation).unwrap();
            let forth = rename_reversal(
                rename_record(back.destination, back.source, found),
            ).unwrap();
            &&& operation matches OperationRecord::Rename { source, destination, .. }
            &&& forth.source == destination
            &&& forth.destination == source
            &&& forth.identity == found.identity()
        }),
{
}

} // verus!
