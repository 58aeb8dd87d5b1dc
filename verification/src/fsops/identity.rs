//! Who a filesystem object is.
//!
//! Every mutation that can be undone, and every deletion that is staged,
//! re-reads the object it is about to touch and refuses unless it is still the
//! one it recorded. This is the one description of "the same object" they all
//! share.

use vstd::prelude::*;

use crate::fsops::local::{inspect, located, Lookup};
use crate::path::PathBuf;
use crate::text::utf8_lossy;

verus! {

/// The kinds of filesystem object that are told apart.
///
/// The kinds that cannot be reproduced are kept distinct: a refusal can name
/// the exact obstacle, and because snapshots compare by equality, a socket
/// replaced by a FIFO at the same path is rejected on kind alone.
#[derive(Clone, Copy, Debug, PartialEq, Eq, Structural)]
pub enum SnapshotKind {
    Directory,
    File,
    Symlink,
    BlockDevice,
    CharDevice,
    Socket,
    Fifo,
    Unknown,
}

impl SnapshotKind {
    /// The kind of an object about which each of these questions was asked,
    /// in this order.
    pub fn of(
        is_dir: bool,
        is_file: bool,
        is_symlink: bool,
        is_block_device: bool,
        is_char_device: bool,
        is_socket: bool,
        is_fifo: bool,
    ) -> (kind: SnapshotKind)
        ensures
            is_dir ==> kind is Directory,
            !is_dir && is_file ==> kind is File,
            !is_dir && !is_file && is_symlink ==> kind is Symlink,
            !is_dir && !is_file && !is_symlink && is_block_device ==> kind is BlockDevice,
            !is_dir && !is_file && !is_symlink && !is_block_device && is_char_device
                ==> kind is CharDevice,
            !is_dir && !is_file && !is_symlink && !is_block_device && !is_char_device && is_socket
                ==> kind is Socket,
            !is_dir && !is_file && !is_symlink && !is_block_device && !is_char_device && !is_socket
                && is_fifo ==> kind is Fifo,
            !is_dir && !is_file && !is_symlink && !is_block_device && !is_char_device && !is_socket
                && !is_fifo ==> kind is Unknown,
    {
        if is_dir {
            SnapshotKind::Directory
        } else if is_file {
            SnapshotKind::File
        } else if is_symlink {
            SnapshotKind::Symlink
        } else if is_block_device {
            SnapshotKind::BlockDevice
        } else if is_char_device {
            SnapshotKind::CharDevice
        } else if is_socket {
            SnapshotKind::Socket
        } else if is_fifo {
            SnapshotKind::Fifo
        } else {
            SnapshotKind::Unknown
        }
    }

    /// Whether an object of this kind can be moved but never reproduced or
    /// removed.
    pub open spec fn special(self) -> bool {
        !(self is Directory || self is File || self is Symlink)
    }

    pub fn is_special(self) -> (special: bool)
        ensures
            special == self.special(),
    {
        !matches!(self, SnapshotKind::Directory | SnapshotKind::File | SnapshotKind::Symlink)
    }

    /// What an object of this kind is called in a refusal.
    pub open spec fn called(self) -> Seq<char> {
        match self {
            SnapshotKind::Directory => "a directory"@,
            SnapshotKind::File => "a regular file"@,
            SnapshotKind::Symlink => "a symbolic link"@,
            SnapshotKind::BlockDevice => "a block device"@,
            SnapshotKind::CharDevice => "a character device"@,
            SnapshotKind::Socket => "a socket"@,
            SnapshotKind::Fifo => "a FIFO"@,
            SnapshotKind::Unknown => "an unrecognized filesystem object"@,
        }
    }

    pub fn label(self) -> (label: &'static str)
        ensures
            label@ == self.called(),
    {
        match self {
            SnapshotKind::Directory => "a directory",
            SnapshotKind::File => "a regular file",
            SnapshotKind::Symlink => "a symbolic link",
            SnapshotKind::BlockDevice => "a block device",
            SnapshotKind::CharDevice => "a character device",
            SnapshotKind::Socket => "a socket",
            SnapshotKind::Fifo => "a FIFO",
            SnapshotKind::Unknown => "an unrecognized filesystem object",
        }
    }
}

/// What the filesystem says about one object, links not followed.
#[derive(Clone, Copy, Debug, PartialEq, Eq, Structural)]
pub struct Metadata {
    pub device: u64,
    pub inode: u64,
    /// When the object last changed: seconds, and nanoseconds within them.
    pub changed_seconds: i64,
    pub changed_nanoseconds: i64,
    pub kind: SnapshotKind,
    pub len: u64,
    pub mode: u32,
    pub links: u64,
}

/// Device and inode: the part of an identity a rename preserves.
///
/// It is the key carried across a commit boundary, because the commit itself
/// — a rename — moves the time of last change and so invalidates the fuller
/// identity.
#[derive(Clone, Copy, Debug, PartialEq, Eq, Structural)]
pub struct ObjectKey {
    pub device: u64,
    pub inode: u64,
}

/// An object plus its time of last change, which moves on any change to it.
#[derive(Clone, Copy, Debug, PartialEq, Eq, Structural)]
pub struct FileIdentity {
    pub key: ObjectKey,
    pub changed_seconds: i64,
    pub changed_nanoseconds: i64,
}

impl Metadata {
    /// Device and inode of the object.
    pub open spec fn key(self) -> ObjectKey {
        ObjectKey { device: self.device, inode: self.inode }
    }

    /// Device, inode and time of last change of the object.
    pub open spec fn identity(self) -> FileIdentity {
        FileIdentity {
            key: self.key(),
            changed_seconds: self.changed_seconds,
            changed_nanoseconds: self.changed_nanoseconds,
        }
    }
}

/// `{before}“{path}”{after}`
pub open spec fn about(before: Seq<char>, path: Seq<u8>, after: Seq<char>) -> Seq<char> {
    before + "“"@ + utf8_lossy(path) + "”"@ + after
}

/// A message with a path in the middle: `{before}“{path}”{after}`.
pub fn message_about(before: &str, path: &PathBuf, after: &str) -> (message: String)
    ensures
        message@ == about(before@, path.text(), after@),
{
    let mut message = before.to_owned();
    message.append("“");
    let shown = path.display();
    message.append(shown.as_str());
    message.append("”");
    message.append(after);
    message
}

impl ObjectKey {
    pub fn of(metadata: &Metadata) -> (key: ObjectKey)
        ensures
            key == metadata.key(),
    {
        ObjectKey { device: metadata.device, inode: metadata.inode }
    }

    /// Whether what was found at `path` is still this object.
    pub fn validate(self, path: &PathBuf, found: Option<Metadata>) -> (verdict: Result<(), String>)
        ensures
            verdict is Ok <==> (found matches Some(metadata) && metadata.key() == self),
            found is None ==> verdict->Err_0@ == about(
                "Cannot continue: "@,
                path.text(),
                " is missing"@,
            ),
            found matches Some(metadata) && metadata.key() != self ==> verdict->Err_0@ == about(
                "Cannot continue: "@,
                path.text(),
                " changed or was replaced"@,
            ),
    {
        match found {
            None => Err(message_about("Cannot continue: ", path, " is missing")),
            Some(metadata) => if ObjectKey::of(&metadata) == self {
                Ok(())
            } else {
                Err(message_about("Cannot continue: ", path, " changed or was replaced"))
            },
        }
    }
}

impl FileIdentity {
    pub fn of(metadata: &Metadata) -> (identity: FileIdentity)
        ensures
            identity == metadata.identity(),
    {
        FileIdentity {
            key: ObjectKey::of(metadata),
            changed_seconds: metadata.changed_seconds,
            changed_nanoseconds: metadata.changed_nanoseconds,
        }
    }

    /// The identity of what was found at `path`.
    pub fn read(path: &PathBuf, found: Lookup) -> (identity: Result<FileIdentity, String>)
        ensures
            match identity {
                Ok(identity) => found matches Lookup::Found(metadata) && identity
                    == metadata.identity(),
                Err(message) => !(found is Found) && message@ == located(
                    "Could not inspect"@,
                    path.text(),
                ),
            },
    {
        match inspect(path, found) {
            Ok(metadata) => Ok(FileIdentity::of(&metadata)),
            Err(message) => Err(message),
        }
    }

    /// Refuse what was found at `path` unless it is still this object,
    /// unchanged since it was recorded.
    pub fn validate(&self, path: &PathBuf, action: &str, found: Option<Metadata>) -> (verdict:
        Result<(), String>)
        ensures
            verdict is Ok <==> (found matches Some(metadata) && metadata.identity() == *self),
            verdict matches Err(message) ==> message@ == refusal(path.text(), action@, found is Some),
    {
        let mut before = "Cannot ".to_owned();
        before.append(action);
        before.append(": ");
        match found {
            None => Err(message_about(before.as_str(), path, " no longer exists")),
            Some(metadata) => if FileIdentity::of(&metadata) == *self {
                Ok(())
            } else {
                Err(message_about(before.as_str(), path, " changed or was replaced"))
            },
        }
    }
}

/// Why an object cannot be acted on: it is gone, or it is not the recorded one.
pub open spec fn refusal(path: Seq<u8>, action: Seq<char>, exists_still: bool) -> Seq<char> {
    about(
        "Cannot "@ + action + ": "@,
        path,
        if exists_still {
            " changed or was replaced"@
        } else {
            " no longer exists"@
        },
    )
}

} // verus!
