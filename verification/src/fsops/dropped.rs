//! What a filesystem cannot keep of what is copied to it.
//!
//! FAT and NTFS have no room for permissions, extended attributes or symbolic
//! links. A copy that lands there goes without them, and the operation says so
//! once.

use vstd::prelude::*;

use crate::fsops::copy::AttributeError;

verus! {

/// What was left behind because the destination cannot keep it.
#[derive(Clone, Copy, Debug, PartialEq, Eq, Structural)]
pub struct Dropped {
    pub permissions: bool,
    pub attributes: bool,
    pub links: bool,
}

/// What came of setting something on a copy.
#[derive(Clone, Copy, Debug, PartialEq, Eq, Structural)]
pub enum Kept {
    Done,
    /// The filesystem has no room for it.
    Unsupported,
    Failed,
}

/// `permissions, extended attributes, symbolic links`, as far as dropped.
pub open spec fn dropped_list(dropped: Dropped) -> Seq<char> {
    let first = if dropped.permissions {
        "permissions"@
    } else {
        ""@
    };
    let second = if !dropped.attributes {
        first
    } else if dropped.permissions {
        first + ", extended attributes"@
    } else {
        "extended attributes"@
    };
    if !dropped.links {
        second
    } else if dropped.permissions || dropped.attributes {
        second + ", symbolic links"@
    } else {
        "symbolic links"@
    }
}

impl Dropped {
    /// Whether everything was kept.
    pub open spec fn is_nothing(self) -> bool {
        !self.permissions && !self.attributes && !self.links
    }

    /// What either left behind.
    pub open spec fn with(self, other: Dropped) -> Dropped {
        Dropped {
            permissions: self.permissions || other.permissions,
            attributes: self.attributes || other.attributes,
            links: self.links || other.links,
        }
    }

    pub fn nothing() -> (dropped: Dropped)
        ensures
            dropped.is_nothing(),
    {
        Dropped { permissions: false, attributes: false, links: false }
    }

    pub fn also(self, other: Dropped) -> (both: Dropped)
        ensures
            both == self.with(other),
    {
        Dropped {
            permissions: self.permissions || other.permissions,
            attributes: self.attributes || other.attributes,
            links: self.links || other.links,
        }
    }

    /// The one sentence that says what was dropped, if anything was.
    pub fn note(self) -> (note: Option<String>)
        ensures
            match note {
                None => self.is_nothing(),
                Some(note) => !self.is_nothing() && note@
                    == "The destination cannot keep everything; dropped: "@ + dropped_list(self),
            },
    {
        if !self.permissions && !self.attributes && !self.links {
            return None;
        }
        let mut list = if self.permissions { "permissions".to_owned() } else { "".to_owned() };
        if self.attributes {
            if self.permissions {
                list.append(", extended attributes");
            } else {
                list = "extended attributes".to_owned();
            }
        }
        if self.links {
            if self.permissions || self.attributes {
                list.append(", symbolic links");
            } else {
                list = "symbolic links".to_owned();
            }
        }
        let mut note = "The destination cannot keep everything; dropped: ".to_owned();
        note.append(list.as_str());
        Some(note)
    }
}

/// Whether an error says that the filesystem has no room for what was to be
/// set: the system says so, or refuses what the owner of a file may do
/// everywhere else.
pub open spec fn has_no_room(error: AttributeError) -> bool {
    error.unsupported || error.code == Some(1i32) || error.code == Some(38i32) || error.code
        == Some(95i32)
}

/// What a failure to set something on a copy means.
pub fn kept_despite(error: AttributeError) -> (kept: Kept)
    ensures
        kept == (if has_no_room(error) {
            Kept::Unsupported
        } else {
            Kept::Failed
        }),
{
    if error.unsupported || matches!(error.code, Some(1) | Some(38) | Some(95)) {
        Kept::Unsupported
    } else {
        Kept::Failed
    }
}

} // verus!
