//! What is asked when a destination is taken, and what can be answered.

use vstd::prelude::*;

use crate::fsops::identity::{Metadata, ObjectKey, SnapshotKind};
use crate::fsops::local::Lookup;
use crate::path::{push_bytes, PathBuf, DOT};
use crate::text::{decimal_bytes, decimal_digits};

verus! {

/// A destination that is taken.
#[derive(Debug)]
pub struct ConflictRequest {
    pub source: PathBuf,
    pub destination: PathBuf,
    pub source_is_directory: bool,
    pub destination_is_directory: bool,
}

impl ConflictRequest {
    /// Whether two directories meet.
    pub open spec fn joins_directories(self) -> bool {
        self.source_is_directory && self.destination_is_directory
    }

    pub fn is_merge(&self) -> (merge: bool)
        ensures
            merge == self.joins_directories(),
    {
        self.source_is_directory && self.destination_is_directory
    }
}

/// What to do about a destination that is taken.
#[derive(Debug)]
pub enum ConflictResponse {
    /// Leave this source where it is.
    Skip,
    /// Abandon the whole operation.
    Cancel,
    /// Use this name instead.
    Rename(Vec<u8>),
    /// Use a free name instead, whichever it is.
    AutoRename,
    /// Put the source in the place of what is there, or, where two directories
    /// meet, join them.
    Replace,
}

/// An answer that can serve for more than the conflict it was given to. A name
/// is no such answer: it is given to one source.
#[derive(Clone, Copy, Debug, PartialEq, Eq, Structural)]
pub enum StandingAnswer {
    Skip,
    Cancel,
    AutoRename,
    Replace,
}

impl StandingAnswer {
    /// What it answers.
    pub open spec fn says(self) -> ConflictResponse {
        match self {
            StandingAnswer::Skip => ConflictResponse::Skip,
            StandingAnswer::Cancel => ConflictResponse::Cancel,
            StandingAnswer::AutoRename => ConflictResponse::AutoRename,
            StandingAnswer::Replace => ConflictResponse::Replace,
        }
    }

    pub fn response(self) -> (response: ConflictResponse)
        ensures
            response == self.says(),
    {
        match self {
            StandingAnswer::Skip => ConflictResponse::Skip,
            StandingAnswer::Cancel => ConflictResponse::Cancel,
            StandingAnswer::AutoRename => ConflictResponse::AutoRename,
            StandingAnswer::Replace => ConflictResponse::Replace,
        }
    }
}

/// An answer, and whether it is to serve for the rest of the operation.
#[derive(Debug)]
pub struct ConflictDecision {
    pub response: ConflictResponse,
    pub for_the_rest: bool,
}

impl ConflictDecision {
    /// An answer to one conflict.
    pub fn once(response: ConflictResponse) -> (decision: ConflictDecision)
        ensures
            decision == (ConflictDecision { response, for_the_rest: false }),
    {
        ConflictDecision { response, for_the_rest: false }
    }

    /// An answer to this conflict and every later one.
    pub fn for_all(response: ConflictResponse) -> (decision: ConflictDecision)
        ensures
            decision == (ConflictDecision { response, for_the_rest: true }),
    {
        ConflictDecision { response, for_the_rest: true }
    }

    /// The answer to every later conflict, if this decides them. Abandoning
    /// the operation leaves nothing to ask, however it was meant.
    pub open spec fn standing(self) -> Option<StandingAnswer> {
        match self.response {
            ConflictResponse::Cancel => Some(StandingAnswer::Cancel),
            ConflictResponse::Rename(_) => None,
            ConflictResponse::Skip if self.for_the_rest => Some(StandingAnswer::Skip),
            ConflictResponse::AutoRename if self.for_the_rest => Some(StandingAnswer::AutoRename),
            ConflictResponse::Replace if self.for_the_rest => Some(StandingAnswer::Replace),
            _ => None,
        }
    }
}

/// What is known of the answers to come, while one operation runs.
#[derive(Clone, Copy, Debug)]
pub struct ConflictPolicy {
    standing: Option<StandingAnswer>,
}

impl View for ConflictPolicy {
    type V = Option<StandingAnswer>;

    closed spec fn view(&self) -> Option<StandingAnswer> {
        self.standing
    }
}

impl ConflictPolicy {
    /// Every conflict is asked about.
    pub fn new() -> (policy: ConflictPolicy)
        ensures
            policy@ is None,
    {
        ConflictPolicy { standing: None }
    }

    /// The answer to a conflict that nobody has to be asked about.
    pub fn known(&self) -> (response: Option<ConflictResponse>)
        ensures
            match self@ {
                Some(answer) => response == Some(answer.says()),
                None => response is None,
            },
    {
        match self.standing {
            Some(answer) => Some(answer.response()),
            None => None,
        }
    }

    /// Takes in the answer to a conflict that was asked about. What stands
    /// already is not changed by it.
    pub fn decide(&mut self, decision: ConflictDecision) -> (response: ConflictResponse)
        ensures
            response == decision.response,
            final(self)@ == if old(self)@ is Some {
                old(self)@
            } else {
                decision.standing()
            },
    {
        if self.standing.is_none() {
            self.standing = match &decision.response {
                ConflictResponse::Cancel => Some(StandingAnswer::Cancel),
                ConflictResponse::Rename(_) => None,
                ConflictResponse::Skip => if decision.for_the_rest {
                    Some(StandingAnswer::Skip)
                } else {
                    None
                },
                ConflictResponse::AutoRename => if decision.for_the_rest {
                    Some(StandingAnswer::AutoRename)
                } else {
                    None
                },
                ConflictResponse::Replace => if decision.for_the_rest {
                    Some(StandingAnswer::Replace)
                } else {
                    None
                },
            };
        }
        decision.response
    }
}

/// What is at a destination.
#[derive(Clone, Copy, Debug)]
pub struct Occupant {
    pub is_directory: bool,
    pub key: ObjectKey,
}

/// What is at a destination, if anything is.
pub fn describe_occupant(found: &Lookup) -> (occupant: Result<Option<Occupant>, String>)
    ensures
        match found {
            Lookup::Found(metadata) => occupant == Ok::<Option<Occupant>, String>(
                Some(
                    Occupant { is_directory: metadata.kind is Directory, key: metadata.key() },
                ),
            ),
            Lookup::Missing => occupant == Ok::<Option<Occupant>, String>(None),
            Lookup::Failed(error) => occupant is Err && occupant->Err_0@ == error@,
        },
{
    match found {
        Lookup::Found(metadata) => Ok(
            Some(
                Occupant {
                    is_directory: metadata.kind == SnapshotKind::Directory,
                    key: ObjectKey::of(metadata),
                },
            ),
        ),
        Lookup::Missing => Ok(None),
        Lookup::Failed(error) => Err(error.clone()),
    }
}

impl Occupant {
    pub fn is_same_object_as(&self, metadata: &Metadata) -> (same: bool)
        ensures
            same == (self.key == metadata.key()),
    {
        self.key == ObjectKey::of(metadata)
    }
}

/// Where the extension of a file name begins: at its last dot, unless that is
/// the first byte.
pub open spec fn extension_start(name: Seq<u8>, end: int) -> int
    decreases end,
{
    if end <= 1 || end > name.len() {
        name.len() as int
    } else if name[end - 1] == DOT {
        end - 1
    } else {
        extension_start(name, end - 1)
    }
}

/// `report (2).txt`: a name with a number before its extension. A directory
/// has no extension.
pub open spec fn numbered(name: Seq<u8>, number: nat, is_directory: bool) -> Seq<u8> {
    let cut = if is_directory {
        name.len() as int
    } else {
        extension_start(name, name.len() as int)
    };
    name.take(cut) + seq![32u8, 40] + decimal_bytes(number) + seq![41u8] + name.skip(cut)
}

/// The name to try as the `number`th when `name` is taken.
pub fn numbered_name(name: &[u8], number: u64, is_directory: bool) -> (candidate: Vec<u8>)
    ensures
        candidate@ == numbered(name@, number as nat, is_directory),
{
    let mut cut: usize = name.len();
    if !is_directory {
        let mut end: usize = name.len();
        let mut found = false;
        while end > 1 && !found
            invariant
                end <= name.len(),
                cut == name.len() || found,
                found ==> cut as int == extension_start(name@, name@.len() as int) && cut
                    <= name.len(),
                !found ==> extension_start(name@, end as int) == extension_start(
                    name@,
                    name@.len() as int,
                ),
            decreases
                    end + (if found {
                        0int
                    } else {
                        1int
                    }),
        {
            if name[end - 1] == DOT {
                cut = end - 1;
                found = true;
            } else {
                end -= 1;
            }
        }
    }
    let mut candidate: Vec<u8> = Vec::new();
    push_bytes(&mut candidate, vstd::slice::slice_subrange(name, 0, cut));
    candidate.push(32u8);
    candidate.push(40u8);
    let digits = decimal_digits(number);
    push_bytes(&mut candidate, digits.as_slice());
    candidate.push(41u8);
    push_bytes(&mut candidate, vstd::slice::slice_subrange(name, cut, name.len()));
    assert(candidate@ =~= numbered(name@, number as nat, is_directory));
    candidate
}

} // verus!
