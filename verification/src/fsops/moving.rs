//! Moving one entry with a single rename, or across filesystems where a rename
//! cannot, and measuring what a transfer will carry.

use vstd::prelude::*;

use crate::fsops::carry::CarryAcross;
use crate::fsops::copy::{adopted, all_still_there, published_at};
use crate::fsops::dropped::Dropped;
use crate::fsops::identity::{about, message_about, Metadata, SnapshotKind};
use crate::fsops::journal::{MoveRecord, PathSnapshot};
use crate::fsops::local::{
    diagnose_rename, ensure_unoccupied, models, occupied, rename_diagnosis, Lookup, Name,
    RenameError, RenameErrorKind,
};
use crate::fsops::snapshots::{rebase_snapshots, refresh_snapshot_identities};
use crate::fsops::{counted, TransferProgress, TransferProgressSnapshot};
use crate::path::PathBuf;

verus! {

/// What a move that did not happen is reported as.
pub open spec fn move_failure(
    error: RenameError,
    source: Seq<u8>,
    destination: Seq<u8>,
) -> Seq<char> {
    about(
        "Could not move "@,
        source,
        about(" to "@, destination, ": "@ + rename_diagnosis(error, destination)),
    )
}

pub fn move_error(error: &RenameError, source: &PathBuf, destination: &PathBuf) -> (message: String)
    ensures
        message@ == move_failure(*error, source.text(), destination.text()),
{
    let mut reason = ": ".to_owned();
    let diagnosis = diagnose_rename(error, destination);
    reason.append(diagnosis.as_str());
    let rest = message_about(" to ", destination, reason.as_str());
    message_about("Could not move ", source, rest.as_str())
}

/// A move whose destination is free; whether it lies inside its own source is
/// asked next.
#[derive(Debug)]
pub struct PreparingMove {
    pub source: PathBuf,
    pub destination: PathBuf,
    pub snapshot_limit: usize,
}

/// A move that is to be described, then carried out.
#[derive(Debug)]
pub struct MoveReady {
    pub source: PathBuf,
    pub destination: PathBuf,
    pub snapshot_limit: usize,
}

/// What came of a rename.
#[derive(Debug)]
pub enum MoveStep {
    /// The entry moved, and its parts are to be identified again.
    Confirm(MoveConfirm),
    /// The destination is on another filesystem.
    Carry(CarryAcross),
    Failed(MoveFailure),
}

/// A move that failed, and whether its copy was published before it did.
#[derive(Debug)]
pub struct MoveFailure {
    pub message: String,
    pub published: bool,
}

/// A move that happened: what undo needs of it, if that could be described,
/// and what the destination could not keep.
#[derive(Debug)]
pub struct Moved {
    pub record: Option<MoveRecord>,
    pub dropped: Dropped,
}

impl MoveFailure {
    /// A move that failed before anything arrived.
    pub fn refused(message: String) -> (failure: MoveFailure)
        ensures
            failure.message == message,
            !failure.published,
    {
        MoveFailure { message, published: false }
    }
}

/// A move that happened, and whose parts are to be identified again.
#[derive(Debug)]
pub struct MoveConfirm {
    pub source: PathBuf,
    pub destination: PathBuf,
    /// What was moved, at the paths it is at now, if it could be described.
    pub expected_state: Option<Vec<PathSnapshot>>,
    /// What the destination could not keep.
    pub dropped: Dropped,
}

/// Whether `result` is how moving an entry begins.
pub open spec fn begins_move(
    source: PathBuf,
    destination: PathBuf,
    snapshot_limit: usize,
    found: Lookup,
    result: Result<PreparingMove, MoveFailure>,
) -> bool {
    match result {
        Ok(preparing) => occupied(destination.text(), found) is None && preparing == (
        PreparingMove { source: source, destination: destination, snapshot_limit }),
        Err(failure) => !failure.published && occupied(destination.text(), found) == Some(
            failure.message@,
        ),
    }
}

/// Starts moving `source` to `destination`. `found` is what is at the
/// destination. At most `snapshot_limit` entries are recorded.
///
/// A committed move is never reported as a failure: the caller would leave a
/// vanished source in the browser, keep a dangling cut clipboard, and tell the
/// user nothing happened.
pub fn move_one(
    source: &PathBuf,
    destination: &PathBuf,
    snapshot_limit: usize,
    found: &Lookup,
) -> (result: Result<PreparingMove, MoveFailure>)
    ensures
        begins_move(*source, *destination, snapshot_limit, *found, result),
{
    match ensure_unoccupied(destination, found) {
        Ok(_) => Ok(
            PreparingMove {
                source: source.clone(),
                destination: destination.clone(),
                snapshot_limit,
            },
        ),
        Err(message) => Err(MoveFailure::refused(message)),
    }
}

impl PreparingMove {
    /// Whether `result` is what the search for the source above comes to.
    pub open spec fn passes(
        self,
        verdict: Result<(), String>,
        result: Result<MoveReady, MoveFailure>,
    ) -> bool {
        match verdict {
            Ok(_) => result == Ok::<MoveReady, MoveFailure>(
                MoveReady {
                    source: self.source,
                    destination: self.destination,
                    snapshot_limit: self.snapshot_limit,
                },
            ),
            Err(why) => result == Err::<MoveReady, MoveFailure>(
                MoveFailure { message: why, published: false },
            ),
        }
    }

    /// Whether the destination lies outside the source, or why the move is
    /// refused.
    pub fn contained(self, verdict: Result<(), String>) -> (result: Result<MoveReady, MoveFailure>)
        ensures
            self.passes(verdict, result),
    {
        match verdict {
            Ok(_) => Ok(
                MoveReady {
                    source: self.source,
                    destination: self.destination,
                    snapshot_limit: self.snapshot_limit,
                },
            ),
            Err(why) => Err(MoveFailure::refused(why)),
        }
    }
}

impl MoveReady {
    /// Whether `step` is what a rename comes to.
    pub open spec fn follows(
        self,
        prepared: Option<Vec<PathSnapshot>>,
        renamed: Result<(), RenameError>,
        step: MoveStep,
    ) -> bool {
        match renamed {
            Err(error) => if error.kind is CrossesDevices {
                step == MoveStep::Carry(
                    CarryAcross {
                        source: self.source,
                        destination: self.destination,
                        limit: self.snapshot_limit,
                    },
                )
            } else {
                step matches MoveStep::Failed(failure) && !failure.published
                    && failure.message@ == move_failure(
                    error,
                    self.source.text(),
                    self.destination.text(),
                )
            },
            Ok(_) => step matches MoveStep::Confirm(confirm) && confirm.source == self.source
                && confirm.destination == self.destination && confirm.dropped.is_nothing()
                && match prepared {
                None => confirm.expected_state is None,
                Some(before) => confirm.expected_state matches Some(after) && published_at(
                    before@,
                    after@,
                    self.source@,
                    self.destination@,
                ),
            },
        }
    }

    /// What describing the tree gave before the rename, and whether the rename
    /// happened.
    ///
    /// The walk is bookkeeping rather than a precondition. A rename does not
    /// care what a directory holds — a tree with sockets or FIFOs in it is
    /// still movable, it just cannot be described for undo.
    ///
    /// No rename reaches another filesystem, so there the entry is carried
    /// across.
    pub fn renamed(
        self,
        prepared: Option<Vec<PathSnapshot>>,
        renamed: Result<(), RenameError>,
    ) -> (step: MoveStep)
        ensures
            self.follows(prepared, renamed, step),
    {
        match renamed {
            Ok(_) => {},
            Err(error) => {
                if error.kind == RenameErrorKind::CrossesDevices {
                    return MoveStep::Carry(
                        CarryAcross {
                            source: self.source,
                            destination: self.destination,
                            limit: self.snapshot_limit,
                        },
                    );
                }
                return MoveStep::Failed(
                    MoveFailure::refused(move_error(&error, &self.source, &self.destination)),
                );
            },
        }
        let expected_state = match prepared {
            None => None,
            Some(prepared) => {
                let mut snapshots = prepared;
                rebase_snapshots(&mut snapshots, &self.source, &self.destination);
                Some(snapshots)
            },
        };
        MoveStep::Confirm(
            MoveConfirm {
                source: self.source,
                destination: self.destination,
                expected_state,
                dropped: Dropped::nothing(),
            },
        )
    }
}

impl MoveConfirm {
    /// Whether `moved` is what a move comes to, given what is at its paths.
    pub open spec fn settles(self, found: Seq<Option<Metadata>>, moved: Moved) -> bool {
        &&& moved.dropped == self.dropped
        &&& match self.expected_state {
            None => moved.record is None,
            Some(before) => match moved.record {
                Some(record) => all_still_there(before@, found) && record.source == self.source
                    && record.destination == self.destination && adopted(
                    before@,
                    record.expected_state@,
                    found,
                ),
                None => !all_still_there(before@, found),
            },
        }
    }

    /// What is now at each of the moved paths. A rename preserves every
    /// descendant's identity but moves the renamed root's time of last change.
    /// There is no record when the move cannot be described for undo.
    pub fn confirmed(self, found: &Vec<Option<Metadata>>) -> (moved: Moved)
        ensures
            self.settles(found@, moved),
    {
        let mut expected_state = match self.expected_state {
            Some(expected_state) => expected_state,
            None => {
                return Moved { record: None, dropped: self.dropped };
            },
        };
        if !refresh_snapshot_identities(&mut expected_state, found) {
            return Moved { record: None, dropped: self.dropped };
        }
        Moved {
            record: Some(
                MoveRecord { source: self.source, destination: self.destination, expected_state },
            ),
            dropped: self.dropped,
        }
    }
}

/// Counting what a copy will carry.
#[derive(Debug)]
pub struct Measuring {
    /// What is left to count, the next one last.
    pub pending: Vec<PathBuf>,
}

/// Counting waits to know what is at `path`.
#[derive(Debug)]
pub struct MeasureWanted {
    pub measuring: Measuring,
    pub path: PathBuf,
}

/// What counting wants once an entry is known.
#[derive(Debug)]
pub enum MeasureStep {
    /// List the directory.
    List(MeasureList),
    Next(Measuring),
}

/// Counting waits for the names in a directory.
#[derive(Debug)]
pub struct MeasureList {
    pub measuring: Measuring,
    pub path: PathBuf,
}

/// Starts counting what lies at and under `path`.
pub fn measure_entry(path: &PathBuf) -> (measuring: Measuring)
    ensures
        measuring.pending@ == seq![*path],
{
    let mut pending: Vec<PathBuf> = Vec::new();
    pending.push(path.clone());
    Measuring { pending }
}

impl Measuring {
    /// The next entry to look at, unless there is none or the operation was
    /// abandoned.
    pub fn next(self, cancelled: bool) -> (wanted: Option<MeasureWanted>)
        ensures
            match wanted {
                None => cancelled || self.pending@.len() == 0,
                Some(wanted) => !cancelled && self.pending@.len() > 0 && wanted.path
                    == self.pending@.last() && wanted.measuring.pending@
                    == self.pending@.drop_last(),
            },
    {
        if cancelled {
            return None;
        }
        let Measuring { pending } = self;
        let mut pending = pending;
        match pending.pop() {
            None => None,
            Some(path) => Some(MeasureWanted { measuring: Measuring { pending }, path }),
        }
    }
}

impl MeasureWanted {
    /// Whether counting an entry takes the totals from `before` to `after`, and
    /// goes on with `step`.
    pub open spec fn counts(
        self,
        found: Option<Metadata>,
        before: TransferProgressSnapshot,
        after: TransferProgressSnapshot,
        step: MeasureStep,
    ) -> bool {
        match found {
            None => step == MeasureStep::Next(self.measuring) && after == before,
            Some(metadata) => {
                &&& after == (TransferProgressSnapshot {
                    total_items: counted(before.total_items, 1),
                    total_bytes: counted(
                        before.total_bytes,
                        if metadata.kind is File {
                            metadata.len
                        } else {
                            0
                        },
                    ),
                    ..before
                })
                &&& if metadata.kind is Directory {
                    step == MeasureStep::List(
                        MeasureList { measuring: self.measuring, path: self.path },
                    )
                } else {
                    step == MeasureStep::Next(self.measuring)
                }
            },
        }
    }

    /// What is at the path, if anything is.
    pub fn found(self, found: Option<Metadata>, progress: &mut TransferProgress) -> (step:
        MeasureStep)
        ensures
            self.counts(found, old(progress)@, final(progress)@, step),
    {
        let metadata = match found {
            Some(metadata) => metadata,
            None => {
                return MeasureStep::Next(self.measuring);
            },
        };
        let bytes: u64 = if metadata.kind == SnapshotKind::File { metadata.len } else { 0 };
        progress.add_total(1, bytes);
        if metadata.kind == SnapshotKind::Directory {
            MeasureStep::List(MeasureList { measuring: self.measuring, path: self.path })
        } else {
            MeasureStep::Next(self.measuring)
        }
    }
}

impl MeasureList {
    /// The names that could be read in the directory.
    pub fn listed(self, children: &Vec<Name>) -> (measuring: Measuring)
        ensures
            models(measuring.pending@) == models(self.measuring.pending@) + Seq::new(
                children@.len(),
                |i: int| self.path@.join(children@[i]@),
            ),
    {
        let MeasureList { measuring, path } = self;
        let Measuring { pending } = measuring;
        let mut pending = pending;
        let ghost before = models(pending@);
        let ghost added = Seq::new(children@.len(), |i: int| path@.join(children@[i]@));
        let mut i: usize = 0;
        assert(models(pending@) =~= before + added.take(0));
        while i < children.len()
            invariant
                i <= children@.len(),
                added == Seq::new(children@.len(), |k: int| path@.join(children@[k]@)),
                models(pending@) == before + added.take(i as int),
            decreases children.len() - i,
        {
            let ghost earlier = pending@;
            pending.push(path.join(children[i].as_bytes()));
            proof {
                assert(models(pending@) =~= models(earlier).push(added[i as int]));
                assert(added.take(i + 1) =~= added.take(i as int).push(added[i as int]));
            }
            i += 1;
        }
        assert(added.take(children@.len() as int) =~= added);
        Measuring { pending }
    }
}

} // verus!
