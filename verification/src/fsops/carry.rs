//! Moving an entry to another filesystem: it is copied, the copy is checked,
//! and only then is the original removed.
//!
//! Nothing is removed before a whole copy is published, and nothing is
//! published before the copy is known to mirror the original and neither has
//! changed meanwhile. Until then a failure leaves everything as it was.

use vstd::prelude::*;

use crate::fsops::copier::StagedCopy;
use crate::fsops::copy::{published_at, PreparingCopy, PublishWanted, StagingWanted};
use crate::fsops::delete::{delete_checked, Approved, DeleteOutcome, Deletion};
use crate::fsops::dropped::Dropped;
use crate::fsops::identity::{about, message_about, ObjectKey, SnapshotKind};
use crate::fsops::journal::{copy_snapshots, PathSnapshot};
use crate::fsops::moving::{MoveConfirm, MoveFailure};
use crate::fsops::snapshots::{
    change_reported, rebase_snapshots, rebased, unchanged_since, validate_snapshot_tree, Walked,
};
use crate::fsops::{TransferProgress, TransferProgressSnapshot};
use crate::path::{PathBuf, PathModel};

verus! {

/// An entry that is to be carried to another filesystem. At most `limit`
/// entries of it are recorded for undo.
#[derive(Debug)]
pub struct CarryAcross {
    pub source: PathBuf,
    pub destination: PathBuf,
    pub limit: usize,
}

/// A copy being staged, which is to be checked.
#[derive(Debug)]
pub struct CarryStaging {
    pub source: PathBuf,
    pub destination: PathBuf,
    pub limit: usize,
}

/// A checked copy, which is to be published.
#[derive(Debug)]
pub struct CarryPublish {
    pub source: PathBuf,
    pub limit: usize,
    /// Which object the original is.
    pub key: ObjectKey,
    pub publish: PublishWanted,
    pub staged: StagedCopy,
}

/// A published copy, whose original is to be removed.
#[derive(Debug)]
pub struct CarryRemoval {
    pub source: PathBuf,
    pub destination: PathBuf,
    pub limit: usize,
    pub key: ObjectKey,
    /// What was published, at the paths it is at now.
    pub created: Vec<PathSnapshot>,
    pub dropped: Dropped,
}

/// Whether a copy holds exactly what its original holds, entry for entry and
/// in the same places, but for the links where there can be none.
pub open spec fn mirrors(
    originals: Seq<PathSnapshot>,
    copies: Seq<PathSnapshot>,
    from: PathModel,
    to: PathModel,
    without_links: bool,
) -> bool
    decreases originals.len(),
{
    if originals.len() == 0 {
        copies.len() == 0
    } else if without_links && originals.last().kind is Symlink {
        mirrors(originals.drop_last(), copies, from, to, without_links)
    } else {
        &&& copies.len() > 0
        &&& copies.last().kind == originals.last().kind
        &&& copies.last().path@ == rebased(originals.last().path@, from, to)
        &&& mirrors(originals.drop_last(), copies.drop_last(), from, to, without_links)
    }
}

/// Whether everything was recorded of both the original and its copy, the copy
/// is there, and mirrors the original.
pub open spec fn whole_copy(staged: StagedCopy, from: PathModel, to: PathModel) -> bool {
    &&& !staged.sources.overflowed
    &&& !staged.created.overflowed
    &&& staged.sources.snapshots@.len() > 0
    &&& staged.sources.snapshots@[0].path@ == from
    &&& staged.created.snapshots@.len() > 0
    &&& mirrors(
        staged.sources.snapshots@,
        staged.created.snapshots@,
        from,
        to,
        staged.dropped.links,
    )
}

fn check_mirror(
    originals: &Vec<PathSnapshot>,
    copies: &Vec<PathSnapshot>,
    from: &PathBuf,
    to: &PathBuf,
    without_links: bool,
) -> (agrees: bool)
    ensures
        agrees == mirrors(originals@, copies@, from@, to@, without_links),
{
    let mut expected = copy_snapshots(originals);
    rebase_snapshots(&mut expected, from, to);
    let mut i: usize = expected.len();
    let mut j: usize = copies.len();
    assert(originals@.take(i as int) =~= originals@);
    assert(copies@.take(j as int) =~= copies@);
    while i > 0
        invariant
            i <= originals@.len(),
            j <= copies@.len(),
            expected@.len() == originals@.len(),
            forall|k: int|
                0 <= k < originals@.len() ==> (#[trigger] expected@[k]).path@ == rebased(
                    originals@[k].path@,
                    from@,
                    to@,
                ) && expected@[k].kind == originals@[k].kind,
            mirrors(originals@, copies@, from@, to@, without_links) == mirrors(
                originals@.take(i as int),
                copies@.take(j as int),
                from@,
                to@,
                without_links,
            ),
        decreases i,
    {
        proof {
            assert(originals@.take(i as int).drop_last() =~= originals@.take(i - 1));
            assert(originals@.take(i as int).last() == originals@[i - 1]);
            assert(expected@[i - 1].kind == originals@[i - 1].kind);
            if j > 0 {
                assert(copies@.take(j as int).drop_last() =~= copies@.take(j - 1));
                assert(copies@.take(j as int).last() == copies@[j - 1]);
            }
        }
        i -= 1;
        if without_links && expected[i].kind == SnapshotKind::Symlink {
            continue;
        }
        if j == 0 {
            return false;
        }
        j -= 1;
        if copies[j].kind != expected[i].kind || !copies[j].path.same(&expected[i].path) {
            return false;
        }
    }
    j == 0
}

impl CarryAcross {
    /// Starts copying, everything recorded so that it can be checked.
    pub fn stage(self) -> (result: Result<(StagingWanted, CarryStaging), String>)
        ensures
            match self.destination@.file_name() {
                None => result matches Err(message) && message@
                    == "Copy destination has no file name"@,
                Some(name) => {
                    &&& result matches Ok((wanted, staging))
                    &&& wanted.source == self.source
                    &&& wanted.destination == self.destination
                    &&& wanted.snapshot_limit == usize::MAX
                    &&& wanted.name@ == name
                    &&& self.destination@.parent() == Some(wanted.parent@)
                    &&& staging == (CarryStaging {
                        source: self.source,
                        destination: self.destination,
                        limit: self.limit,
                    })
                },
            },
    {
        let preparing = PreparingCopy {
            source: self.source.clone(),
            destination: self.destination.clone(),
            snapshot_limit: usize::MAX,
        };
        match preparing.contained(Ok(())) {
            Ok(wanted) => Ok(
                (
                    wanted,
                    CarryStaging {
                        source: self.source,
                        destination: self.destination,
                        limit: self.limit,
                    },
                ),
            ),
            Err(message) => Err(message),
        }
    }
}

impl CarryStaging {
    /// Whether `result` is what a staged copy comes to, given what walking it
    /// and its original gave.
    pub open spec fn passes(
        self,
        publish: PublishWanted,
        staged: StagedCopy,
        original_now: Walked,
        copy_now: Walked,
        result: Result<CarryPublish, String>,
    ) -> bool {
        match result {
            Ok(next) => {
                &&& whole_copy(staged, self.source@, publish.staged@)
                &&& unchanged_since(staged.sources.snapshots@, original_now)
                &&& unchanged_since(staged.created.snapshots@, copy_now)
                &&& next == (CarryPublish {
                    source: self.source,
                    limit: self.limit,
                    key: staged.sources.snapshots@[0].identity.key,
                    publish,
                    staged,
                })
            },
            Err(message) => if !whole_copy(staged, self.source@, publish.staged@) {
                message@ == about(
                    "Cannot continue: the copy of "@,
                    self.source.text(),
                    " does not match it"@,
                )
            } else if !unchanged_since(staged.sources.snapshots@, original_now) {
                change_reported(staged.sources.snapshots@, original_now, message@)
            } else {
                !unchanged_since(staged.created.snapshots@, copy_now) && change_reported(
                    staged.created.snapshots@,
                    copy_now,
                    message@,
                )
            },
        }
    }

    /// The staged copy, and what walking the original and the copy gave once
    /// it was staged. The copy may be published only where they agree.
    pub fn staged(
        self,
        publish: PublishWanted,
        staged: StagedCopy,
        original_now: &Walked,
        copy_now: &Walked,
    ) -> (result: Result<CarryPublish, String>)
        ensures
            self.passes(publish, staged, *original_now, *copy_now, result),
    {
        let whole = !staged.sources.overflowed && !staged.created.overflowed
            && staged.sources.snapshots.len() > 0 && staged.sources.snapshots[0].path.same(
            &self.source,
        ) && staged.created.snapshots.len() > 0 && check_mirror(
            &staged.sources.snapshots,
            &staged.created.snapshots,
            &self.source,
            &publish.staged,
            staged.dropped.links,
        );
        if !whole {
            return Err(
                message_about(
                    "Cannot continue: the copy of ",
                    &self.source,
                    " does not match it",
                ),
            );
        }
        match validate_snapshot_tree(&staged.sources.snapshots, original_now) {
            Ok(_) => {},
            Err(message) => {
                return Err(message);
            },
        }
        match validate_snapshot_tree(&staged.created.snapshots, copy_now) {
            Ok(_) => {},
            Err(message) => {
                return Err(message);
            },
        }
        let key = staged.sources.snapshots[0].identity.key;
        Ok(CarryPublish { source: self.source, limit: self.limit, key, publish, staged })
    }
}

impl CarryPublish {
    /// Whether `result` is what renaming the checked copy comes to.
    pub open spec fn passes(
        self,
        renamed: bool,
        result: Result<CarryRemoval, MoveFailure>,
    ) -> bool {
        match result {
            Ok(removal) => {
                &&& renamed
                &&& removal.source == self.source
                &&& removal.destination@ == self.publish.destination@
                &&& removal.limit == self.limit
                &&& removal.key == self.key
                &&& removal.dropped == self.staged.dropped
                &&& published_at(
                    self.staged.created.snapshots@,
                    removal.created@,
                    self.publish.staged@,
                    self.publish.destination@,
                )
            },
            Err(failure) => !renamed && !failure.published && failure.message@ == about(
                "Could not publish copy at "@,
                self.publish.destination.text(),
                "; nothing was overwritten"@,
            ),
        }
    }

    /// Whether the checked copy was renamed to its destination.
    pub fn renamed(self, renamed: bool) -> (result: Result<CarryRemoval, MoveFailure>)
        ensures
            self.passes(renamed, result),
    {
        let destination = self.publish.destination.clone();
        match self.publish.published(self.staged, renamed) {
            Ok(confirm) => Ok(
                CarryRemoval {
                    source: self.source,
                    destination,
                    limit: self.limit,
                    key: self.key,
                    created: confirm.created,
                    dropped: confirm.dropped,
                },
            ),
            Err(message) => Err(MoveFailure::refused(message)),
        }
    }
}

/// What is said of a move whose original stayed.
pub open spec fn original_kept(
    source: Seq<u8>,
    destination: Seq<u8>,
    why: Seq<char>,
) -> Seq<char> {
    about(
        "Copied "@,
        source,
        about(" to "@, destination, ", but could not remove the original: "@ + why),
    )
}

impl CarryRemoval {
    /// Starts removing the original, and nothing else that may be in its place
    /// by now.
    pub fn remove(&self, progress: &mut TransferProgress) -> (deletion: Deletion)
        ensures
            deletion.todo@.len() == 1,
            deletion.todo@[0]@ == self.source@,
            deletion.staged@.len() == 0,
            deletion.approved@ == seq![Approved { path: self.source, key: self.key }],
            !deletion.allow_trash_backings,
            final(progress)@ == (TransferProgressSnapshot { preparing: true, ..old(progress)@ }),
    {
        delete_checked(&self.source, self.key, progress)
    }

    /// Whether `result` is what removing the original comes to.
    pub open spec fn settles(
        self,
        outcome: DeleteOutcome,
        result: Result<MoveConfirm, MoveFailure>,
    ) -> bool {
        match result {
            Ok(confirm) => outcome.failures@.len() == 0 && confirm == (MoveConfirm {
                source: self.source,
                destination: self.destination,
                expected_state: if self.created@.len() <= self.limit {
                    Some(self.created)
                } else {
                    None
                },
                dropped: self.dropped,
            }),
            Err(failure) => outcome.failures@.len() > 0 && failure.published
                && failure.message@ == original_kept(
                self.source.text(),
                self.destination.text(),
                outcome.failures@[0].message@,
            ),
        }
    }

    /// What removing the original gave.
    pub fn deleted(self, outcome: DeleteOutcome) -> (result: Result<MoveConfirm, MoveFailure>)
        ensures
            self.settles(outcome, result),
    {
        if outcome.failures.len() > 0 {
            let mut after = ", but could not remove the original: ".to_owned();
            after.append(outcome.failures[0].message.as_str());
            let rest = message_about(" to ", &self.destination, after.as_str());
            let message = message_about("Copied ", &self.source, rest.as_str());
            return Err(MoveFailure { message, published: true });
        }
        let expected_state = if self.created.len() <= self.limit {
            Some(self.created)
        } else {
            None
        };
        Ok(
            MoveConfirm {
                source: self.source,
                destination: self.destination,
                expected_state,
                dropped: self.dropped,
            },
        )
    }
}

} // verus!
