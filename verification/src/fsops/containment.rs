//! Refusing to copy or move a directory into itself.

use vstd::prelude::*;

use crate::fsops::identity::{ObjectKey, SnapshotKind};
use crate::fsops::local::{at, inspect, located, Lookup};
use crate::fsops::transfer::TransferMode;
use crate::path::{PathBuf, PathModel};
use crate::text::{lossy, utf8_lossy};

verus! {

/// What finding out whether a destination lies inside its own source wants
/// next.
#[derive(Debug)]
pub enum ContainmentStep {
    /// It does not.
    Clear,
    Refused(String),
    /// Look at the directory the destination is in, or, once that is known, at
    /// the one above the directory looked at last.
    Hold(AncestorWanted),
}

/// The search waits for a directory above the destination.
#[derive(Debug)]
pub struct AncestorWanted {
    /// The directory to look at first.
    pub parent: PathBuf,
    pub source: PathBuf,
    pub source_key: ObjectKey,
    /// The directory looked at last.
    pub below: Option<ObjectKey>,
    pub mode: TransferMode,
}

/// A directory above a destination.
#[derive(Clone, Copy, Debug)]
pub enum Ancestor {
    /// It could not be reached.
    Unresolved,
    /// It was reached, but not identified.
    Uninspected,
    Met(ObjectKey),
}

/// The last name of a path as it is shown, or nothing.
pub open spec fn shown_name(path: PathModel) -> Seq<char> {
    match path.file_name() {
        Some(name) => utf8_lossy(name),
        None => utf8_lossy(Seq::empty()),
    }
}

/// Why a directory cannot go into itself.
pub open spec fn into_itself(source: PathModel, mode: TransferMode) -> Seq<char> {
    "Cannot "@ + mode.called() + " “"@ + shown_name(source) + "” into itself"@
}

fn into_itself_message(source: &PathBuf, mode: TransferMode) -> (message: String)
    ensures
        message@ == into_itself(source@, mode),
{
    let mut message = "Cannot ".to_owned();
    message.append(mode.verb());
    message.append(" “");
    let shown = match source.file_name() {
        Some(name) => lossy(name),
        None => {
            let nothing: Vec<u8> = Vec::new();
            assert(nothing@ =~= Seq::empty());
            lossy(nothing.as_slice())
        },
    };
    message.append(shown.as_str());
    message.append("” into itself");
    message
}

/// Whether `step` is how the search for a source above its destination begins.
pub open spec fn begins_search(
    source: PathBuf,
    destination: PathBuf,
    mode: TransferMode,
    found: Lookup,
    step: ContainmentStep,
) -> bool {
    match found {
        Lookup::Found(metadata) => if !(metadata.kind is Directory) {
            step is Clear
        } else if destination@.parent() is None {
            step matches ContainmentStep::Refused(message) && message@
                == "Destination has no parent directory"@
        } else {
            step matches ContainmentStep::Hold(wanted) && wanted.parent@
                == destination@.parent().unwrap() && wanted.source == source
                && wanted.source_key == metadata.key() && wanted.below is None && wanted.mode
                == mode
        },
        _ => step matches ContainmentStep::Refused(message) && message@ == located(
            "Could not inspect"@,
            source.text(),
        ),
    }
}

/// Reject a copy or move whose destination resolves back inside its own
/// source. Otherwise the staging directory lands inside the tree being walked
/// and the copy enumerates and re-copies its own output.
///
/// The destination's ancestors are compared with the source by identity, not
/// by path: a lexical prefix test misses a symlinked destination, and a
/// canonical-path test misses a bind mount. Device and inode are shared by
/// every name of a directory, so walking up from the destination's parent to
/// the root and comparing each step catches both. `found` is what is at the
/// source.
pub fn ensure_not_self_containing(
    source: &PathBuf,
    destination: &PathBuf,
    mode: TransferMode,
    found: Lookup,
) -> (step: ContainmentStep)
    ensures
        begins_search(*source, *destination, mode, found, step),
{
    let metadata = match inspect(source, found) {
        Ok(metadata) => metadata,
        Err(message) => {
            return ContainmentStep::Refused(message);
        },
    };
    if metadata.kind != SnapshotKind::Directory {
        // Symbolic links are recreated as links rather than traversed, so a
        // link resolving into the destination cannot recurse.
        return ContainmentStep::Clear;
    }
    match destination.parent() {
        None => ContainmentStep::Refused("Destination has no parent directory".to_owned()),
        Some(parent) => ContainmentStep::Hold(
            AncestorWanted {
                parent,
                source: source.clone(),
                source_key: ObjectKey::of(&metadata),
                below: None,
                mode,
            },
        ),
    }
}

impl AncestorWanted {
    /// Whether `step` is what follows on the directory that was asked for.
    pub open spec fn follows(self, ancestor: Ancestor, step: ContainmentStep) -> bool {
        match ancestor {
            Ancestor::Unresolved => step matches ContainmentStep::Refused(message) && message@
                == located("Could not resolve"@, self.parent.text()),
            Ancestor::Uninspected => step matches ContainmentStep::Refused(message) && message@
                == located("Could not inspect"@, self.parent.text()),
            Ancestor::Met(key) => if self.below == Some(key) {
                step is Clear
            } else if key == self.source_key {
                step matches ContainmentStep::Refused(message) && message@ == into_itself(
                    self.source@,
                    self.mode,
                )
            } else {
                step == ContainmentStep::Hold(AncestorWanted { below: Some(key), ..self })
            },
        }
    }

    /// The directory that was asked for.
    pub fn met(self, ancestor: Ancestor) -> (step: ContainmentStep)
        ensures
            self.follows(ancestor, step),
    {
        match ancestor {
            Ancestor::Unresolved => ContainmentStep::Refused(at("Could not resolve", &self.parent)),
            Ancestor::Uninspected => ContainmentStep::Refused(
                at("Could not inspect", &self.parent),
            ),
            Ancestor::Met(key) => {
                // The root is its own parent; nothing above it can be the
                // source.
                let at_root = match self.below {
                    Some(below) => below == key,
                    None => false,
                };
                if at_root {
                    ContainmentStep::Clear
                } else if key == self.source_key {
                    ContainmentStep::Refused(into_itself_message(&self.source, self.mode))
                } else {
                    let AncestorWanted { parent, source, source_key, mode, .. } = self;
                    ContainmentStep::Hold(
                        AncestorWanted { parent, source, source_key, below: Some(key), mode },
                    )
                }
            },
        }
    }
}

/// Whether the search refuses a destination whose ancestors, nearest first and
/// ending where the root is met a second time, are `chain`.
pub open spec fn refused_along(
    source: ObjectKey,
    below: Option<ObjectKey>,
    chain: Seq<ObjectKey>,
) -> bool
    decreases chain.len(),
{
    if chain.len() == 0 || below == Some(chain[0]) {
        false
    } else {
        chain[0] == source || refused_along(source, Some(chain[0]), chain.drop_first())
    }
}

/// Whether `chain` ends where the root is met a second time, and not before.
pub open spec fn ends_at_root(chain: Seq<ObjectKey>) -> bool {
    &&& chain.len() >= 2
    &&& chain[chain.len() - 1] == chain[chain.len() - 2]
    &&& forall|i: int| 0 <= i < chain.len() - 2 ==> #[trigger] chain[i] != chain[i + 1]
}

/// A destination is refused exactly when its source is one of the directories
/// above it, however far up.
pub proof fn lemma_refused_iff_source_above(source: ObjectKey, chain: Seq<ObjectKey>)
    requires
        ends_at_root(chain),
    ensures
        refused_along(source, None, chain) <==> chain.contains(source),
{
    lemma_refused_from(source, None, chain);
}

proof fn lemma_refused_from(source: ObjectKey, below: Option<ObjectKey>, chain: Seq<ObjectKey>)
    requires
        ends_at_root(chain),
        below != Some(chain[0]),
    ensures
        refused_along(source, below, chain) <==> chain.contains(source),
    decreases chain.len(),
{
    let rest = chain.drop_first();
    if chain[0] == source {
        assert(chain.contains(chain[0]));
    } else if chain.len() == 2 {
        assert(rest[0] == chain[0]);
        assert(!refused_along(source, Some(chain[0]), rest));
        assert(forall|i: int| 0 <= i < chain.len() ==> #[trigger] chain[i] == rest[0]);
    } else {
        assert forall|i: int| 0 <= i < rest.len() - 2 implies #[trigger] rest[i] != rest[i + 1] by {
            assert(rest[i] == chain[i + 1]);
            assert(rest[i + 1] == chain[i + 2]);
        }
        assert(chain[0] != chain[0int + 1]);
        lemma_refused_from(source, Some(chain[0]), rest);
        if chain.contains(source) {
            let i = choose|i: int| 0 <= i < chain.len() && chain[i] == source;
            assert(rest[i - 1] == source);
        }
        if rest.contains(source) {
            let i = choose|i: int| 0 <= i < rest.len() && rest[i] == source;
            assert(chain[i + 1] == source);
        }
    }
}

} // verus!
