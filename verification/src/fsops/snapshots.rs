//! Describing a tree so that a later step can prove it is unchanged.

use vstd::prelude::*;

use crate::fsops::identity::{about, message_about, Metadata, SnapshotKind};
use crate::fsops::journal::PathSnapshot;
use crate::fsops::local::{
    children_backwards, children_texts, inspect, is_entry_name, list_error_at, list_failure,
    located, models, push_children, sorted_children, texts, ListError, Lookup, Name,
};
use crate::index::{is_last_position, PathIndex};
use crate::order::sorted;
use crate::path::{lemma_join_then_file_name, lemma_strip_then_extend, PathBuf, PathModel};
use crate::text::{decimal, push_decimal};

verus! {

/// Collects snapshots up to a budget, remembering whether it ran out.
#[derive(Debug)]
pub struct SnapshotCollector {
    pub snapshots: Vec<PathSnapshot>,
    pub limit: usize,
    pub overflowed: bool,
}

/// Whether a collector has described one more object, or found its budget
/// spent.
pub open spec fn collected(
    before: SnapshotCollector,
    after: SnapshotCollector,
    place: Option<usize>,
    path: PathBuf,
    metadata: Metadata,
) -> bool {
    &&& after.limit == before.limit
    &&& if before.snapshots@.len() >= before.limit {
        &&& place is None
        &&& after.overflowed
        &&& after.snapshots == before.snapshots
    } else {
        &&& place == Some(before.snapshots@.len() as usize)
        &&& after.overflowed == before.overflowed
        &&& after.snapshots@.len() == before.snapshots@.len() + 1
        &&& after.snapshots@.drop_last() == before.snapshots@
        &&& after.snapshots@.last().path == path
        &&& after.snapshots@.last().describes(path@, metadata)
    }
}

/// Whether a collector has described again the object at a place.
pub open spec fn recollected(
    before: SnapshotCollector,
    after: SnapshotCollector,
    place: Option<usize>,
    path: PathBuf,
    metadata: Metadata,
) -> bool {
    &&& after.limit == before.limit
    &&& after.overflowed == before.overflowed
    &&& after.snapshots@.len() == before.snapshots@.len()
    &&& place is None ==> after.snapshots == before.snapshots
    &&& forall|i: int|
        0 <= i < before.snapshots@.len() && place != Some(i as usize)
            ==> #[trigger] after.snapshots@[i] == before.snapshots@[i]
    &&& place matches Some(place) ==> after.snapshots@[place as int].path == path
        && after.snapshots@[place as int].describes(path@, metadata)
}

impl SnapshotCollector {
    pub fn new(limit: usize) -> (collector: SnapshotCollector)
        ensures
            collector.snapshots@.len() == 0,
            collector.limit == limit,
            !collector.overflowed,
    {
        SnapshotCollector { snapshots: Vec::new(), limit, overflowed: false }
    }

    /// Whether no more is held than the budget allows.
    pub open spec fn within_budget(self) -> bool {
        self.snapshots@.len() <= self.limit
    }

    /// Describes one object, unless the budget has run out. Returns its place.
    pub fn push(&mut self, path: &PathBuf, metadata: &Metadata) -> (place: Option<usize>)
        ensures
            collected(*old(self), *final(self), place, *path, *metadata),
            old(self).within_budget() ==> final(self).within_budget(),
    {
        if self.snapshots.len() >= self.limit {
            self.overflowed = true;
            return None;
        }
        let place: usize = self.snapshots.len();
        let ghost before = self.snapshots@;
        self.snapshots.push(PathSnapshot::of(path, metadata));
        assert(self.snapshots@.drop_last() =~= before);
        Some(place)
    }

    /// Describes again the object at a place this collector gave out.
    pub fn refresh(&mut self, place: Option<usize>, path: &PathBuf, metadata: &Metadata)
        requires
            place matches Some(place) ==> place < old(self).snapshots@.len(),
        ensures
            recollected(*old(self), *final(self), place, *path, *metadata),
    {
        match place {
            Some(place) => {
                self.snapshots.set(place, PathSnapshot::of(path, metadata));
            },
            None => {},
        }
    }
}

/// Whether some directory recorded before `end` is what `path` lies in.
pub open spec fn parent_recorded(
    snapshots: Seq<PathSnapshot>,
    end: int,
    path: PathModel,
) -> bool {
    exists|j: int|
        0 <= j < end && (#[trigger] snapshots[j]).kind is Directory && path.parent() == Some(
            snapshots[j].path@,
        )
}

/// Whether everything but the root comes after the directory it lies in, so
/// that removing in reverse takes children before their directories.
pub open spec fn parents_first(snapshots: Seq<PathSnapshot>, root: PathModel) -> bool {
    forall|k: int|
        0 <= k < snapshots.len() ==> (#[trigger] snapshots[k]).path@ == root || parent_recorded(
            snapshots,
            k,
            snapshots[k].path@,
        )
}

/// What a walk has seen and has still to see, the next one last.
#[verifier::ext_equal]
pub struct WalkModel {
    pub root: PathModel,
    pub pending: Seq<PathModel>,
    /// How what is pending is spelled.
    pub texts: Seq<Seq<u8>>,
    pub snapshots: Seq<PathSnapshot>,
    pub limit: nat,
}

impl WalkModel {
    /// Whether everything seen and to be seen lies in something seen.
    pub open spec fn connected(self) -> bool {
        &&& parents_first(self.snapshots, self.root)
        &&& forall|i: int|
            0 <= i < self.pending.len() ==> #[trigger] self.pending[i] == self.root
                || parent_recorded(self.snapshots, self.snapshots.len() as int, self.pending[i])
    }
}

/// A walk over a tree that describes what it meets, directories before what is
/// in them, up to a limit.
#[derive(Debug)]
pub struct SnapshotWalk {
    root: PathBuf,
    pending: Vec<PathBuf>,
    snapshots: Vec<PathSnapshot>,
    limit: usize,
}

impl View for SnapshotWalk {
    type V = WalkModel;

    closed spec fn view(&self) -> WalkModel {
        WalkModel {
            root: self.root@,
            pending: models(self.pending@),
            texts: texts(self.pending@),
            snapshots: self.snapshots@,
            limit: self.limit as nat,
        }
    }
}

/// The next thing a walk over a tree wants.
#[derive(Debug)]
pub enum SnapshotStep {
    /// Look at one path.
    Inspect(InspectEntry),
    /// There is nothing more to see.
    Finished(Vec<PathSnapshot>),
    /// The tree is larger than the limit.
    Refused(String),
}

/// A walk waiting for what is at one path.
#[derive(Debug)]
pub struct InspectEntry {
    walk: SnapshotWalk,
    path: PathBuf,
}

impl InspectEntry {
    /// The walk without the path.
    pub closed spec fn walk(self) -> WalkModel {
        self.walk@
    }

    /// The path to look at.
    pub closed spec fn at(self) -> PathModel {
        self.path@
    }

    /// How it is spelled.
    pub closed spec fn spelled(self) -> Seq<u8> {
        self.path.text()
    }

    #[verifier::type_invariant]
    spec fn well_formed(self) -> bool {
        self.walk@.snapshots.len() < self.walk@.limit && (self.path@ == self.walk@.root
            || parent_recorded(self.walk@.snapshots, self.walk@.snapshots.len() as int, self.path@))
    }

    /// The path to look at.
    pub fn path(&self) -> (path: &PathBuf)
        ensures
            path@ == self.at(),
            path.text() == self.spelled(),
    {
        &self.path
    }
}

/// What a walk wants once it knows what is at a path.
#[derive(Debug)]
pub enum EntryStep {
    /// Go on.
    Walk(SnapshotWalk),
    /// List the entries of a directory.
    List(ListEntry),
    Refused(String),
}

/// A walk waiting for the entries of one directory.
#[derive(Debug)]
pub struct ListEntry {
    walk: SnapshotWalk,
    path: PathBuf,
}

impl ListEntry {
    /// The walk before the entries are known.
    pub closed spec fn walk(self) -> WalkModel {
        self.walk@
    }

    /// The directory to list.
    pub closed spec fn at(self) -> PathModel {
        self.path@
    }

    /// How it is spelled.
    pub closed spec fn spelled(self) -> Seq<u8> {
        self.path.text()
    }

    #[verifier::type_invariant]
    spec fn well_formed(self) -> bool {
        self.walk@.snapshots.len() > 0 && self.walk@.snapshots.last().path@ == self.path@
            && self.walk@.snapshots.last().kind is Directory
    }

    /// The directory to list.
    pub fn path(&self) -> (path: &PathBuf)
        ensures
            path@ == self.at(),
            path.text() == self.spelled(),
    {
        &self.path
    }
}

impl SnapshotWalk {
    #[verifier::type_invariant]
    pub open spec fn well_formed(self) -> bool {
        self@.connected() && self@.snapshots.len() <= self@.limit
    }

    /// A walk over the tree at `root`.
    pub fn new(root: &PathBuf, limit: usize) -> (walk: SnapshotWalk)
        ensures
            walk@ == (WalkModel {
                root: root@,
                pending: seq![root@],
                texts: seq![root.text()],
                snapshots: Seq::empty(),
                limit: limit as nat,
            }),
    {
        let mut pending: Vec<PathBuf> = Vec::new();
        pending.push(root.clone());
        assert(models(pending@) =~= seq![root@]);
        assert(texts(pending@) =~= seq![root.text()]);
        SnapshotWalk { root: root.clone(), pending, snapshots: Vec::new(), limit }
    }

    /// Whether `step` is what the walk goes on with.
    pub open spec fn goes_on(self, step: SnapshotStep) -> bool {
        match step {
            SnapshotStep::Finished(snapshots) => self@.pending.len() == 0 && snapshots@
                == self@.snapshots && parents_first(snapshots@, self@.root)
                && snapshots@.len() <= self@.limit,
            SnapshotStep::Refused(message) => self@.pending.len() > 0 && self@.snapshots.len()
                >= self@.limit && message@ == too_large(self@.texts.last(), self@.limit),
            SnapshotStep::Inspect(entry) => self@.pending.len() > 0 && self@.snapshots.len()
                < self@.limit && entry.at() == self@.pending.last() && entry.spelled()
                == self@.texts.last() && entry.walk() == (WalkModel {
                pending: self@.pending.drop_last(),
                texts: self@.texts.drop_last(),
                ..self@
            }),
        }
    }

    /// What the walk wants next.
    pub fn next(self) -> (step: SnapshotStep)
        ensures
            self.goes_on(step),
    {
        proof {
            use_type_invariant(&self);
        }
        let ghost before = self@;
        let SnapshotWalk { root, pending, snapshots, limit } = self;
        let mut pending = pending;
        match pending.pop() {
            None => {
                SnapshotStep::Finished(snapshots)
            },
            Some(path) => {
                proof {
                    assert(models(pending@) =~= before.pending.drop_last());
                    assert(texts(pending@) =~= before.texts.drop_last());
                    assert(path@ == before.pending.last());
                    assert forall|i: int| 0 <= i < models(pending@).len() implies #[trigger] models(
                        pending@,
                    )[i] == before.root || parent_recorded(
                        before.snapshots,
                        before.snapshots.len() as int,
                        models(pending@)[i],
                    ) by {
                        assert(models(pending@)[i] == before.pending[i]);
                    }
                }
                if snapshots.len() >= limit {
                    return SnapshotStep::Refused(limit_message(&path, limit));
                }
                SnapshotStep::Inspect(
                    InspectEntry { walk: SnapshotWalk { root, pending, snapshots, limit }, path },
                )
            },
        }
    }
}

/// Why a tree cannot be described.
pub open spec fn too_large(path: Seq<u8>, limit: nat) -> Seq<char> {
    about(""@, path, " holds more than the "@ + decimal(limit) + " entries one undo record may describe"@)
}

fn limit_message(path: &PathBuf, limit: usize) -> (message: String)
    ensures
        message@ == too_large(path.text(), limit as nat),
{
    let mut after = " holds more than the ".to_owned();
    push_decimal(&mut after, limit as u64);
    after.append(" entries one undo record may describe");
    message_about("", path, after.as_str())
}

impl InspectEntry {
    /// Whether `step` is what follows on what is at the path.
    pub open spec fn comes_to(self, found: Lookup, step: EntryStep) -> bool {
        match step {
            EntryStep::Refused(message) => !(found is Found) && message@ == located(
                "Could not inspect"@,
                self.spelled(),
            ),
            EntryStep::Walk(walk) => found matches Lookup::Found(metadata) && !(
            metadata.kind is Directory) && grew(self.walk(), walk@, self.at(), metadata),
            EntryStep::List(listing) => found matches Lookup::Found(metadata)
                && metadata.kind is Directory && listing.at() == self.at() && listing.spelled()
                == self.spelled() && grew(
                self.walk(),
                listing.walk(),
                self.at(),
                metadata,
            ),
        }
    }

    /// What was at the path.
    pub fn found(self, found: Lookup) -> (step: EntryStep)
        ensures
            self.comes_to(found, step),
    {
        proof {
            use_type_invariant(&self);
        }
        let metadata = match inspect(&self.path, found) {
            Ok(metadata) => metadata,
            Err(message) => {
                return EntryStep::Refused(message);
            },
        };
        proof {
            use_type_invariant(&self.walk);
        }
        let ghost before = self.walk@;
        let InspectEntry { walk, path } = self;
        let SnapshotWalk { root, pending, snapshots, limit } = walk;
        let mut snapshots = snapshots;
        snapshots.push(PathSnapshot::of(&path, &metadata));
        proof {
            lemma_pushing_keeps_parents(before.snapshots, snapshots@.last(), before.root);
            assert(snapshots@ =~= before.snapshots.push(snapshots@.last()));
            assert forall|i: int| 0 <= i < models(pending@).len() implies #[trigger] models(
                pending@,
            )[i] == before.root || parent_recorded(
                snapshots@,
                snapshots@.len() as int,
                models(pending@)[i],
            ) by {
                assert(models(pending@)[i] == before.pending[i]);
                if before.pending[i] != before.root {
                    lemma_parent_stays_recorded(
                        before.snapshots,
                        snapshots@.last(),
                        before.pending[i],
                    );
                }
            }
        }
        let walk = SnapshotWalk { root, pending, snapshots, limit };
        assert(walk@.snapshots.drop_last() =~= before.snapshots);
        if metadata.kind == SnapshotKind::Directory {
            EntryStep::List(ListEntry { walk, path })
        } else {
            EntryStep::Walk(walk)
        }
    }
}

/// Whether a walk has described one more object and done nothing else.
pub open spec fn grew(
    before: WalkModel,
    after: WalkModel,
    path: PathModel,
    metadata: Metadata,
) -> bool {
    &&& after == (WalkModel { snapshots: after.snapshots, ..before })
    &&& after.snapshots.len() == before.snapshots.len() + 1
    &&& after.snapshots.drop_last() == before.snapshots
    &&& after.snapshots.last().describes(path, metadata)
}

proof fn lemma_parent_stays_recorded(
    snapshots: Seq<PathSnapshot>,
    more: PathSnapshot,
    path: PathModel,
)
    requires
        parent_recorded(snapshots, snapshots.len() as int, path),
    ensures
        parent_recorded(snapshots.push(more), (snapshots.len() + 1) as int, path),
{
    let j = choose|j: int|
        0 <= j < snapshots.len() && (#[trigger] snapshots[j]).kind is Directory && path.parent()
            == Some(snapshots[j].path@);
    assert(snapshots.push(more)[j] == snapshots[j]);
}

proof fn lemma_pushing_keeps_parents(
    snapshots: Seq<PathSnapshot>,
    more: PathSnapshot,
    root: PathModel,
)
    requires
        parents_first(snapshots, root),
        more.path@ == root || parent_recorded(snapshots, snapshots.len() as int, more.path@),
    ensures
        parents_first(snapshots.push(more), root),
{
    let all = snapshots.push(more);
    assert forall|k: int| 0 <= k < all.len() implies (#[trigger] all[k]).path@ == root
        || parent_recorded(all, k, all[k].path@) by {
        if all[k].path@ != root {
            let end = if k < snapshots.len() {
                k
            } else {
                snapshots.len() as int
            };
            if k < snapshots.len() {
                assert(all[k] == snapshots[k]);
                assert(parent_recorded(snapshots, k, snapshots[k].path@));
            }
            let j = choose|j: int|
                0 <= j < end && (#[trigger] snapshots[j]).kind is Directory
                    && all[k].path@.parent() == Some(snapshots[j].path@);
            assert(all[j] == snapshots[j]);
        }
    }
}

impl ListEntry {
    /// Whether `walk` is what follows on what is in the directory.
    pub open spec fn comes_to(
        self,
        entries: Result<Vec<Name>, ListError>,
        walk: Result<SnapshotWalk, String>,
    ) -> bool {
        match walk {
            Ok(walk) => entries matches Ok(entries) && walk@ == (WalkModel {
                pending: self.walk().pending + children_backwards(self.at(), sorted(entries@)),
                texts: self.walk().texts + children_texts(self.spelled(), sorted(entries@)),
                ..self.walk()
            }),
            Err(message) => entries matches Err(error) && message@ == list_failure(
                error,
                self.spelled(),
            ),
        }
    }

    /// The entries of the directory.
    pub fn listed(self, entries: Result<Vec<Name>, ListError>) -> (walk: Result<
        SnapshotWalk,
        String,
    >)
        ensures
            self.comes_to(entries, walk),
    {
        proof {
            use_type_invariant(&self);
        }
        let entries = match entries {
            Ok(entries) => entries,
            Err(error) => {
                return Err(list_error_at(error, &self.path));
            },
        };
        let entries = sorted_children(entries);
        proof {
            use_type_invariant(&self.walk);
        }
        let ghost before = self.walk@;
        let ListEntry { walk, path } = self;
        let SnapshotWalk { root, pending, snapshots, limit } = walk;
        let mut pending = pending;
        push_children(&mut pending, &path, &entries);
        let mut i: usize = 0;
        let ghost added = children_backwards(path@, entries@);
        while i < entries.len()
            invariant
                i <= entries.len(),
                forall|j: int| 0 <= j < i ==> is_entry_name(#[trigger] entries@[j]@),
            decreases entries.len() - i,
        {
            let entry = &entries[i];
            proof {
                use_type_invariant(entry);
            }
            i += 1;
        }
        proof {
            let last = snapshots@.len() - 1;
            assert forall|k: int| 0 <= k < models(pending@).len() implies #[trigger] models(
                pending@,
            )[k] == before.root || parent_recorded(
                snapshots@,
                snapshots@.len() as int,
                models(pending@)[k],
            ) by {
                if k < before.pending.len() {
                    assert(models(pending@)[k] == before.pending[k]);
                } else {
                    let at = k - before.pending.len();
                    assert(models(pending@)[k] == added[at]);
                    let name = entries@[entries@.len() - 1 - at]@;
                    lemma_join_then_file_name(path@, name);
                    assert(snapshots@[last].kind is Directory);
                }
            }
        }
        Ok(SnapshotWalk { root, pending, snapshots, limit })
    }
}

/// Why a tree that has to be removable or reproducible cannot be, if so: the
/// first object of a kind that neither can be done to.
pub open spec fn special_refusal(snapshots: Seq<PathSnapshot>) -> Option<Seq<char>>
    decreases snapshots.len(),
{
    if snapshots.len() == 0 {
        None
    } else if snapshots[0].kind.special() {
        Some(
            about(
                "Special files are not supported yet: "@,
                snapshots[0].path.text(),
                " is "@ + snapshots[0].kind.called(),
            ),
        )
    } else {
        special_refusal(snapshots.drop_first())
    }
}

/// A tree is refused exactly when it holds a special file.
pub proof fn lemma_special_refusal(snapshots: Seq<PathSnapshot>)
    ensures
        special_refusal(snapshots) is None <==> forall|i: int|
            0 <= i < snapshots.len() ==> !(#[trigger] snapshots[i]).kind.special(),
    decreases snapshots.len(),
{
    if snapshots.len() > 0 {
        let rest = snapshots.drop_first();
        lemma_special_refusal(rest);
        if special_refusal(snapshots) is None {
            assert forall|i: int| 0 <= i < snapshots.len() implies !(
            #[trigger] snapshots[i]).kind.special() by {
                if i > 0 {
                    assert(rest[i - 1] == snapshots[i]);
                }
            }
        } else if !snapshots[0].kind.special() {
            let i = choose|i: int| 0 <= i < rest.len() && (#[trigger] rest[i]).kind.special();
            assert(snapshots[i + 1] == rest[i]);
        }
    }
}

/// Refuse a tree that holds something that can be moved but never reproduced
/// or removed.
pub fn reject_special_entries(snapshots: &[PathSnapshot]) -> (verdict: Result<(), String>)
    ensures
        match verdict {
            Ok(_) => special_refusal(snapshots@) is None,
            Err(message) => special_refusal(snapshots@) == Some(message@),
        },
{
    let mut i: usize = 0;
    assert(snapshots@.skip(0) =~= snapshots@);
    while i < snapshots.len()
        invariant
            i <= snapshots.len(),
            special_refusal(snapshots@) == special_refusal(snapshots@.skip(i as int)),
        decreases snapshots.len() - i,
    {
        let ghost rest = snapshots@.skip(i as int);
        assert(rest[0] == snapshots@[i as int]);
        assert(rest.drop_first() =~= snapshots@.skip(i + 1));
        if snapshots[i].kind.is_special() {
            let mut after = " is ".to_owned();
            after.append(snapshots[i].kind.label());
            return Err(
                message_about(
                    "Special files are not supported yet: ",
                    &snapshots[i].path,
                    after.as_str(),
                ),
            );
        }
        i += 1;
    }
    Ok(())
}

/// Where a path under `from` is after `from` has become `to`.
pub open spec fn rebased(path: PathModel, from: PathModel, to: PathModel) -> PathModel {
    match path.strip_prefix(from) {
        None => path,
        Some(relative) => if relative.is_empty() {
            to
        } else {
            to.extended(relative)
        },
    }
}

/// Moving a tree there and back again leaves every path as it was.
pub proof fn lemma_rebase_there_and_back(path: PathModel, from: PathModel, to: PathModel)
    requires
        path.valid(),
        from.valid(),
        !from.is_empty(),
        !to.is_empty(),
        path.starts_with(from),
    ensures
        rebased(rebased(path, from, to), to, from) == path,
{
    let relative = path.strip_prefix(from).unwrap();
    let there = rebased(path, from, to);
    lemma_strip_then_extend(path, from);
    if relative.is_empty() {
        assert(path.names =~= from.names);
        assert(to.strip_prefix(to).unwrap().names =~= Seq::empty());
    } else {
        let at = from.names.len() as int;
        assert(relative.names[0] == path.names[at]);
        assert(crate::path::is_name(path.names[at], at == 0 && !path.absolute));
        assert(there.names =~= to.names + relative.names);
        assert(there.names.subrange(0, to.names.len() as int) =~= to.names);
        assert(to.names.is_prefix_of(there.names));
        assert(there.names.skip(to.names.len() as int) =~= relative.names);
        assert(there.strip_prefix(to).unwrap() =~= relative);
    }
}

/// Rebase recorded paths from one root to another.
///
/// This runs after a commit without being able to fail it: a path that is not
/// under `from` is left alone.
pub fn rebase_snapshots(snapshots: &mut Vec<PathSnapshot>, from: &PathBuf, to: &PathBuf)
    ensures
        final(snapshots)@.len() == old(snapshots)@.len(),
        forall|i: int|
            0 <= i < old(snapshots)@.len() ==> (#[trigger] final(snapshots)@[i]).path@ == rebased(
                old(snapshots)@[i].path@,
                from@,
                to@,
            ) && final(snapshots)@[i].identity == old(snapshots)@[i].identity && final(snapshots)@[i].kind == old(snapshots)@[i].kind,
{
    let ghost before = snapshots@;
    let mut i: usize = 0;
    while i < snapshots.len()
        invariant
            i <= snapshots.len(),
            snapshots@.len() == before.len(),
            forall|j: int|
                0 <= j < i ==> (#[trigger] snapshots@[j]).path@ == rebased(
                    before[j].path@,
                    from@,
                    to@,
                ) && snapshots@[j].identity == before[j].identity && snapshots@[j].kind
                    == before[j].kind,
            forall|j: int| i <= j < before.len() ==> #[trigger] snapshots@[j] == before[j],
        decreases snapshots.len() - i,
    {
        match snapshots[i].path.strip_prefix(from) {
            Some(relative) => {
                let path = if !relative.is_absolute() && relative.name_count() == 0 {
                    to.clone()
                } else {
                    to.extended(&relative)
                };
                let identity = snapshots[i].identity;
                let kind = snapshots[i].kind;
                snapshots.set(i, PathSnapshot { path, identity, kind });
            },
            None => {},
        }
        i += 1;
    }
}

/// Whether what was found is still the object that was recorded: of the same
/// kind, with the same device and inode.
pub open spec fn still_the_object(snapshot: PathSnapshot, found: Option<Metadata>) -> bool {
    found matches Some(metadata) && metadata.kind == snapshot.kind && metadata.key()
        == snapshot.identity.key
}

/// What was found where the `i`th snapshot was taken.
pub open spec fn found_at(found: Seq<Option<Metadata>>, i: int) -> Option<Metadata> {
    if i < found.len() {
        found[i]
    } else {
        None
    }
}

/// Adopt the identities a commit invalidated, refusing any substitution.
///
/// A rename moves the renamed root's time of last change, so the recorded
/// identity has to be read again — but "whatever is at that path now" is not
/// the same claim as "the object that was just committed". Device and inode
/// survive a rename, so they are the key carried across the boundary, and the
/// kind is compared with them. A mismatch is not an error, since the mutation
/// committed; it is success without undo. Returns `false` when any entry could
/// not be adopted. `found` is what is now at each of the recorded paths.
pub fn refresh_snapshot_identities(
    snapshots: &mut Vec<PathSnapshot>,
    found: &Vec<Option<Metadata>>,
) -> (complete: bool)
    ensures
        final(snapshots)@.len() == old(snapshots)@.len(),
        complete <==> forall|i: int|
            0 <= i < old(snapshots)@.len() ==> still_the_object(
                #[trigger] old(snapshots)@[i],
                found_at(found@, i),
            ),
        forall|i: int|
            0 <= i < old(snapshots)@.len() ==> #[trigger] final(snapshots)@[i] == (
            if still_the_object(old(snapshots)@[i], found_at(found@, i)) {
                PathSnapshot {
                    identity: found_at(found@, i).unwrap().identity(),
                    ..old(snapshots)@[i]
                }
            } else {
                old(snapshots)@[i]
            }),
{
    let ghost before = snapshots@;
    let mut complete = true;
    let mut i: usize = 0;
    while i < snapshots.len()
        invariant
            i <= snapshots.len(),
            snapshots@.len() == before.len(),
            complete <==> forall|j: int|
                0 <= j < i ==> still_the_object(#[trigger] before[j], found_at(found@, j)),
            forall|j: int|
                0 <= j < i ==> #[trigger] snapshots@[j] == (if still_the_object(
                    before[j],
                    found_at(found@, j),
                ) {
                    PathSnapshot { identity: found_at(found@, j).unwrap().identity(), ..before[j] }
                } else {
                    before[j]
                }),
            forall|j: int| i <= j < before.len() ==> #[trigger] snapshots@[j] == before[j],
        decreases snapshots.len() - i,
    {
        let now = if i < found.len() { found[i] } else { None };
        let adopted = match now {
            Some(metadata) => metadata.kind == snapshots[i].kind
                && crate::fsops::identity::ObjectKey::of(&metadata) == snapshots[i].identity.key,
            None => false,
        };
        assert(adopted == still_the_object(before[i as int], found_at(found@, i as int)));
        if adopted {
            match now {
                Some(metadata) => {
                    let refreshed = PathSnapshot {
                        path: snapshots[i].path.clone(),
                        identity: crate::fsops::identity::FileIdentity::of(&metadata),
                        kind: snapshots[i].kind,
                    };
                    snapshots.set(i, refreshed);
                },
                None => {},
            }
        } else {
            complete = false;
        }
        i += 1;
    }
    complete
}

/// Whether `ancestor` is a directory that `path` is somewhere inside.
pub open spec fn strictly_inside(path: PathModel, ancestor: PathModel) -> bool {
    path.absolute == ancestor.absolute && ancestor.names.len() < path.names.len()
        && ancestor.names.is_prefix_of(path.names)
}

/// Whether `path` is somewhere inside a recorded directory.
pub open spec fn inside_recorded(snapshots: Seq<PathSnapshot>, path: PathModel) -> bool {
    exists|j: int|
        0 <= j < snapshots.len() && (#[trigger] snapshots[j]).kind is Directory && strictly_inside(
            path,
            snapshots[j].path@,
        )
}

/// The paths among `candidates` that are not inside a recorded directory.
pub open spec fn outermost(candidates: Seq<PathSnapshot>, snapshots: Seq<PathSnapshot>) -> Seq<
    PathBuf,
>
    decreases candidates.len(),
{
    if candidates.len() == 0 {
        Seq::empty()
    } else {
        let before = outermost(candidates.drop_last(), snapshots);
        if inside_recorded(snapshots, candidates.last().path@) {
            before
        } else {
            before.push(candidates.last().path)
        }
    }
}

/// Everything recorded that is not inside a recorded directory is among the
/// outermost paths.
proof fn lemma_outermost_contains(
    candidates: Seq<PathSnapshot>,
    snapshots: Seq<PathSnapshot>,
    i: int,
)
    requires
        0 <= i < candidates.len(),
        !inside_recorded(snapshots, candidates[i].path@),
    ensures
        outermost(candidates, snapshots).contains(candidates[i].path),
    decreases candidates.len(),
{
    let before = outermost(candidates.drop_last(), snapshots);
    if i == candidates.len() - 1 {
        assert(outermost(candidates, snapshots).last() == candidates[i].path);
    } else {
        lemma_outermost_contains(candidates.drop_last(), snapshots, i);
        let k = choose|k: int| 0 <= k < before.len() && before[k] == candidates[i].path;
        assert(outermost(candidates, snapshots)[k] == candidates[i].path);
    }
}

/// The outermost paths cover everything recorded: every recorded path is one
/// of them or inside one of them.
pub proof fn lemma_outermost_covers(snapshots: Seq<PathSnapshot>, i: int)
    requires
        0 <= i < snapshots.len(),
    ensures
        exists|t: int|
            0 <= t < outermost(snapshots, snapshots).len() && (snapshots[i].path@
                == (#[trigger] outermost(snapshots, snapshots)[t])@ || strictly_inside(
                snapshots[i].path@,
                outermost(snapshots, snapshots)[t]@,
            )),
    decreases snapshots[i].path@.names.len(),
{
    let path = snapshots[i].path@;
    let roots = outermost(snapshots, snapshots);
    if inside_recorded(snapshots, path) {
        let j = choose|j: int|
            0 <= j < snapshots.len() && (#[trigger] snapshots[j]).kind is Directory
                && strictly_inside(path, snapshots[j].path@);
        let above = snapshots[j].path@;
        lemma_outermost_covers(snapshots, j);
        let t = choose|t: int|
            0 <= t < roots.len() && (above == (#[trigger] roots[t])@ || strictly_inside(
                above,
                roots[t]@,
            ));
        if above != roots[t]@ {
            let root = roots[t]@;
            assert(path.names.subrange(0, root.names.len() as int) =~= root.names) by {
                assert(path.names.subrange(0, above.names.len() as int) =~= above.names);
                assert(above.names.subrange(0, root.names.len() as int) =~= root.names);
                assert forall|k: int| 0 <= k < root.names.len() implies path.names[k]
                    == root.names[k] by {
                    assert(path.names.subrange(0, above.names.len() as int)[k] == above.names[k]);
                    assert(above.names.subrange(0, root.names.len() as int)[k] == root.names[k]);
                }
            }
            assert(strictly_inside(path, root));
        }
    } else {
        lemma_outermost_contains(snapshots, snapshots, i);
        let t = choose|t: int| 0 <= t < roots.len() && roots[t] == snapshots[i].path;
        assert(roots[t]@ == path);
    }
}

/// No outermost path is inside a recorded directory.
pub proof fn lemma_outermost_is_outside(
    candidates: Seq<PathSnapshot>,
    snapshots: Seq<PathSnapshot>,
    t: int,
)
    requires
        0 <= t < outermost(candidates, snapshots).len(),
    ensures
        !inside_recorded(snapshots, outermost(candidates, snapshots)[t]@),
    decreases candidates.len(),
{
    if candidates.len() > 0 {
        let before = outermost(candidates.drop_last(), snapshots);
        if t < before.len() {
            lemma_outermost_is_outside(candidates.drop_last(), snapshots, t);
        }
    }
}

/// Whether some directory of `directories` is above `path`.
fn has_ancestor(path: &PathBuf, directories: &PathIndex) -> (inside: bool)
    ensures
        inside == exists|j: int|
            0 <= j < directories@.len() && strictly_inside(path@, #[trigger] directories@[j]),
{
    let mut current = path.parent();
    let ghost whole = path@;
    proof {
        if whole.names.len() == 0 {
            assert forall|j: int| 0 <= j < directories@.len() implies !strictly_inside(
                whole,
                #[trigger] directories@[j],
            ) by {}
        }
    }
    loop
        invariant_except_break
            whole == path@,
            match current {
                Some(above) => {
                    &&& above@.absolute == whole.absolute
                    &&& above@.names.len() < whole.names.len()
                    &&& above@.names == whole.names.take(above@.names.len() as int)
                    &&& forall|j: int|
                        0 <= j < directories@.len() && strictly_inside(
                            whole,
                            #[trigger] directories@[j],
                        ) ==> directories@[j].names.len() <= above@.names.len()
                },
                None => forall|j: int|
                    0 <= j < directories@.len() ==> !strictly_inside(
                        whole,
                        #[trigger] directories@[j],
                    ),
            },
        ensures
            forall|j: int|
                0 <= j < directories@.len() ==> !strictly_inside(path@, #[trigger] directories@[j]),
        decreases
                match current {
                    Some(above) => above@.names.len() + 1,
                    None => 0,
                },
    {
        let above = match current {
            Some(above) => above,
            None => {
                break;
            },
        };
        match directories.find(&above) {
            Some(position) => {
                proof {
                    assert(directories@[position as int] == above@);
                    assert(whole.names.subrange(0, above@.names.len() as int) =~= above@.names);
                    assert(strictly_inside(path@, directories@[position as int]));
                }
                return true;
            },
            None => {},
        }
        proof {
            assert forall|j: int| 0 <= j < directories@.len() && strictly_inside(
                whole,
                #[trigger] directories@[j],
            ) implies directories@[j].names.len() < above@.names.len() by {
                let other = directories@[j];
                if other.names.len() == above@.names.len() {
                    assert(whole.names.subrange(0, other.names.len() as int) =~= other.names);
                    assert(other.names =~= above@.names);
                    assert(directories@[j] == above@);
                }
            }
        }
        current = above.parent();
        proof {
            if current is Some {
                let next = current->Some_0@;
                assert(next.names =~= whole.names.take(next.names.len() as int));
            }
        }
    }
    false
}

/// Whether one of the first `end` snapshots is of a directory at `path`.
spec fn directory_among(snapshots: Seq<PathSnapshot>, end: int, path: PathBuf) -> bool {
    exists|j: int|
        0 <= j < end && (#[trigger] snapshots[j]).kind is Directory && snapshots[j].path == path
}

/// The recorded paths that are not inside a recorded directory.
pub fn top_level_paths(snapshots: &Vec<PathSnapshot>) -> (paths: Vec<PathBuf>)
    ensures
        paths@ == outermost(snapshots@, snapshots@),
{
    let mut directories: Vec<PathBuf> = Vec::new();
    let mut i: usize = 0;
    while i < snapshots.len()
        invariant
            i <= snapshots.len(),
            forall|d: int|
                0 <= d < directories@.len() ==> directory_among(
                    snapshots@,
                    i as int,
                    #[trigger] directories@[d],
                ),
            forall|j: int|
                0 <= j < i && (#[trigger] snapshots@[j]).kind is Directory ==> directories@.contains(
                    snapshots@[j].path,
                ),
        decreases snapshots.len() - i,
    {
        let ghost before = directories@;
        if snapshots[i].kind == SnapshotKind::Directory {
            directories.push(snapshots[i].path.clone());
        }
        proof {
            assert forall|d: int| 0 <= d < directories@.len() implies directory_among(
                snapshots@,
                i + 1,
                #[trigger] directories@[d],
            ) by {
                if d < before.len() {
                    assert(directories@[d] == before[d]);
                    let j = choose|j: int|
                        0 <= j < i && (#[trigger] snapshots@[j]).kind is Directory
                            && snapshots@[j].path == before[d];
                    assert(snapshots@[j].path == directories@[d]);
                } else {
                    assert(snapshots@[i as int].path == directories@[d]);
                }
            }
            assert forall|j: int| 0 <= j < i + 1 && (
            #[trigger] snapshots@[j]).kind is Directory implies directories@.contains(
                snapshots@[j].path,
            ) by {
                if j < i {
                    assert(before.contains(snapshots@[j].path));
                    let d = choose|d: int| 0 <= d < before.len() && before[d] == snapshots@[j].path;
                    assert(directories@[d] == snapshots@[j].path);
                } else {
                    assert(directories@[before.len() as int] == snapshots@[j].path);
                }
            }
        }
        i += 1;
    }
    let index = PathIndex::new(directories.as_slice());
    let mut paths: Vec<PathBuf> = Vec::new();
    let mut i: usize = 0;
    assert(snapshots@.take(0) =~= Seq::empty());
    while i < snapshots.len()
        invariant
            i <= snapshots.len(),
            index@ == directories@.map_values(|path: PathBuf| path@),
            forall|d: int|
                0 <= d < directories@.len() ==> directory_among(
                    snapshots@,
                    snapshots@.len() as int,
                    #[trigger] directories@[d],
                ),
            forall|j: int|
                0 <= j < snapshots@.len() && (#[trigger] snapshots@[j]).kind is Directory
                    ==> directories@.contains(snapshots@[j].path),
            paths@ == outermost(snapshots@.take(i as int), snapshots@),
        decreases snapshots.len() - i,
    {
        proof {
            assert(snapshots@.take(i + 1).drop_last() =~= snapshots@.take(i as int));
            assert(snapshots@.take(i + 1).last() == snapshots@[i as int]);
        }
        let inside = has_ancestor(&snapshots[i].path, &index);
        proof {
            let path = snapshots@[i as int].path@;
            if inside {
                let d = choose|d: int|
                    0 <= d < index@.len() && strictly_inside(path, #[trigger] index@[d]);
                assert(index@[d] == directories@[d]@);
                let j = choose|j: int|
                    0 <= j < snapshots@.len() && (#[trigger] snapshots@[j]).kind is Directory
                        && snapshots@[j].path == directories@[d];
                assert(inside_recorded(snapshots@, path));
            }
            if inside_recorded(snapshots@, path) {
                let j = choose|j: int|
                    0 <= j < snapshots@.len() && (#[trigger] snapshots@[j]).kind is Directory
                        && strictly_inside(path, snapshots@[j].path@);
                assert(directories@.contains(snapshots@[j].path));
                let d = choose|d: int|
                    0 <= d < directories@.len() && directories@[d] == snapshots@[j].path;
                assert(index@[d] == snapshots@[j].path@);
            }
        }
        if !inside {
            paths.push(snapshots[i].path.clone());
        }
        i += 1;
    }
    assert(snapshots@.take(i as int) =~= snapshots@);
    paths
}

/// What walking the outermost recorded paths gave: everything met, or the path
/// that could not be walked.
#[derive(Debug)]
pub enum Walked {
    Seen(Vec<PathSnapshot>),
    Lost(PathBuf),
}

/// Whether what was met is what the record last says of its path.
pub open spec fn as_recorded(snapshots: Seq<PathSnapshot>, met: PathSnapshot) -> bool {
    exists|k: int| #[trigger]
        is_last_position(snapshot_paths(snapshots), met.path@, k) && snapshots[k].identity
            == met.identity && snapshots[k].kind == met.kind
}

/// Where snapshots were taken.
pub open spec fn snapshot_paths(snapshots: Seq<PathSnapshot>) -> Seq<PathModel> {
    snapshots.map_values(|snapshot: PathSnapshot| snapshot.path@)
}

/// Whether a tree is exactly as it was recorded.
pub open spec fn unchanged_since(snapshots: Seq<PathSnapshot>, walked: Walked) -> bool {
    walked matches Walked::Seen(met) && met@.len() == snapshots.len() && forall|i: int|
        0 <= i < met@.len() ==> as_recorded(snapshots, #[trigger] met@[i])
}

/// Whether `message` says why a tree is not as it was recorded.
pub open spec fn change_reported(
    snapshots: Seq<PathSnapshot>,
    walked: Walked,
    message: Seq<char>,
) -> bool {
    match walked {
        Walked::Lost(root) => message == about(
            "Cannot continue: "@,
            root.text(),
            " changed or no longer exists"@,
        ),
        Walked::Seen(met) => if met@.len() != snapshots.len() {
            message == "Cannot continue: the recorded directory contents changed"@
        } else {
            exists|i: int|
                {
                    &&& 0 <= i < met@.len()
                    &&& !as_recorded(snapshots, #[trigger] met@[i])
                    &&& forall|j: int| 0 <= j < i ==> as_recorded(snapshots, #[trigger] met@[j])
                    &&& message == about(
                        "Cannot continue: "@,
                        met@[i].path.text(),
                        " changed or was replaced"@,
                    )
                }
        },
    }
}

/// Refuse a tree unless it is exactly as it was recorded. `walked` is what
/// walking `top_level_paths` gave.
pub fn validate_snapshot_tree(snapshots: &Vec<PathSnapshot>, walked: &Walked) -> (verdict: Result<
    (),
    String,
>)
    ensures
        verdict is Ok <==> unchanged_since(snapshots@, *walked),
        verdict matches Err(message) ==> change_reported(snapshots@, *walked, message@),
{
    let met = match walked {
        Walked::Seen(met) => met,
        Walked::Lost(root) => {
            return Err(message_about("Cannot continue: ", root, " changed or no longer exists"));
        },
    };
    if met.len() != snapshots.len() {
        return Err("Cannot continue: the recorded directory contents changed".to_owned());
    }
    let mut recorded: Vec<PathBuf> = Vec::new();
    let mut i: usize = 0;
    while i < snapshots.len()
        invariant
            i <= snapshots.len(),
            models(recorded@) == snapshot_paths(snapshots@).take(i as int),
        decreases snapshots.len() - i,
    {
        let ghost before = recorded@;
        recorded.push(snapshots[i].path.clone());
        proof {
            assert(models(recorded@) =~= models(before).push(snapshots@[i as int].path@));
            assert(snapshot_paths(snapshots@).take(i + 1) =~= snapshot_paths(snapshots@).take(
                i as int,
            ).push(snapshots@[i as int].path@));
        }
        i += 1;
    }
    assert(snapshot_paths(snapshots@).take(i as int) =~= snapshot_paths(snapshots@));
    let index = PathIndex::new(recorded.as_slice());
    assert(index@ == snapshot_paths(snapshots@));
    let mut i: usize = 0;
    while i < met.len()
        invariant
            i <= met.len(),
            *walked == Walked::Seen(*met),
            met@.len() == snapshots@.len(),
            index@ == snapshot_paths(snapshots@),
            forall|j: int| 0 <= j < i ==> as_recorded(snapshots@, #[trigger] met@[j]),
        decreases met.len() - i,
    {
        let same = match index.find(&met[i].path) {
            Some(position) => {
                let same = snapshots[position].identity == met[i].identity
                    && snapshots[position].kind == met[i].kind;
                proof {
                    assert(is_last_position(
                        snapshot_paths(snapshots@),
                        met@[i as int].path@,
                        position as int,
                    ));
                    if !same && as_recorded(snapshots@, met@[i as int]) {
                        let k = choose|k: int| #[trigger]
                            is_last_position(
                                snapshot_paths(snapshots@),
                                met@[i as int].path@,
                                k,
                            ) && snapshots@[k].identity == met@[i as int].identity
                                && snapshots@[k].kind == met@[i as int].kind;
                        assert(snapshot_paths(snapshots@)[k] == met@[i as int].path@);
                        assert(snapshot_paths(snapshots@)[position as int] == met@[i as int].path@);
                        assert(k == position);
                    }
                }
                same
            },
            None => {
                proof {
                    if as_recorded(snapshots@, met@[i as int]) {
                        let k = choose|k: int| #[trigger]
                            is_last_position(
                                snapshot_paths(snapshots@),
                                met@[i as int].path@,
                                k,
                            ) && snapshots@[k].identity == met@[i as int].identity
                                && snapshots@[k].kind == met@[i as int].kind;
                        assert(index@[k] == met@[i as int].path@);
                    }
                }
                false
            },
        };
        if !same {
            assert(!as_recorded(snapshots@, met@[i as int]));
            return Err(
                message_about("Cannot continue: ", &met[i].path, " changed or was replaced"),
            );
        }
        i += 1;
    }
    Ok(())
}

/// A removal that stopped partway.
///
/// `removed` is empty when the failure happened during validation, which lets
/// the caller keep an undo record that still describes the disk.
#[derive(Debug)]
pub struct PartialRemoval {
    pub removed: Vec<PathBuf>,
    pub error: String,
}

/// Whether a recorded tree may be removed: it is exactly as recorded, and
/// holds nothing that could not be put back.
pub open spec fn removable(snapshots: Seq<PathSnapshot>, walked: Walked) -> bool {
    unchanged_since(snapshots, walked) && special_refusal(snapshots) is None
}

/// The roots to delete, or why nothing may be removed.
///
/// Only copied and extracted output reaches here, and neither can contain a
/// special file. Refuse before removing anything rather than discovering it
/// partway through an irreversible walk. Each validated root then leaves its
/// path with one atomic rename, by permanent deletion, rather than leaf by
/// leaf in place.
pub fn remove_snapshotted_tree(snapshots: &Vec<PathSnapshot>, walked: &Walked) -> (roots: Result<
    Vec<PathBuf>,
    PartialRemoval,
>)
    ensures
        match roots {
            Ok(roots) => removable(snapshots@, *walked) && roots@ == outermost(
                snapshots@,
                snapshots@,
            ),
            Err(refused) => !removable(snapshots@, *walked) && refused.removed@.len() == 0 && (
            if unchanged_since(snapshots@, *walked) {
                special_refusal(snapshots@) == Some(refused.error@)
            } else {
                change_reported(snapshots@, *walked, refused.error@)
            }),
        },
{
    match validate_snapshot_tree(snapshots, walked) {
        Ok(_) => {},
        Err(error) => {
            return Err(PartialRemoval { removed: Vec::new(), error });
        },
    }
    match reject_special_entries(snapshots.as_slice()) {
        Ok(_) => Ok(top_level_paths(snapshots)),
        Err(error) => Err(PartialRemoval { removed: Vec::new(), error }),
    }
}

} // verus!
