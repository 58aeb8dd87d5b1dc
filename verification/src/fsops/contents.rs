//! What a copy of one object is: every byte, durable, with its attributes.

use vstd::prelude::*;

use crate::fsops::copier::{
    link_key, CopyingContent, CreatingDirectory, FileStep, Opened, OpeningDirectory,
    OpeningFile, PreservingFile, VisitStep, Visiting,
};
use crate::fsops::copy::{
    begins_content, begins_copy, carried_of, AttributeError, AttributeOutcome, AttributesWanted,
    BufferedCopy, BufferedStep, CarryAttributes, ContentCopy, ContentStep, CreateWanted,
    ModeWanted, PlainWanted, PreparingCopy, ReadWanted, RestartWanted, Restarted, SparseWanted,
    SyncWanted, TimesWanted, WholeContent, WriteWanted,
};
use crate::fsops::dropped::{Dropped, Kept};
use crate::fsops::identity::Metadata;
use crate::fsops::local::Lookup;
use crate::path::PathBuf;

verus! {

/// A file being copied a buffer at a time: how much of it was read, and what
/// was written.
#[verifier::ext_equal]
pub struct PlainState {
    pub copy: BufferedCopy,
    pub read: int,
    pub written: Seq<u8>,
}

/// Whether reading gave as much as it may: something, until the end.
pub open spec fn reads_some(bytes: Seq<u8>, state: PlainState, length: u64) -> bool {
    &&& length <= bytes.len() - state.read
    &&& length == 0 <==> state.read == bytes.len()
}

/// Whether a copy read some more of a file and wrote what it asked to be
/// written of that.
pub open spec fn copies_on(
    bytes: Seq<u8>,
    before: PlainState,
    after: PlainState,
    wanted: ReadWanted,
    length: u64,
    write: WriteWanted,
) -> bool {
    &&& before.copy.goes_on(false, Ok::<ReadWanted, String>(wanted))
    &&& reads_some(bytes, before, length)
    &&& wanted.follows(Some(length), BufferedStep::Write(write))
    &&& write.settles(true, Ok::<BufferedCopy, String>(after.copy))
    &&& after.read == before.read + length
    &&& after.written == before.written + bytes.subrange(before.read, before.read + write.length)
}

/// Whether a copy went on from one state to the next.
pub open spec fn copies_at(bytes: Seq<u8>, run: Seq<PlainState>, at: int) -> bool {
    exists|wanted: ReadWanted, length: u64, write: WriteWanted| #[trigger]
        copies_on(bytes, run[at], run[at + 1], wanted, length, write)
}

proof fn lemma_written_so_far(bytes: Seq<u8>, run: Seq<PlainState>, at: int)
    requires
        0 <= at < run.len(),
        run[0].read == 0,
        run[0].written.len() == 0,
        forall|i: int| 0 <= i < run.len() - 1 ==> #[trigger] copies_at(bytes, run, i),
    ensures
        0 <= run[at].read <= bytes.len(),
        run[at].written == bytes.take(run[at].read),
    decreases at,
{
    if at == 0 {
        assert(run[0].written =~= bytes.take(0));
    } else {
        lemma_written_so_far(bytes, run, at - 1);
        assert(copies_at(bytes, run, at - 1));
        let (wanted, length, write) = choose|wanted: ReadWanted, length: u64, write: WriteWanted|
            #[trigger]
            copies_on(bytes, run[at - 1], run[at], wanted, length, write);
        assert(write.length == length);
        assert(run[at].written =~= bytes.take(run[at].read));
    }
}

/// A plain copy that comes to its end has written every byte of the file.
pub proof fn lemma_plain_copy_is_whole(
    bytes: Seq<u8>,
    run: Seq<PlainState>,
    wanted: ReadWanted,
    length: u64,
)
    requires
        run.len() > 0,
        run[0].read == 0,
        run[0].written.len() == 0,
        forall|i: int| 0 <= i < run.len() - 1 ==> #[trigger] copies_at(bytes, run, i),
        run.last().copy.goes_on(false, Ok::<ReadWanted, String>(wanted)),
        reads_some(bytes, run.last(), length),
        wanted.follows(Some(length), BufferedStep::Done),
    ensures
        run.last().written == bytes,
{
    lemma_written_so_far(bytes, run, run.len() - 1);
    assert(bytes.take(bytes.len() as int) =~= bytes);
}

/// A plain copy that was abandoned, or could not read or write, never counts
/// as done.
pub proof fn lemma_failed_plain_copy_is_not_done(
    copy: BufferedCopy,
    cancelled: bool,
    goes: Result<ReadWanted, String>,
    wanted: ReadWanted,
    length: Option<u64>,
    step: BufferedStep,
    write: WriteWanted,
    complete: bool,
    result: Result<BufferedCopy, String>,
)
    requires
        copy.goes_on(cancelled, goes),
        wanted.follows(length, step),
        write.settles(complete, result),
    ensures
        goes is Ok <==> !cancelled,
        length is None <==> step is Failed,
        result is Ok <==> complete,
{
}

/// The content of a file being copied: what the copy holds, and whether that
/// is durable.
#[verifier::ext_equal]
pub struct ContentState {
    pub step: ContentStep,
    pub held: Seq<u8>,
    pub durable: bool,
}

/// Whether copying content went on by creating the copy.
pub open spec fn creates(before: ContentState, after: ContentState, wanted: CreateWanted) -> bool {
    &&& before.step == ContentStep::Create(wanted)
    &&& wanted.follows(true, after.step)
    &&& after.held.len() == 0
    &&& !after.durable
}

/// Whether copying content went on by trying to copy only data: all of it was
/// copied, or whatever is in the copy does not count.
pub open spec fn tries_sparse(
    bytes: Seq<u8>,
    before: ContentState,
    after: ContentState,
    wanted: SparseWanted,
    copied: bool,
) -> bool {
    &&& before.step == ContentStep::Sparse(wanted)
    &&& wanted.follows(Ok::<bool, String>(copied), after.step)
    &&& copied ==> after.held == bytes
    &&& !after.durable
}

/// Whether copying content went on by beginning again with nothing.
pub open spec fn restarts(
    before: ContentState,
    after: ContentState,
    wanted: RestartWanted,
) -> bool {
    &&& before.step == ContentStep::Restart(wanted)
    &&& wanted.follows(Restarted::Done, after.step)
    &&& after.held.len() == 0
    &&& !after.durable
}

/// Whether copying content went on by adding every byte to what is there.
pub open spec fn adds_everything(
    bytes: Seq<u8>,
    before: ContentState,
    after: ContentState,
    wanted: PlainWanted,
) -> bool {
    &&& before.step == ContentStep::Plain(wanted)
    &&& wanted.follows(Ok::<(), String>(()), after.step)
    &&& after.held == before.held + bytes
    &&& !after.durable
}

/// Whether copying content went on by making the copy durable.
pub open spec fn syncs(before: ContentState, after: ContentState, wanted: SyncWanted) -> bool {
    &&& before.step == ContentStep::Sync(wanted)
    &&& wanted.follows(true, after.step)
    &&& after.held == before.held
    &&& after.durable
}

/// Whether copying content went on from one state to the next.
pub open spec fn content_at(bytes: Seq<u8>, run: Seq<ContentState>, at: int) -> bool {
    ||| exists|wanted: CreateWanted| #[trigger] creates(run[at], run[at + 1], wanted)
    ||| exists|wanted: SparseWanted, copied: bool| #[trigger]
        tries_sparse(bytes, run[at], run[at + 1], wanted, copied)
    ||| exists|wanted: RestartWanted| #[trigger] restarts(run[at], run[at + 1], wanted)
    ||| exists|wanted: PlainWanted| #[trigger]
        adds_everything(bytes, run[at], run[at + 1], wanted)
    ||| exists|wanted: SyncWanted| #[trigger] syncs(run[at], run[at + 1], wanted)
}

/// What holds of copying content at every step.
pub open spec fn content_stands(bytes: Seq<u8>, content: ContentCopy, state: ContentState) -> bool {
    match state.step {
        ContentStep::Create(wanted) => wanted.content == content && wanted.mode & 0o77u32 == 0,
        ContentStep::Sparse(wanted) => wanted.content == content && state.held.len() == 0,
        ContentStep::Restart(wanted) => wanted.content == content,
        ContentStep::Plain(wanted) => wanted.content == content && state.held.len() == 0,
        ContentStep::Sync(wanted) => wanted.content == content && state.held == bytes,
        ContentStep::Done(whole) => whole.of() == content && state.held == bytes && state.durable,
        ContentStep::Failed(_) => false,
    }
}

/// Copying the content of a file, with everything it asks for done, never
/// fails. The copy is created for its owner alone, and once it counts as whole
/// it holds exactly the bytes of the file, durably.
pub proof fn lemma_whole_content_is_every_byte(
    bytes: Seq<u8>,
    source: PathBuf,
    destination: PathBuf,
    run: Seq<ContentState>,
    at: int,
)
    requires
        0 <= at < run.len(),
        begins_content(source, destination, run[0].step),
        forall|i: int| 0 <= i < run.len() - 1 ==> #[trigger] content_at(bytes, run, i),
    ensures
        content_stands(bytes, ContentCopy { source, destination }, run[at]),
        run[at].step is Done ==> run[at].held == bytes && run[at].durable,
        !(run[at].step is Failed),
    decreases at,
{
    if at == 0 {
        assert(0o600u32 & 0o77u32 == 0) by (bit_vector);
    } else {
        lemma_whole_content_is_every_byte(bytes, source, destination, run, at - 1);
        assert(content_at(bytes, run, at - 1));
        let before = run[at - 1];
        let after = run[at];
        match before.step {
            ContentStep::Create(wanted) => {
                assert(creates(before, after, wanted));
            },
            ContentStep::Sparse(wanted) => {
                let copied = choose|copied: bool| #[trigger]
                    tries_sparse(bytes, before, after, wanted, copied);
                assert(tries_sparse(bytes, before, after, wanted, copied));
            },
            ContentStep::Restart(wanted) => {
                assert(restarts(before, after, wanted));
            },
            ContentStep::Plain(wanted) => {
                assert(adds_everything(bytes, before, after, wanted));
                assert(before.held + bytes =~= bytes);
            },
            ContentStep::Sync(wanted) => {
                assert(syncs(before, after, wanted));
            },
            _ => {},
        }
    }
}

/// No content counts as whole where a step of it failed.
pub proof fn lemma_failed_content_is_not_whole(
    create: CreateWanted,
    created: bool,
    create_step: ContentStep,
    sync: SyncWanted,
    synced: bool,
    sync_step: ContentStep,
    plain: PlainWanted,
    copied: Result<(), String>,
    plain_step: ContentStep,
)
    requires
        create.follows(created, create_step),
        sync.follows(synced, sync_step),
        plain.follows(copied, plain_step),
    ensures
        create_step is Failed <==> !created,
        sync_step is Failed <==> !synced,
        sync_step is Done <==> synced,
        plain_step is Failed <==> copied is Err,
{
}

/// `user.`
pub open spec fn is_users_own(name: Seq<u8>) -> bool {
    name.len() >= 5 && name[0] == 117 && name[1] == 115 && name[2] == 101 && name[3] == 114
        && name[4] == 46
}

/// `system.posix_acl_access` or `system.posix_acl_default`
pub open spec fn is_access_list(name: Seq<u8>) -> bool {
    ||| name == seq![
        115u8, 121, 115, 116, 101, 109, 46, 112, 111, 115, 105, 120, 95, 97, 99, 108, 95, 97, 99,
        99, 101, 115, 115,
    ]
    ||| name == seq![
        115u8, 121, 115, 116, 101, 109, 46, 112, 111, 115, 105, 120, 95, 97, 99, 108, 95, 100, 101,
        102, 97, 117, 108, 116,
    ]
}

/// A copy gets what a user attached to its source and the access control
/// lists, all of them, and no other attribute.
pub proof fn lemma_user_attributes_are_carried(
    wanted: AttributesWanted,
    names: Vec<Vec<u8>>,
    result: Result<CarryAttributes, String>,
)
    requires
        wanted.comes_to(Ok::<Vec<Vec<u8>>, AttributeError>(names), result),
    ensures
        result matches Ok(carry) && carry.source == wanted.source && carry.destination
            == wanted.destination && forall|name: Vec<u8>| #[trigger]
            carry.names@.contains(name) <==> names@.contains(name) && (is_users_own(name@)
                || is_access_list(name@)),
{
    broadcast use vstd::seq_lib::group_filter_ensures;

    let carried_here = |name: Vec<u8>| crate::fsops::copy::carried(name@);
    assert forall|name: Vec<u8>| #[trigger] carried_of(names@).contains(name) == (names@.contains(
        name,
    ) && (is_users_own(name@) || is_access_list(name@))) by {
        let all = names@;
        let kept = carried_of(all);
        lemma_carried_by_name(name@);
        if kept.contains(name) {
            let i = choose|i: int| 0 <= i < kept.len() && kept[i] == name;
            assert(carried_here(kept[i]));
            all.lemma_filter_contains_rev(carried_here, name);
        }
        if all.contains(name) && crate::fsops::copy::carried(name@) {
            let i = choose|i: int| 0 <= i < all.len() && all[i] == name;
            assert(carried_here(all[i]));
            assert(kept.contains(all[i]));
        }
    }
}

proof fn lemma_carried_by_name(name: Seq<u8>)
    ensures
        crate::fsops::copy::carried(name) <==> is_users_own(name) || is_access_list(name),
{
    let prefix = crate::fsops::copy::user_attribute_prefix();
    if prefix.is_prefix_of(name) {
        assert(name.subrange(0, 5) =~= prefix);
        assert(name[0] == prefix[0] && name[1] == prefix[1] && name[2] == prefix[2] && name[3]
            == prefix[3] && name[4] == prefix[4]);
    }
    if is_users_own(name) {
        assert(name.subrange(0, 5) =~= prefix);
    }
    let list = crate::fsops::copy::acl_attribute_prefix();
    assert(list + crate::fsops::copy::access_suffix() =~= seq![
        115u8, 121, 115, 116, 101, 109, 46, 112, 111, 115, 105, 120, 95, 97, 99, 108, 95, 97, 99,
        99, 101, 115, 115,
    ]);
    assert(list + crate::fsops::copy::default_suffix() =~= seq![
        115u8, 121, 115, 116, 101, 109, 46, 112, 111, 115, 105, 120, 95, 97, 99, 108, 95, 100, 101,
        102, 97, 117, 108, 116,
    ]);
}

/// A copy goes on to its timestamps exactly where every attribute was carried,
/// was gone, or has no room at the destination, which is then reported.
pub proof fn lemma_lost_attributes_are_reported(
    carry: CarryAttributes,
    outcomes: Seq<AttributeOutcome>,
    result: Result<TimesWanted, String>,
)
    requires
        carry.comes_to(outcomes, result),
    ensures
        result is Ok ==> outcomes.len() >= carry.names@.len() && forall|i: int|
            0 <= i < carry.names@.len() ==> (#[trigger] outcomes[i] is Carried || outcomes[i] is Gone
                || outcomes[i] is Unsupported),
        outcomes.len() >= carry.names@.len() && (forall|i: int|
            0 <= i < carry.names@.len() ==> (#[trigger] outcomes[i] is Carried || outcomes[i] is Gone
                || outcomes[i] is Unsupported)) ==> result is Ok,
        result matches Ok(times) ==> times.destination == carry.destination
            && !times.dropped.permissions && !times.dropped.links && (times.dropped.attributes
            <==> exists|i: int|
            0 <= i < carry.names@.len() && #[trigger] outcomes[i] is Unsupported),
{
    if result is Ok {
        assert forall|i: int| 0 <= i < carry.names@.len() implies (
        #[trigger] outcomes[i] is Carried || outcomes[i] is Gone || outcomes[i] is Unsupported) by {
            assert(!crate::fsops::copy::stops(outcomes[i]));
        }
    } else if outcomes.len() >= carry.names@.len() && (forall|i: int|
        0 <= i < carry.names@.len() ==> (#[trigger] outcomes[i] is Carried || outcomes[i] is Gone
            || outcomes[i] is Unsupported)) {
        assert(forall|i: int|
            0 <= i < carry.names@.len() ==> !crate::fsops::copy::stops(#[trigger] outcomes[i]));
    }
}

/// The mode comes last, after the timestamps, and a filesystem without room
/// for it is reported while a failure stops the copy.
pub proof fn lemma_mode_comes_last(
    times: TimesWanted,
    done: bool,
    mode: ModeWanted,
    kept: Kept,
    result: Result<Dropped, String>,
)
    requires
        times.settles(done, Ok::<ModeWanted, String>(mode)),
        mode.settles(kept, result),
    ensures
        done,
        mode.destination == times.destination,
        result is Err <==> kept is Failed,
        result matches Ok(lost) ==> lost.permissions == (times.dropped.permissions
            || kept is Unsupported) && lost.attributes == times.dropped.attributes && lost.links
            == times.dropped.links,
{
}

/// A copy begins exactly where nothing is at its destination.
pub proof fn lemma_copies_overwrite_nothing(
    source: PathBuf,
    destination: PathBuf,
    snapshot_limit: usize,
    found: Lookup,
    result: Result<PreparingCopy, String>,
)
    requires
        begins_copy(source, destination, snapshot_limit, found, result),
    ensures
        result is Ok <==> found is Missing,
        result matches Ok(preparing) ==> preparing.source == source && preparing.destination
            == destination && preparing.snapshot_limit == snapshot_limit,
{
}

/// Whether what was opened is the object that was looked at.
pub open spec fn same_opened(seen: Metadata, opened: Opened) -> bool {
    opened matches Opened::As(found) && found.device == seen.device && found.inode == seen.inode
        && found.kind == seen.kind
}

/// Only the directory that was looked at is gone into.
pub proof fn lemma_only_the_seen_directory_is_entered(
    opening: OpeningDirectory,
    opened: Opened,
    result: Result<CreatingDirectory, String>,
)
    requires
        opening.follows(opened, result),
    ensures
        result is Ok <==> same_opened(opening.metadata, opened),
        result matches Ok(creating) ==> creating.source == opening.source && creating.destination
            == opening.destination,
{
}

/// Only the file that was looked at is read.
pub proof fn lemma_only_the_seen_file_is_read(
    opening: OpeningFile,
    opened: Opened,
    step: FileStep,
)
    requires
        opening.follows(opened, step),
    ensures
        step is Failed <==> !same_opened(opening.metadata, opened),
        step matches FileStep::Content(copying) ==> copying.source == opening.source
            && copying.destination == opening.destination,
        step matches FileStep::Link(linking) ==> linking.source == opening.source
            && linking.destination == opening.destination,
{
}

/// A second name of a file whose copy was made becomes a second name of that
/// copy, as long as the copy remembers it.
pub proof fn lemma_hard_links_stay_links(
    first: CopyingContent,
    whole: WholeContent,
    preserving: PreservingFile,
    second: OpeningFile,
    opened: Opened,
    step: FileStep,
)
    requires
        first.follows(
            Ok::<WholeContent, String>(whole),
            Ok::<PreservingFile, String>(preserving),
        ),
        first.metadata.links > 1,
        second.metadata.links > 1,
        second.metadata.device == first.metadata.device,
        second.metadata.inode == first.metadata.inode,
        second.copier@.hardlinks == preserving.copier@.hardlinks,
        same_opened(second.metadata, opened),
        second.follows(opened, step),
    ensures
        step matches FileStep::Link(linking) && linking.existing == first.destination,
        forall|key: u128|
            first.copier@.hardlinks.dom().contains(key) && key != link_key(first.metadata.key())
                ==> #[trigger] preserving.copier@.hardlinks[key] == first.copier@.hardlinks[key],
{
}

/// Everything that can be copied is: folders, files and links are gone on
/// with, and anything else is refused.
pub proof fn lemma_every_kind_is_copied_as_itself(
    visiting: Visiting,
    found: Metadata,
    step: VisitStep,
)
    requires
        visiting.follows(Some(found), step),
    ensures
        step is OpenDirectory <==> found.kind is Directory,
        step is OpenFile <==> found.kind is File,
        step is CopyLink <==> found.kind is Symlink,
        step matches VisitStep::OpenDirectory(opening) ==> opening.source == visiting.source
            && opening.destination == visiting.destination && opening.metadata == found,
        step matches VisitStep::OpenFile(opening) ==> opening.source == visiting.source
            && opening.destination == visiting.destination && opening.metadata == found,
        step matches VisitStep::CopyLink(linking) ==> linking.source == visiting.source
            && linking.destination == visiting.destination,
{
}

} // verus!
