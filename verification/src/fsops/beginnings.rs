//! How operations begin, and how far they say they are.

use vstd::prelude::*;
use vstd::utf8::{encode_utf8, valid_utf8};

use crate::fsops::backend::{joined, kept_of};
use crate::fsops::copier::{Copier, CopyStep, StagedCopy};
use crate::fsops::copy::{
    ConfirmWanted, CopiedItem, PreparingCopy, PublishWanted, StagingWanted, WriteWanted,
};
use crate::fsops::delete::{DeleteEntry, PlanInspect};
use crate::fsops::dropped::{dropped_list, Dropped};
use crate::fsops::erase::UnlinkWanted;
use crate::fsops::identity::Metadata;
use crate::fsops::local::{carried_name, Lookup, RenameError};
use crate::fsops::moving::{begins_move, MoveFailure, MoveReady, PreparingMove};
use crate::fsops::mutations::{
    begins_directory, begins_file, begins_rename, name_refusal, DirectoryToCreate, FileToCreate,
    RenameCheck,
};
use crate::fsops::staging::{ReserveWanted, Reserving, StageRename, StageVerify};
use crate::fsops::working::{boot_named, is_hex};
use crate::fsops::{failure_summary, PathFailure, TransferProgressSnapshot};
use crate::path::PathBuf;
use crate::text::decimal;

verus! {

/// Something new lies in the folder it was asked for in, under the name it was
/// asked for under, which can be given.
pub proof fn lemma_new_entries_lie_where_they_were_asked_for(
    parent: PathBuf,
    name: Seq<char>,
    directory: Result<DirectoryToCreate, String>,
    file: Result<FileToCreate, String>,
)
    requires
        begins_directory(parent, name, directory),
        begins_file(parent, name, file),
    ensures
        directory is Ok <==> name_refusal(encode_utf8(name)) is None,
        file is Ok <==> name_refusal(encode_utf8(name)) is None,
        directory matches Ok(wanted) ==> wanted.path@ == parent@.join(encode_utf8(name)),
        file matches Ok(wanted) ==> wanted.path@ == parent@.join(encode_utf8(name)),
{
}

/// A renamed entry stays in the folder it is in, and gets another name, which
/// can be given.
pub proof fn lemma_renamed_entries_stay_in_their_folder(
    source: PathBuf,
    name: Seq<char>,
    result: Result<RenameCheck, String>,
)
    requires
        begins_rename(source, name, result),
    ensures
        result matches Ok(check) ==> check.source == source && (source@.parent() matches Some(
            parent,
        ) && check.destination@ == parent.join(encode_utf8(name))) && source@.file_name() != Some(
            encode_utf8(name),
        ),
        source@.parent() is Some && source@.file_name() is Some && source@.file_name() != Some(
            encode_utf8(name),
        ) && name_refusal(encode_utf8(name)) is None ==> result is Ok,
        name_refusal(encode_utf8(name)) is Some ==> result is Err,
{
}

/// A move begins exactly where its destination is free, and goes on exactly
/// where that does not lie inside what is moved.
pub proof fn lemma_moves_begin_where_nothing_is(
    source: PathBuf,
    destination: PathBuf,
    snapshot_limit: usize,
    found: Lookup,
    begun: Result<PreparingMove, MoveFailure>,
    verdict: Result<(), String>,
    ready: Result<MoveReady, MoveFailure>,
)
    requires
        begins_move(source, destination, snapshot_limit, found, begun),
        begun matches Ok(preparing) ==> preparing.passes(verdict, ready),
    ensures
        begun is Ok <==> found is Missing,
        begun matches Err(failure) ==> !failure.published,
        begun is Ok ==> (ready is Ok <==> verdict is Ok),
        begun is Ok ==> (ready matches Ok(next) ==> next.source == source && next.destination
            == destination && next.snapshot_limit == snapshot_limit),
        begun is Ok ==> (ready matches Err(failure) ==> !failure.published),
{
}

/// A copy begins where its destination does not lie inside what is copied, is
/// made in a private directory beside the destination, and begins with the
/// source.
pub proof fn lemma_copies_are_staged_beside_their_destination(
    preparing: PreparingCopy,
    verdict: Result<(), String>,
    wanted: Result<StagingWanted, String>,
    staging: Option<PathBuf>,
    result: Result<(Copier, PublishWanted), String>,
)
    requires
        preparing.passes(verdict, wanted),
        wanted matches Ok(next) ==> next.passes(staging, result),
    ensures
        verdict is Err ==> wanted is Err,
        verdict is Ok && preparing.destination@.file_name() is Some ==> wanted is Ok,
        wanted matches Ok(next) ==> next.source == preparing.source && next.destination
            == preparing.destination && preparing.destination@.parent() == Some(next.parent@),
        wanted is Ok ==> (result is Ok <==> staging is Some),
        wanted is Ok ==> (result matches Ok((copier, publish)) ==> publish.destination
            == preparing.destination && publish.staged@ == staging.unwrap()@.join(
            preparing.destination@.file_name().unwrap(),
        ) && copier@.steps == seq![
            CopyStep::Visit {
                parent: None,
                source: preparing.source,
                destination: publish.staged,
            },
        ] && copier@.sources.snapshots@.len() == 0 && copier@.created.snapshots@.len() == 0),
{
}

/// A copy is there exactly where it was renamed, and can be taken back only
/// where everything in it is still what was copied.
pub proof fn lemma_a_copy_is_there_once_it_is_renamed(
    publish: PublishWanted,
    staged: StagedCopy,
    renamed: bool,
    result: Result<ConfirmWanted, String>,
    found: Seq<Option<Metadata>>,
    item: CopiedItem,
)
    requires
        publish.passes(staged, renamed, result),
        result matches Ok(confirm) ==> confirm.settles(found, item) && found.len()
            == confirm.created@.len(),
    ensures
        renamed <==> result is Ok,
        result is Ok ==> item.sources == staged.sources.snapshots && item.dropped == staged.dropped
            && item.overflowed == (staged.sources.overflowed || staged.created.overflowed)
            && item.created@.len() == staged.created.snapshots@.len(),
        result is Ok && item.undoable ==> forall|i: int| #![trigger item.created@[i]]
            0 <= i < item.created@.len() ==> (found[i] matches Some(now)
                && item.created@[i].identity.key.device == now.device
                && item.created@[i].identity.key.inode == now.inode
                && item.created@[i].identity.changed_seconds == now.changed_seconds
                && item.created@[i].identity.changed_nanoseconds == now.changed_nanoseconds
                && item.created@[i].kind == now.kind),
{
    if let Ok(confirm) = result {
        if item.undoable {
            assert forall|i: int| #![trigger item.created@[i]] 0 <= i < item.created@.len() implies (
            found[i] matches Some(now) && item.created@[i].identity == now.identity()
                && item.created@[i].kind == now.kind) by {
                assert(crate::fsops::snapshots::still_the_object(
                    confirm.created@[i],
                    crate::fsops::snapshots::found_at(found, i),
                ));
            }
        }
    }
}

/// A root is moved aside under its own name, in the folder it is in, and is
/// looked at there exactly where it moved.
pub proof fn lemma_roots_are_moved_aside_in_place(
    reserving: Reserving,
    sequence: u64,
    offered: Result<ReserveWanted, String>,
    rename: StageRename,
    renamed: Result<(), RenameError>,
    verified: Result<StageVerify, String>,
)
    requires
        reserving.offers(sequence, offered),
        rename.passes(renamed, verified),
    ensures
        offered is Ok <==> reserving.attempts_left > 0,
        offered matches Ok(wanted) ==> wanted.candidate@ == reserving.parent@.join(
            carried_name(reserving.prefix@, sequence as nat, reserving.name@),
        ) && wanted.reserving.attempts_left == reserving.attempts_left - 1,
        verified is Ok <==> renamed is Ok,
        verified matches Ok(verify) ==> verify.original == rename.original && verify.quarantine
            == rename.quarantine && verify.key == rename.key,
{
}

/// Deleting counts up to what was planned: an entry that is erased counts as
/// the one item, and the bytes, that it was planned as.
pub proof fn lemma_deleting_counts_what_was_planned(
    inspect: PlanInspect,
    metadata: Metadata,
    planned: TransferProgressSnapshot,
    totals: TransferProgressSnapshot,
    entry: DeleteEntry,
    wanted: UnlinkWanted,
    before: TransferProgressSnapshot,
    after: TransferProgressSnapshot,
)
    requires
        inspect.counts(Lookup::Found(metadata), planned, totals),
        entry.plans(inspect.path, metadata),
        wanted.erase.current() == entry,
        wanted.counts(true, before, after),
        planned.total_items < u64::MAX,
        planned.total_bytes + metadata.len <= u64::MAX,
        before.completed_items < u64::MAX,
        before.completed_bytes + metadata.len <= u64::MAX,
    ensures
        totals.total_items == planned.total_items + 1,
        metadata.kind is File ==> totals.total_bytes == planned.total_bytes + metadata.len,
        !(metadata.kind is File) ==> totals.total_bytes == planned.total_bytes,
        after.completed_items - before.completed_items == totals.total_items
            - planned.total_items,
        after.completed_bytes - before.completed_bytes == totals.total_bytes
            - planned.total_bytes,
{
}

/// What was not erased, or not planned, does not count.
pub proof fn lemma_only_what_is_erased_counts(
    wanted: UnlinkWanted,
    before: TransferProgressSnapshot,
    after: TransferProgressSnapshot,
    inspect: PlanInspect,
    found: Lookup,
    planned: TransferProgressSnapshot,
    totals: TransferProgressSnapshot,
)
    requires
        wanted.counts(false, before, after),
        inspect.counts(found, planned, totals),
        !(found is Found),
    ensures
        after == before,
        totals == planned,
{
}

/// Copying counts the bytes that were written, and only those.
pub proof fn lemma_copying_counts_what_was_written(
    wanted: WriteWanted,
    complete: bool,
    before: TransferProgressSnapshot,
    after: TransferProgressSnapshot,
)
    requires
        wanted.counts(complete, before, after),
        before.completed_bytes + wanted.length <= u64::MAX,
    ensures
        complete ==> after.completed_bytes == before.completed_bytes + wanted.length,
        !complete ==> after == before,
        after.completed_items == before.completed_items,
{
}

/// Of what a program prints the beginning is kept, and all of it where it fits.
pub proof fn lemma_the_beginning_is_kept(chunks: Seq<Vec<u8>>, last: Vec<u8>, limit: nat)
    ensures
        kept_of(joined(chunks), limit).is_prefix_of(joined(chunks)),
        kept_of(joined(chunks), limit).len() <= limit,
        joined(chunks).len() <= limit ==> kept_of(joined(chunks), limit) == joined(chunks),
        joined(chunks).len() > limit ==> kept_of(joined(chunks), limit).len() == limit,
        joined(chunks.push(last)) == joined(chunks) + last@,
        joined(Seq::<Vec<u8>>::empty()).len() == 0,
{
    assert(chunks.push(last).drop_last() =~= chunks);
    let all = joined(chunks);
    assert(kept_of(all, limit) =~= all.subrange(0, kept_of(all, limit).len() as int));
}

/// Several failures are told by the first and by how many more there are.
pub proof fn lemma_failures_are_summed_up(failures: Seq<PathFailure>, when_empty: Seq<char>)
    ensures
        failures.len() == 0 ==> failure_summary(failures, when_empty) == when_empty,
        failures.len() == 1 ==> failure_summary(failures, when_empty) == failures[0].message@,
        failures.len() > 1 ==> failures[0].message@.is_prefix_of(
            failure_summary(failures, when_empty),
        ),
        failures.len() > 2 ==> failure_summary(failures, when_empty) == failures[0].message@ + seq![
            ' ',
            '(',
            'a',
            'n',
            'd',
            ' ',
        ] + decimal((failures.len() - 1) as nat) + seq![
            ' ',
            'm',
            'o',
            'r',
            'e',
            ' ',
            'f',
            'a',
            'i',
            'l',
            'u',
            'r',
            'e',
            's',
            ')',
        ],
{
    reveal_strlit(" (and ");
    reveal_strlit(" more failure");
    reveal_strlit("s");
    reveal_strlit(")");
    let told = failure_summary(failures, when_empty);
    if failures.len() > 1 {
        let first = failures[0].message@;
        assert(first =~= told.subrange(0, first.len() as int));
    }
    if failures.len() > 2 {
        assert(told =~= failures[0].message@ + seq![' ', '(', 'a', 'n', 'd', ' '] + decimal(
            (failures.len() - 1) as nat,
        ) + seq![
            ' ',
            'm',
            'o',
            'r',
            'e',
            ' ',
            'f',
            'a',
            'i',
            'l',
            'u',
            'r',
            'e',
            's',
            ')',
        ]);
    }
}

proof fn lemma_list_is_as_long_as(dropped: Dropped)
    ensures
        dropped_list(dropped).len() == (if dropped.permissions {
            11int
        } else {
            0
        }) + (if !dropped.attributes {
            0int
        } else if dropped.permissions {
            21
        } else {
            19
        }) + (if !dropped.links {
            0int
        } else if dropped.permissions || dropped.attributes {
            16
        } else {
            14
        }),
{
    reveal_strlit("");
    reveal_strlit("permissions");
    reveal_strlit("extended attributes");
    reveal_strlit(", extended attributes");
    reveal_strlit("symbolic links");
    reveal_strlit(", symbolic links");
}

/// No two losses read the same.
pub proof fn lemma_losses_are_told_apart(left: Dropped, right: Dropped)
    requires
        !left.is_nothing(),
        !right.is_nothing(),
        dropped_list(left) == dropped_list(right),
    ensures
        left.permissions == right.permissions,
        left.attributes == right.attributes,
        left.links == right.links,
{
    lemma_list_is_as_long_as(left);
    lemma_list_is_as_long_as(right);
}

/// A boot is named by thirty-two hexadecimal digits, whatever the system puts
/// between them, and where it says anything else by as many zeros.
pub proof fn lemma_boots_are_named_by_digits(text: Option<Seq<u8>>)
    ensures
        boot_named(text).len() == 32,
        forall|i: int| 0 <= i < boot_named(text).len() ==> is_hex(#[trigger] boot_named(text)[i]),
        text is None ==> forall|i: int|
            0 <= i < boot_named(text).len() ==> #[trigger] boot_named(text)[i] == 48,
        text matches Some(bytes) ==> (bytes.len() == 32 && valid_utf8(bytes) && (forall|i: int|
            0 <= i < bytes.len() ==> is_hex(#[trigger] bytes[i])) ==> boot_named(text) == bytes),
{
    broadcast use vstd::seq_lib::group_filter_ensures;

    let hexadecimal = |byte: u8| is_hex(byte);
    if let Some(bytes) = text {
        let digits = bytes.filter(hexadecimal);
        assert forall|i: int| 0 <= i < digits.len() implies is_hex(#[trigger] digits[i]) by {
            assert(hexadecimal(digits[i]));
        }
        if forall|i: int| 0 <= i < bytes.len() ==> is_hex(#[trigger] bytes[i]) {
            lemma_nothing_is_left_out(bytes);
        }
    }
}

proof fn lemma_nothing_is_left_out(bytes: Seq<u8>)
    requires
        forall|i: int| 0 <= i < bytes.len() ==> is_hex(#[trigger] bytes[i]),
    ensures
        bytes.filter(|byte: u8| is_hex(byte)) == bytes,
    decreases bytes.len(),
{
    reveal(Seq::filter);
    if bytes.len() > 0 {
        assert forall|i: int| 0 <= i < bytes.drop_last().len() implies is_hex(
            #[trigger] bytes.drop_last()[i],
        ) by {
            assert(bytes.drop_last()[i] == bytes[i]);
        }
        lemma_nothing_is_left_out(bytes.drop_last());
        assert(is_hex(bytes[bytes.len() - 1]));
        assert(bytes.drop_last().push(bytes.last()) =~= bytes);
    }
}

} // verus!
