//! How the entries of a directory are shown, and in what order.

use vstd::prelude::*;
use vstd::utf8::{decode_utf8, valid_utf8};

use crate::fs::{
    chars_precede, display_label, lemma_ordinary_sizes_are_exact, rounded, shown_size, size_tenths,
    size_unit, unit_bytes, DirectoryRead, DirectoryStream,
    DirectoryUpdate, FileEntry, StreamStep,
};
use crate::fsops::identity::Metadata;
use crate::order::Ranked;
use crate::path::PathBuf;
use crate::text::decimal;

verus! {

/// A folder, and a link to one, can be entered, and nothing else can.
pub proof fn lemma_folders_can_be_entered(
    path: PathBuf,
    metadata: Metadata,
    target: Option<Metadata>,
    icon_path: Option<PathBuf>,
    result: Result<FileEntry, String>,
)
    requires
        FileEntry::is_at(path, metadata, target, icon_path, result),
    ensures
        result is Ok <==> path@.file_name() is Some,
        result matches Ok(entry) ==> {
            &&& metadata.kind is Directory ==> entry.navigable
            &&& metadata.kind is Symlink ==> (entry.navigable <==> (target matches Some(leads_to)
                && leads_to.kind is Directory))
            &&& !(metadata.kind is Directory || metadata.kind is Symlink) ==> !entry.navigable
        },
{
}

/// A file is as large as it is, a link as what it leads to, and nothing but a
/// file has a size.
pub proof fn lemma_only_files_have_a_size(
    path: PathBuf,
    metadata: Metadata,
    target: Option<Metadata>,
    icon_path: Option<PathBuf>,
    result: Result<FileEntry, String>,
)
    requires
        FileEntry::is_at(path, metadata, target, icon_path, result),
    ensures
        result matches Ok(entry) ==> {
            &&& metadata.kind is File ==> entry.size == Some(metadata.len)
            &&& metadata.kind is Symlink ==> (target matches Some(leads_to) ==> (leads_to.kind
                is File ==> entry.size == Some(leads_to.len)))
            &&& metadata.kind is Symlink && target is None ==> entry.size is None
            &&& !(metadata.kind is File || metadata.kind is Symlink) ==> entry.size is None
        },
{
}

/// A link is shown as a link, wherever it leads, and each kind as itself.
pub proof fn lemma_entries_are_shown_as_what_they_are(
    path: PathBuf,
    metadata: Metadata,
    target: Option<Metadata>,
    icon_path: Option<PathBuf>,
    result: Result<FileEntry, String>,
)
    requires
        FileEntry::is_at(path, metadata, target, icon_path, result),
    ensures
        result matches Ok(entry) ==> {
            &&& entry.kind is Directory <==> metadata.kind is Directory
            &&& entry.kind is File <==> metadata.kind is File
            &&& entry.kind is Symlink <==> metadata.kind is Symlink
            &&& Some(entry.name_os@) == path@.file_name()
            &&& entry.path == path
            &&& entry.icon_path == icon_path
        },
{
}

/// What each kind of entry is called, letter by letter.
pub proof fn lemma_kinds_are_called_what_they_are(entry: FileEntry)
    ensures
        entry.kind is Directory ==> entry.kind_label() == seq![
            'F',
            'o',
            'l',
            'd',
            'e',
            'r',
        ],
        entry.kind is File ==> entry.kind_label() == seq![
            'F',
            'i',
            'l',
            'e',
        ],
        entry.kind is Symlink ==> entry.kind_label() == seq![
            'S',
            'y',
            'm',
            'b',
            'o',
            'l',
            'i',
            'c',
            ' ',
            'l',
            'i',
            'n',
            'k',
        ],
        entry.kind is Other ==> entry.kind_label() == seq![
            'S',
            'p',
            'e',
            'c',
            'i',
            'a',
            'l',
            ' ',
            'f',
            'i',
            'l',
            'e',
        ],
{
    reveal_strlit("Folder");
    reveal_strlit("File");
    reveal_strlit("Symbolic link");
    reveal_strlit("Special file");
}

/// A name that is text, and does not begin with the bracket that labels begin
/// with, is shown as it is.
pub proof fn lemma_ordinary_names_are_shown_as_they_are(name: Seq<u8>)
    requires
        valid_utf8(name),
        decode_utf8(name).len() > 0 ==> decode_utf8(name)[0] != '⟦',
    ensures
        display_label(name) == decode_utf8(name),
{
    reveal_strlit("⟦bytes:");
    reveal_strlit("⟦text:");
    let text = decode_utf8(name);
    if "⟦bytes:"@.is_prefix_of(text) {
        assert(text[0] == "⟦bytes:"@[0]);
    }
    if "⟦text:"@.is_prefix_of(text) {
        assert(text[0] == "⟦text:"@[0]);
    }
}

/// What can be entered is shown before what cannot.
pub proof fn lemma_folders_come_first(left: FileEntry, right: FileEntry)
    requires
        left.navigable,
        !right.navigable,
    ensures
        left.ranks(&right),
        !right.ranks(&left),
{
}

proof fn lemma_first_difference_decides(left: Seq<char>, right: Seq<char>, at: int)
    requires
        0 <= at < left.len(),
        at < right.len(),
        forall|i: int| 0 <= i < at ==> #[trigger] left[i] == right[i],
        (left[at] as u32) < (right[at] as u32),
    ensures
        chars_precede(left, right),
        !chars_precede(right, left),
    decreases at,
{
    if at > 0 {
        assert(left[0] == right[0]);
        let (l, r) = (left.drop_first(), right.drop_first());
        assert forall|i: int| 0 <= i < at - 1 implies #[trigger] l[i] == r[i] by {
            assert(left[i + 1] == right[i + 1]);
        }
        lemma_first_difference_decides(l, r, at - 1);
    }
}

proof fn lemma_beginning_comes_first(left: Seq<char>, right: Seq<char>)
    requires
        left.is_prefix_of(right),
        left.len() < right.len(),
    ensures
        chars_precede(left, right),
        !chars_precede(right, left),
    decreases left.len(),
{
    if left.len() > 0 {
        assert(left[0] == right.subrange(0, left.len() as int)[0]);
        assert(left.drop_first() =~= right.drop_first().subrange(0, left.len() - 1));
        lemma_beginning_comes_first(left.drop_first(), right.drop_first());
    }
}

/// Among entries alike in that, the first character in which their names
/// differ, case aside, decides; a name comes before any that it begins.
pub proof fn lemma_names_are_shown_in_order(left: FileEntry, right: FileEntry, at: int)
    requires
        left.navigable == right.navigable,
        0 <= at < right.folded_name@.len(),
        at <= left.folded_name@.len(),
        forall|i: int|
            0 <= i < at ==> #[trigger] left.folded_name@[i] == right.folded_name@[i],
        at < left.folded_name@.len() ==> (left.folded_name@[at] as u32) < (
        right.folded_name@[at] as u32),
    ensures
        left.ranks(&right),
        !right.ranks(&left),
{
    let (l, r) = (left.folded_name@, right.folded_name@);
    if at < l.len() {
        lemma_first_difference_decides(l, r, at);
    } else {
        assert(l =~= r.subrange(0, l.len() as int));
        lemma_beginning_comes_first(l, r);
    }
}

/// Bytes are shown as they are counted, and anything larger in the largest unit
/// of which there is at least one.
pub proof fn lemma_sizes_are_shown_in_their_unit(size: nat)
    ensures
        size < 1024 ==> shown_size(size) == decimal(size) + seq![' ', 'B'],
        size >= 1024 ==> unit_bytes(size_unit(size)) <= size,
        1024 <= size < 1024 * 1024 * 1024 * 1024 ==> size < 1024 * unit_bytes(size_unit(size)),
        1024 <= size < 1024 * 1024 ==> shown_size(size) == decimal(size_tenths(size) / 10) + seq![
            '.',
        ] + decimal(size_tenths(size) % 10) + seq![' ', 'K', 'i', 'B'],
        1024 * 1024 <= size < 1024 * 1024 * 1024 ==> shown_size(size) == decimal(
            size_tenths(size) / 10,
        ) + seq!['.'] + decimal(size_tenths(size) % 10) + seq![' ', 'M', 'i', 'B'],
        1024 * 1024 * 1024 <= size < 1024 * 1024 * 1024 * 1024 ==> shown_size(size) == decimal(
            size_tenths(size) / 10,
        ) + seq!['.'] + decimal(size_tenths(size) % 10) + seq![' ', 'G', 'i', 'B'],
        1024 * 1024 * 1024 * 1024 <= size ==> shown_size(size) == decimal(size_tenths(size) / 10)
            + seq!['.'] + decimal(size_tenths(size) % 10) + seq![' ', 'T', 'i', 'B'],
{
    reveal_strlit(" ");
    reveal_strlit(".");
    reveal_strlit("B");
    reveal_strlit("KiB");
    reveal_strlit("MiB");
    reveal_strlit("GiB");
    reveal_strlit("TiB");
    let shown = shown_size(size);
    let whole = decimal(size_tenths(size) / 10);
    let tenth = decimal(size_tenths(size) % 10);
    if size < 1024 {
        assert(shown =~= decimal(size) + seq![' ', 'B']);
    } else if size < 1024 * 1024 {
        assert(shown =~= whole + seq!['.'] + tenth + seq![' ', 'K', 'i', 'B']);
    } else if size < 1024 * 1024 * 1024 {
        assert(shown =~= whole + seq!['.'] + tenth + seq![' ', 'M', 'i', 'B']);
    } else if size < 1024 * 1024 * 1024 * 1024 {
        assert(shown =~= whole + seq!['.'] + tenth + seq![' ', 'G', 'i', 'B']);
    } else {
        assert(shown =~= whole + seq!['.'] + tenth + seq![' ', 'T', 'i', 'B']);
    }
}

/// What is shown is within half a tenth of the size.
pub proof fn lemma_shown_sizes_are_close(size: nat)
    requires
        1024 <= size < 9_007_199_254_740_992,
    ensures
        2 * size_tenths(size) * unit_bytes(size_unit(size)) <= 20 * size + unit_bytes(
            size_unit(size),
        ),
        20 * size <= 2 * size_tenths(size) * unit_bytes(size_unit(size)) + unit_bytes(
            size_unit(size),
        ),
{
    lemma_ordinary_sizes_are_exact(size);
    let unit = unit_bytes(size_unit(size));
    let value = 10 * size;
    let whole = value / unit;
    let rest = value % unit;
    let tenths = rounded(value, unit);
    assert(value == unit * whole + rest) by (nonlinear_arith)
        requires
            unit > 0,
            whole == value / unit,
            rest == value % unit,
    ;
    assert(tenths * unit == unit * whole + (if tenths == whole {
        0
    } else {
        unit as int
    })) by (nonlinear_arith)
        requires
            tenths == whole || tenths == whole + 1,
    ;
    assert(2 * tenths * unit == 2 * (tenths * unit)) by (nonlinear_arith);
}

/// A batch is sent once it holds five hundred and twelve entries, and holds
/// every one of them; until then nothing is.
pub proof fn lemma_batches_are_bounded(
    stream: DirectoryStream,
    entry: FileEntry,
    step: StreamStep,
)
    requires
        stream.follows(DirectoryRead::Entry(entry), false, step),
    ensures
        step is Send <==> stream.batch@.len() + 1 == 512,
        step matches StreamStep::Send(DirectoryUpdate::Batch(batch), rest) ==> batch@.to_multiset()
            == stream.batch@.push(entry).to_multiset() && rest.batch@.len() == 0,
        step matches StreamStep::Read(rest) ==> rest.batch@ == stream.batch@.push(entry),
        !(step is Stopped),
{
}

/// An entry that cannot be read is counted and passed over; the first three
/// are described, none in more than two hundred and forty characters.
pub proof fn lemma_unreadable_entries_are_counted(
    stream: DirectoryStream,
    read: DirectoryRead,
    step: StreamStep,
)
    requires
        !(read is Entry),
        stream.follows(read, false, step),
        stream.skipped < usize::MAX,
        stream.examples@.len() <= 3,
    ensures
        step matches StreamStep::Read(rest) && rest.batch == stream.batch && rest.skipped
            == stream.skipped + 1 && rest.examples@.len() <= 3 && (stream.examples@.len() < 3 ==> (
        rest.examples@.len() == stream.examples@.len() + 1 && rest.examples@.last()@.len() <= 240
            && rest.examples@.drop_last() == stream.examples@)) && (stream.examples@.len() == 3
            ==> rest.examples@ == stream.examples@),
{
}

} // verus!
