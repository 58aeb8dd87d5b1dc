//! What a browser shows of a directory: its entries, their order, and how
//! they come in.

use std::cmp::Ordering;

use vstd::multiset::Multiset;
use vstd::prelude::*;
use vstd::utf8::*;

use crate::fsops::identity::{Metadata, SnapshotKind};
use crate::fsops::local::{
    bytes_precede, lemma_bytes_antisymmetric, lemma_bytes_total, lemma_bytes_transitive, precedes,
};
use crate::order::{in_order, merge, merged, sort, sorted, Ranked};
use crate::path::{copy_bytes, PathBuf, PathModel};
use crate::text::{chars_of, decimal, lowercase, lowercased, push_decimal, strict};

verus! {

/// How many entries are sent at once.
pub const DIRECTORY_BATCH_SIZE: usize = 512;

/// How many unreadable entries are described.
pub const MAX_EXAMPLES: usize = 3;

/// How long such a description may be, in characters.
pub const MAX_DETAIL_CHARS: usize = 240;

#[derive(Clone, Copy, Debug, PartialEq, Eq, Structural)]
pub enum EntryKind {
    Directory,
    File,
    Symlink,
    Other,
}

/// One entry of a directory.
#[derive(Debug)]
pub struct FileEntry {
    pub path: PathBuf,
    /// The name as it is shown.
    pub name: String,
    /// The name as it is.
    pub name_os: Vec<u8>,
    /// The name as it is sorted by.
    pub folded_name: Vec<char>,
    pub kind: EntryKind,
    /// Whether it can be entered: a directory, or a link to one.
    pub navigable: bool,
    pub size: Option<u64>,
    pub icon_path: Option<PathBuf>,
}

/// The kind of an entry whose links are not followed.
pub open spec fn entry_kind(kind: SnapshotKind) -> EntryKind {
    match kind {
        SnapshotKind::Directory => EntryKind::Directory,
        SnapshotKind::File => EntryKind::File,
        SnapshotKind::Symlink => EntryKind::Symlink,
        _ => EntryKind::Other,
    }
}

fn kind_of_entry(kind: SnapshotKind) -> (entry: EntryKind)
    ensures
        entry == entry_kind(kind),
{
    match kind {
        SnapshotKind::Directory => EntryKind::Directory,
        SnapshotKind::File => EntryKind::File,
        SnapshotKind::Symlink => EntryKind::Symlink,
        _ => EntryKind::Other,
    }
}

/// What a byte is written as.
pub open spec fn hex_digit(digit: int) -> char {
    if digit < 10 {
        (48 + digit) as char
    } else {
        (87 + digit) as char
    }
}

/// Bytes written in hexadecimal, two digits each.
pub open spec fn hex(bytes: Seq<u8>) -> Seq<char>
    decreases bytes.len(),
{
    if bytes.len() == 0 {
        Seq::empty()
    } else {
        hex(bytes.drop_last()) + seq![
            hex_digit(bytes.last() as int / 16),
            hex_digit(bytes.last() as int % 16),
        ]
    }
}

/// Whether a text looks like the label of a name that is not text, or like
/// that of a name that does.
pub open spec fn looks_escaped(text: Seq<char>) -> bool {
    "⟦bytes:"@.is_prefix_of(text) || "⟦text:"@.is_prefix_of(text)
}

/// What a name is shown as: itself where it is text, its bytes where not, and
/// marked as text where it could be mistaken for a label.
pub open spec fn display_label(name: Seq<u8>) -> Seq<char> {
    if valid_utf8(name) {
        let text = decode_utf8(name);
        if looks_escaped(text) {
            "⟦text:"@ + text + "⟧"@
        } else {
            text
        }
    } else {
        "⟦bytes:"@ + hex(name) + "⟧"@
    }
}

/// Whether a text begins with another.
fn text_begins_with(text: &str, prefix: &str) -> (yes: bool)
    ensures
        yes == prefix@.is_prefix_of(text@),
{
    let length = prefix.unicode_len();
    if length > text.unicode_len() {
        return false;
    }
    let mut i: usize = 0;
    while i < length
        invariant
            i <= length,
            length == prefix@.len(),
            length <= text@.len(),
            forall|k: int| 0 <= k < i ==> #[trigger] prefix@[k] == text@[k],
        decreases length - i,
    {
        if prefix.get_char(i) != text.get_char(i) {
            return false;
        }
        i += 1;
    }
    assert(prefix@ =~= text@.subrange(0, prefix@.len() as int));
    true
}

fn push_hex(text: &mut String, digit: u8)
    requires
        digit < 16,
    ensures
        final(text)@ == old(text)@.push(hex_digit(digit as int)),
{
    if digit < 10 {
        text.push((48 + digit) as char);
    } else {
        text.push((87 + digit) as char);
    }
}

/// What a name is shown as.
pub fn display_filename(name: &[u8]) -> (label: String)
    ensures
        label@ == display_label(name@),
{
    match strict(name) {
        Some(text) => {
            if text_begins_with(text.as_str(), "⟦bytes:") || text_begins_with(
                text.as_str(),
                "⟦text:",
            ) {
                let mut label = "⟦text:".to_owned();
                label.append(text.as_str());
                label.append("⟧");
                return label;
            }
            text
        },
        None => {
            let mut label = "⟦bytes:".to_owned();
            let mut i: usize = 0;
            assert(name@.take(0) =~= Seq::empty());
            assert(label@ =~= "⟦bytes:"@ + hex(name@.take(0)));
            while i < name.len()
                invariant
                    i <= name@.len(),
                    label@ == "⟦bytes:"@ + hex(name@.take(i as int)),
                decreases name.len() - i,
            {
                let ghost before = label@;
                let byte = name[i];
                push_hex(&mut label, byte / 16);
                push_hex(&mut label, byte % 16);
                proof {
                    assert(name@.take(i + 1).drop_last() =~= name@.take(i as int));
                    assert(label@ =~= before + seq![
                        hex_digit(byte as int / 16),
                        hex_digit(byte as int % 16),
                    ]);
                    assert(label@ =~= "⟦bytes:"@ + hex(name@.take(i + 1)));
                }
                i += 1;
            }
            assert(name@.take(name@.len() as int) =~= name@);
            label.append("⟧");
            label
        },
    }
}

proof fn lemma_hex_digit_is_injective(left: int, right: int)
    requires
        0 <= left < 16,
        0 <= right < 16,
        hex_digit(left) == hex_digit(right),
    ensures
        left == right,
{
}

/// Different bytes are written differently.
pub proof fn lemma_hex_is_injective(left: Seq<u8>, right: Seq<u8>)
    requires
        hex(left) == hex(right),
    ensures
        left == right,
    decreases left.len(),
{
    lemma_hex_length(left);
    lemma_hex_length(right);
    if left.len() > 0 {
        let all = hex(left);
        let l = left.last() as int;
        let r = right.last() as int;
        assert(hex(left.drop_last()) =~= all.take(all.len() - 2));
        assert(hex(right.drop_last()) =~= all.take(all.len() - 2));
        lemma_hex_is_injective(left.drop_last(), right.drop_last());
        assert(all[all.len() - 2] == hex_digit(l / 16));
        assert(all[all.len() - 2] == hex_digit(r / 16));
        assert(all[all.len() - 1] == hex_digit(l % 16));
        assert(all[all.len() - 1] == hex_digit(r % 16));
        lemma_hex_digit_is_injective(l / 16, r / 16);
        lemma_hex_digit_is_injective(l % 16, r % 16);
        assert(left =~= left.drop_last().push(left.last()));
        assert(right =~= right.drop_last().push(right.last()));
    } else {
        assert(left =~= right);
    }
}

proof fn lemma_hex_length(bytes: Seq<u8>)
    ensures
        hex(bytes).len() == 2 * bytes.len(),
    decreases bytes.len(),
{
    if bytes.len() > 0 {
        lemma_hex_length(bytes.drop_last());
    }
}

/// Different names are shown differently: no name can pass itself off as
/// another, whether or not it is text.
pub proof fn lemma_labels_are_distinct(left: Seq<u8>, right: Seq<u8>)
    requires
        display_label(left) == display_label(right),
    ensures
        left == right,
{
    reveal_strlit("⟦bytes:");
    reveal_strlit("⟦text:");
    reveal_strlit("⟧");
    let shown = display_label(left);
    if valid_utf8(left) && valid_utf8(right) {
        decode_utf8_encode_utf8(left);
        decode_utf8_encode_utf8(right);
        let l = decode_utf8(left);
        let r = decode_utf8(right);
        if looks_escaped(l) && looks_escaped(r) {
            assert(l =~= shown.subrange(6, shown.len() - 1));
            assert(r =~= shown.subrange(6, shown.len() - 1));
        } else if looks_escaped(l) {
            assert("⟦text:"@.is_prefix_of(shown));
        } else if looks_escaped(r) {
            assert("⟦text:"@.is_prefix_of(shown));
        }
    } else if !valid_utf8(left) && !valid_utf8(right) {
        assert(hex(left) =~= shown.subrange(7, shown.len() - 1));
        assert(hex(right) =~= shown.subrange(7, shown.len() - 1));
        lemma_hex_is_injective(left, right);
    } else {
        assert("⟦bytes:"@.is_prefix_of(shown));
        let text = if valid_utf8(left) {
            decode_utf8(left)
        } else {
            decode_utf8(right)
        };
        if looks_escaped(text) {
            assert(shown[1] == "⟦text:"@[1]);
            assert(shown[1] == "⟦bytes:"@[1]);
        }
    }
}

impl FileEntry {
    /// Whether this is the entry of something, from what it is itself and what
    /// it leads to, if anything.
    pub open spec fn shows(
        self,
        path: PathBuf,
        name: Seq<u8>,
        kind: SnapshotKind,
        followed: Option<Metadata>,
        icon_path: Option<PathBuf>,
    ) -> bool {
        &&& self.path == path
        &&& self.name@ == display_label(name)
        &&& self.name_os@ == name
        &&& self.folded_name@ == lowercased(self.name@)
        &&& self.kind == entry_kind(kind)
        &&& self.navigable == (kind is Directory || (followed matches Some(metadata)
            && metadata.kind is Directory))
        &&& self.size == match followed {
            Some(metadata) if metadata.kind is File => Some(metadata.len),
            _ => None,
        }
        &&& self.icon_path == icon_path
    }

    /// An entry, from what it is itself and what it leads to, if anything.
    pub fn from_parts(
        path: PathBuf,
        name: Vec<u8>,
        kind: SnapshotKind,
        followed: Option<Metadata>,
        icon_path: Option<PathBuf>,
    ) -> (entry: FileEntry)
        ensures
            entry.shows(path, name@, kind, followed, icon_path),
            entry.name_os == name,
    {
        let label = display_filename(name.as_slice());
        let folded_name = folded(label.as_str());
        let leads_to_directory = match followed {
            Some(metadata) => metadata.kind == SnapshotKind::Directory,
            None => false,
        };
        let size = match followed {
            Some(metadata) => if metadata.kind == SnapshotKind::File {
                Some(metadata.len)
            } else {
                None
            },
            None => None,
        };
        FileEntry {
            path,
            name: label,
            name_os: name,
            folded_name,
            kind: kind_of_entry(kind),
            navigable: kind == SnapshotKind::Directory || leads_to_directory,
            size,
            icon_path,
        }
    }

    /// Whether `result` is the entry at a path.
    pub open spec fn is_at(
        path: PathBuf,
        metadata: Metadata,
        target: Option<Metadata>,
        icon_path: Option<PathBuf>,
        result: Result<FileEntry, String>,
    ) -> bool {
        match path@.file_name() {
            Some(name) => result matches Ok(entry) && entry.shows(
                path,
                name,
                metadata.kind,
                if metadata.kind is Symlink {
                    target
                } else {
                    Some(metadata)
                },
                icon_path,
            ),
            None => result matches Err(message) && message@ == "path has no file name"@,
        }
    }

    /// The entry at a path, given what is there and, for a link, what it leads
    /// to.
    pub fn from_path(
        path: &PathBuf,
        metadata: Metadata,
        target: Option<Metadata>,
        icon_path: Option<PathBuf>,
    ) -> (result: Result<FileEntry, String>)
        ensures
            FileEntry::is_at(*path, metadata, target, icon_path, result),
    {
        let followed = if metadata.kind == SnapshotKind::Symlink {
            target
        } else {
            Some(metadata)
        };
        match path.file_name() {
            Some(name) => Ok(
                FileEntry::from_parts(
                    path.clone(),
                    copy_bytes(name),
                    metadata.kind,
                    followed,
                    icon_path,
                ),
            ),
            None => Err("path has no file name".to_owned()),
        }
    }

    /// Gives the entry another name.
    pub fn set_name(&mut self, name: Vec<u8>)
        ensures
            final(self).name@ == display_label(name@),
            final(self).name_os == name,
            final(self).folded_name@ == lowercased(final(self).name@),
            final(self).path == old(self).path,
            final(self).kind == old(self).kind,
            final(self).navigable == old(self).navigable,
            final(self).size == old(self).size,
            final(self).icon_path == old(self).icon_path,
    {
        self.name = display_filename(name.as_slice());
        self.folded_name = folded(self.name.as_str());
        self.name_os = name;
    }

    /// What the kind of the entry is called.
    pub open spec fn kind_label(self) -> Seq<char> {
        match self.kind {
            EntryKind::Directory => "Folder"@,
            EntryKind::File => "File"@,
            EntryKind::Symlink => "Symbolic link"@,
            EntryKind::Other => "Special file"@,
        }
    }

    pub fn display_kind(&self) -> (label: &'static str)
        ensures
            label@ == self.kind_label(),
    {
        match self.kind {
            EntryKind::Directory => "Folder",
            EntryKind::File => "File",
            EntryKind::Symlink => "Symbolic link",
            EntryKind::Other => "Special file",
        }
    }

    pub fn icon(&self) -> (icon: &'static str)
        ensures
            icon@ == if self.navigable {
                "▸"@
            } else {
                "·"@
            },
    {
        if self.navigable {
            "▸"
        } else {
            "·"
        }
    }
}

/// The characters a name is sorted by.
fn folded(label: &str) -> (folded: Vec<char>)
    ensures
        folded@ == lowercased(label@),
{
    let lower = lowercase(label);
    chars_of(lower.as_str())
}

/// Whether one text comes before another, character by character, a prefix
/// first.
pub open spec fn chars_precede(left: Seq<char>, right: Seq<char>) -> bool
    decreases left.len(),
{
    left.len() == 0 || (right.len() > 0 && ((left[0] as u32) < right[0] as u32 || (left[0]
        == right[0] && chars_precede(left.drop_first(), right.drop_first()))))
}

proof fn lemma_chars_total(left: Seq<char>, right: Seq<char>)
    ensures
        chars_precede(left, right) || chars_precede(right, left),
    decreases left.len(),
{
    if left.len() > 0 && right.len() > 0 {
        char_u32_cast(left[0], left[0] as u32);
        char_u32_cast(right[0], right[0] as u32);
        if left[0] == right[0] {
            lemma_chars_total(left.drop_first(), right.drop_first());
        }
    }
}

proof fn lemma_chars_transitive(first: Seq<char>, middle: Seq<char>, last: Seq<char>)
    requires
        chars_precede(first, middle),
        chars_precede(middle, last),
    ensures
        chars_precede(first, last),
    decreases first.len(),
{
    if first.len() > 0 && first[0] == middle[0] && middle[0] == last[0] {
        lemma_chars_transitive(first.drop_first(), middle.drop_first(), last.drop_first());
    }
}

proof fn lemma_chars_antisymmetric(left: Seq<char>, right: Seq<char>)
    requires
        chars_precede(left, right),
        chars_precede(right, left),
    ensures
        left == right,
    decreases left.len(),
{
    if left.len() > 0 && right.len() > 0 {
        lemma_chars_antisymmetric(left.drop_first(), right.drop_first());
        assert(left =~= seq![left[0]] + left.drop_first());
        assert(right =~= seq![right[0]] + right.drop_first());
    } else {
        assert(left =~= right);
    }
}

fn chars_come_first(left: &Vec<char>, right: &Vec<char>) -> (yes: bool)
    ensures
        yes == chars_precede(left@, right@),
{
    let mut i: usize = 0;
    assert(left@.skip(0) =~= left@);
    assert(right@.skip(0) =~= right@);
    while i < left.len()
        invariant
            i <= left@.len(),
            i <= right@.len(),
            chars_precede(left@, right@) == chars_precede(
                left@.skip(i as int),
                right@.skip(i as int),
            ),
        decreases left.len() - i,
    {
        let ghost left_rest = left@.skip(i as int);
        let ghost right_rest = right@.skip(i as int);
        if i >= right.len() {
            return false;
        }
        assert(left_rest[0] == left@[i as int]);
        assert(right_rest[0] == right@[i as int]);
        if (left[i] as u32) < right[i] as u32 {
            return true;
        }
        if left[i] != right[i] {
            return false;
        }
        assert(left_rest.drop_first() =~= left@.skip(i + 1));
        assert(right_rest.drop_first() =~= right@.skip(i + 1));
        i += 1;
    }
    true
}

/// What can be entered first, then by name whatever its case, then by the
/// bytes of the name.
impl Ranked for FileEntry {
    open spec fn ranks(&self, other: &Self) -> bool {
        if self.navigable != other.navigable {
            self.navigable
        } else if self.folded_name@ != other.folded_name@ {
            chars_precede(self.folded_name@, other.folded_name@)
        } else {
            bytes_precede(self.name_os@, other.name_os@)
        }
    }

    proof fn ranks_total(&self, other: &Self) {
        lemma_chars_total(self.folded_name@, other.folded_name@);
        lemma_bytes_total(self.name_os@, other.name_os@);
    }

    proof fn ranks_transitive(&self, middle: &Self, last: &Self) {
        let (a, b, c) = (self.folded_name@, middle.folded_name@, last.folded_name@);
        if self.navigable == middle.navigable && middle.navigable == last.navigable {
            if a == b && b == c {
                lemma_bytes_transitive(self.name_os@, middle.name_os@, last.name_os@);
            } else if a != b && b != c {
                lemma_chars_transitive(a, b, c);
                if a == c {
                    lemma_chars_antisymmetric(a, b);
                }
            }
        }
    }

    fn may_precede(&self, other: &Self) -> (yes: bool) {
        if self.navigable != other.navigable {
            return self.navigable;
        }
        let forward = chars_come_first(&self.folded_name, &other.folded_name);
        let backward = chars_come_first(&other.folded_name, &self.folded_name);
        proof {
            lemma_chars_total(self.folded_name@, other.folded_name@);
            if forward && backward {
                lemma_chars_antisymmetric(self.folded_name@, other.folded_name@);
            }
        }
        if forward && backward {
            return precedes(self.name_os.as_slice(), other.name_os.as_slice());
        }
        forward
    }
}

/// Two entries share a place only where nothing they are sorted by differs.
pub proof fn lemma_places_are_distinct(left: FileEntry, right: FileEntry)
    requires
        left.ranks(&right),
        right.ranks(&left),
    ensures
        left.navigable == right.navigable,
        left.folded_name@ == right.folded_name@,
        left.name_os@ == right.name_os@,
{
    if left.folded_name@ != right.folded_name@ {
        lemma_chars_antisymmetric(left.folded_name@, right.folded_name@);
    }
    lemma_bytes_antisymmetric(left.name_os@, right.name_os@);
}

/// Which of two entries is shown first.
pub fn compare_entries(left: &FileEntry, right: &FileEntry) -> (order: Ordering)
    ensures
        order is Less <==> left.ranks(right) && !right.ranks(left),
        order is Equal <==> left.ranks(right) && right.ranks(left),
        order is Greater <==> !left.ranks(right) && right.ranks(left),
{
    proof {
        left.ranks_total(right);
    }
    if !right.may_precede(left) {
        Ordering::Less
    } else if left.may_precede(right) {
        Ordering::Equal
    } else {
        Ordering::Greater
    }
}

/// Puts entries in the order they are shown in.
pub fn sort_entries(entries: &mut Vec<FileEntry>)
    ensures
        final(entries)@ == sorted(old(entries)@),
        in_order(final(entries)@),
        final(entries)@.to_multiset() == old(entries)@.to_multiset(),
{
    let mut taken: Vec<FileEntry> = Vec::new();
    std::mem::swap(&mut taken, entries);
    *entries = sort(taken);
}

/// Merges two batches, each in the order its entries are shown in.
pub fn merge_sorted_entries(left: Vec<FileEntry>, right: Vec<FileEntry>) -> (all: Vec<FileEntry>)
    ensures
        all@ == merged(left@, right@),
{
    merge(left, right)
}

/// What a directory's reader is told.
#[derive(Debug)]
pub enum DirectoryUpdate {
    Batch(Vec<FileEntry>),
    Degraded { skipped: usize, examples: Vec<String> },
    Done,
    Error(String),
}

/// A directory that is to be opened.
#[derive(Debug)]
pub struct OpenDirectory {
    pub path: PathBuf,
}

/// A directory being read in bounded batches.
#[derive(Debug)]
pub struct DirectoryStream {
    pub path: PathBuf,
    pub batch: Vec<FileEntry>,
    /// How many entries could not be read.
    pub skipped: usize,
    /// What was wrong with the first of them.
    pub examples: Vec<String>,
}

/// What reading one more entry gave.
#[derive(Debug)]
pub enum DirectoryRead {
    Entry(FileEntry),
    /// The entry was named, but not what it is.
    Unknown(PathBuf, String),
    Failed(String),
}

/// What a directory being read wants next.
#[derive(Debug)]
pub enum StreamStep {
    Read(DirectoryStream),
    /// Send this, and go on with the rest only if it arrived.
    Send(DirectoryUpdate, DirectoryStream),
    /// Nobody wants the rest.
    Stopped,
}

/// Starts enumerating a directory in bounded batches.
pub fn stream_directory(path: &PathBuf) -> (opening: OpenDirectory)
    ensures
        opening.path == *path,
{
    OpenDirectory { path: path.clone() }
}

/// Starts enumerating a directory, unless nobody wants it any more.
pub fn stream_directory_cancellable(path: &PathBuf, cancelled: bool) -> (opening: Option<
    OpenDirectory,
>)
    ensures
        cancelled ==> opening is None,
        !cancelled ==> opening == Some(OpenDirectory { path: *path }),
{
    if cancelled {
        return None;
    }
    Some(stream_directory(path))
}

impl OpenDirectory {
    /// Whether the directory could be opened; what is told if not.
    pub fn opened(self, opened: Result<(), String>) -> (result: Result<
        DirectoryStream,
        DirectoryUpdate,
    >)
        ensures
            match opened {
                Ok(_) => result matches Ok(stream) && stream.path == self.path
                    && stream.batch@.len() == 0 && stream.skipped == 0 && stream.examples@.len()
                    == 0,
                Err(why) => result == Err::<DirectoryStream, DirectoryUpdate>(
                    DirectoryUpdate::Error(why),
                ),
            },
    {
        match opened {
            Ok(_) => Ok(
                DirectoryStream {
                    path: self.path,
                    batch: Vec::new(),
                    skipped: 0,
                    examples: Vec::new(),
                },
            ),
            Err(why) => Err(DirectoryUpdate::Error(why)),
        }
    }
}

/// The beginning of a text.
pub open spec fn shortened(text: Seq<char>, limit: nat) -> Seq<char> {
    if text.len() <= limit {
        text
    } else {
        text.take(limit as int)
    }
}

/// What is said of an entry that could not be read.
pub open spec fn degraded_detail(path: Option<PathModel>, error: Seq<char>) -> Seq<char> {
    let detail = match path {
        Some(path) => match path.file_name() {
            Some(name) => display_label(name) + ": "@ + error,
            None => error,
        },
        None => error,
    };
    shortened(detail, MAX_DETAIL_CHARS as nat)
}

/// What is known of unreadable entries after one more.
pub open spec fn more_examples(
    before: Seq<String>,
    after: Seq<String>,
    path: Option<PathModel>,
    error: Seq<char>,
) -> bool {
    if before.len() == MAX_EXAMPLES {
        after == before
    } else {
        after.len() == before.len() + 1 && after.drop_last() == before && after.last()@
            == degraded_detail(path, error)
    }
}

/// One more than a count, which stops at the largest number there is.
pub open spec fn one_more(count: usize) -> usize {
    if count < usize::MAX {
        (count + 1) as usize
    } else {
        count
    }
}

/// Counts an entry that could not be read, and describes the first few.
pub fn record_degraded_entry(
    skipped: &mut usize,
    examples: &mut Vec<String>,
    path: Option<&PathBuf>,
    error: &str,
)
    ensures
        *final(skipped) == one_more(*old(skipped)),
        more_examples(
            old(examples)@,
            final(examples)@,
            match path {
                Some(path) => Some(path@),
                None => None,
            },
            error@,
        ),
{
    if *skipped < usize::MAX {
        *skipped = *skipped + 1;
    }
    if examples.len() == MAX_EXAMPLES {
        return;
    }
    let name = match path {
        Some(path) => path.file_name(),
        None => None,
    };
    let detail = match name {
        Some(name) => {
            let mut detail = display_filename(name);
            detail.append(": ");
            detail.append(error);
            detail
        },
        None => error.to_owned(),
    };
    let ghost before = examples@;
    if detail.as_str().unicode_len() > MAX_DETAIL_CHARS {
        let kept = detail.as_str().substring_char(0, MAX_DETAIL_CHARS).to_owned();
        assert(kept@ =~= detail@.take(MAX_DETAIL_CHARS as int));
        examples.push(kept);
    } else {
        examples.push(detail);
    }
    assert(examples@.drop_last() =~= before);
}

impl DirectoryStream {
    /// What follows from reading one more entry.
    pub open spec fn follows(
        self,
        entry: DirectoryRead,
        cancelled: bool,
        step: StreamStep,
    ) -> bool {
        if cancelled {
            step is Stopped
        } else {
            match entry {
                DirectoryRead::Entry(entry) => if self.batch@.len() + 1
                    == DIRECTORY_BATCH_SIZE {
                    &&& step matches StreamStep::Send(DirectoryUpdate::Batch(batch), stream)
                    &&& batch@ == sorted(self.batch@.push(entry))
                    &&& in_order(batch@)
                    &&& batch@.to_multiset() == self.batch@.push(entry).to_multiset()
                    &&& stream.path == self.path
                    &&& stream.batch@.len() == 0
                    &&& stream.skipped == self.skipped
                    &&& stream.examples == self.examples
                } else {
                    &&& step matches StreamStep::Read(stream)
                    &&& stream.path == self.path
                    &&& stream.batch@ == self.batch@.push(entry)
                    &&& stream.skipped == self.skipped
                    &&& stream.examples == self.examples
                },
                DirectoryRead::Unknown(path, error) => degraded(
                    self,
                    step,
                    Some(path@),
                    error@,
                ),
                DirectoryRead::Failed(error) => degraded(self, step, None, error@),
            }
        }
    }

    /// What reading one more entry gave, unless nobody wants it any more.
    pub fn read(self, entry: DirectoryRead, cancelled: bool) -> (step: StreamStep)
        ensures
            self.follows(entry, cancelled, step),
    {
        if cancelled {
            return StreamStep::Stopped;
        }
        let DirectoryStream { path, batch, skipped, examples } = self;
        let mut batch = batch;
        let mut skipped = skipped;
        let mut examples = examples;
        match entry {
            DirectoryRead::Entry(entry) => {
                batch.push(entry);
                if batch.len() == DIRECTORY_BATCH_SIZE {
                    let batch = sort(batch);
                    return StreamStep::Send(
                        DirectoryUpdate::Batch(batch),
                        DirectoryStream { path, batch: Vec::new(), skipped, examples },
                    );
                }
            },
            DirectoryRead::Unknown(unknown, error) => {
                record_degraded_entry(
                    &mut skipped,
                    &mut examples,
                    Some(&unknown),
                    error.as_str(),
                );
            },
            DirectoryRead::Failed(error) => {
                record_degraded_entry(&mut skipped, &mut examples, None, error.as_str());
            },
        }
        StreamStep::Read(DirectoryStream { path, batch, skipped, examples })
    }

    /// Whether these are the updates at the end.
    pub open spec fn ends_with(self, updates: Seq<DirectoryUpdate>) -> bool {
        let batches: int = if self.batch@.len() > 0 {
            1
        } else {
            0
        };
        let notes: int = if self.skipped > 0 {
            1
        } else {
            0
        };
        &&& updates.len() == batches + notes + 1
        &&& batches == 1 ==> {
            &&& updates[0] matches DirectoryUpdate::Batch(batch)
            &&& batch@ == sorted(self.batch@)
            &&& in_order(batch@)
            &&& batch@.to_multiset() == self.batch@.to_multiset()
        }
        &&& notes == 1 ==> updates[batches] == (DirectoryUpdate::Degraded {
            skipped: self.skipped,
            examples: self.examples,
        })
        &&& updates[batches + notes] is Done
    }

    /// What is sent at the end, each only if what came before it arrived.
    pub fn finished(self) -> (updates: Vec<DirectoryUpdate>)
        ensures
            self.ends_with(updates@),
    {
        let mut updates: Vec<DirectoryUpdate> = Vec::new();
        let DirectoryStream { path: _, batch, skipped, examples } = self;
        if batch.len() > 0 {
            updates.push(DirectoryUpdate::Batch(sort(batch)));
        }
        if skipped > 0 {
            updates.push(DirectoryUpdate::Degraded { skipped, examples });
        }
        updates.push(DirectoryUpdate::Done);
        updates
    }
}

/// Whether the next step is to read on, with one more unreadable entry noted.
pub open spec fn degraded(
    before: DirectoryStream,
    step: StreamStep,
    path: Option<PathModel>,
    error: Seq<char>,
) -> bool {
    &&& step matches StreamStep::Read(after)
    &&& after.path == before.path
    &&& after.batch == before.batch
    &&& after.skipped == one_more(before.skipped)
    &&& more_examples(before.examples@, after.examples@, path, error)
}

/// The entries among what was read.
pub open spec fn entries_read(reads: Seq<DirectoryRead>) -> Seq<FileEntry>
    decreases reads.len(),
{
    if reads.len() == 0 {
        Seq::empty()
    } else {
        match reads.last() {
            DirectoryRead::Entry(entry) => entries_read(reads.drop_last()).push(entry),
            _ => entries_read(reads.drop_last()),
        }
    }
}

/// How many reads gave no entry.
pub open spec fn unread(reads: Seq<DirectoryRead>) -> nat {
    (reads.len() - entries_read(reads).len()) as nat
}

/// A count, which stops at the largest number there is.
pub open spec fn capped(count: nat) -> usize {
    if count < usize::MAX {
        count as usize
    } else {
        usize::MAX
    }
}

/// How many of so many unreadable entries are described.
pub open spec fn described(count: nat) -> nat {
    if count < MAX_EXAMPLES {
        count
    } else {
        MAX_EXAMPLES as nat
    }
}

/// Everything in some batches, one after another.
pub open spec fn all_sent(batches: Seq<Option<Vec<FileEntry>>>) -> Seq<FileEntry>
    decreases batches.len(),
{
    if batches.len() == 0 {
        Seq::empty()
    } else {
        match batches.last() {
            Some(batch) => all_sent(batches.drop_last()) + batch@,
            None => all_sent(batches.drop_last()),
        }
    }
}

/// Whether a stream went on from one state to the next: it read an entry, and
/// sent a batch if one was full.
pub open spec fn streams_on(
    stream: Seq<DirectoryStream>,
    reads: Seq<DirectoryRead>,
    batches: Seq<Option<Vec<FileEntry>>>,
    at: int,
) -> bool {
    stream[at].follows(
        reads[at],
        false,
        match batches[at] {
            Some(batch) => StreamStep::Send(DirectoryUpdate::Batch(batch), stream[at + 1]),
            None => StreamStep::Read(stream[at + 1]),
        },
    )
}

/// Whether a stream went through these states from the beginning, while this
/// was read and these batches were sent.
pub open spec fn streamed(
    stream: Seq<DirectoryStream>,
    reads: Seq<DirectoryRead>,
    batches: Seq<Option<Vec<FileEntry>>>,
) -> bool {
    &&& stream.len() == reads.len() + 1
    &&& batches.len() == reads.len()
    &&& stream[0].batch@.len() == 0
    &&& stream[0].skipped == 0
    &&& stream[0].examples@.len() == 0
    &&& forall|i: int| 0 <= i < reads.len() ==> #[trigger] streams_on(stream, reads, batches, i)
}

proof fn lemma_stream_so_far(
    stream: Seq<DirectoryStream>,
    reads: Seq<DirectoryRead>,
    batches: Seq<Option<Vec<FileEntry>>>,
    at: int,
)
    requires
        streamed(stream, reads, batches),
        0 <= at <= reads.len(),
    ensures
        all_sent(batches.take(at)).to_multiset().add(stream[at].batch@.to_multiset())
            =~= entries_read(reads.take(at)).to_multiset(),
        entries_read(reads.take(at)).len() <= at,
        stream[at].skipped == capped(unread(reads.take(at))),
        stream[at].examples@.len() == described(unread(reads.take(at))),
        forall|i: int|
            0 <= i < at ==> (#[trigger] batches[i] matches Some(batch) ==> in_order(batch@)
                && batch@.len() == DIRECTORY_BATCH_SIZE),
    decreases at,
{
    broadcast use vstd::seq_lib::group_to_multiset_ensures;

    if at == 0 {
        assert(batches.take(0) =~= Seq::empty());
        assert(reads.take(0) =~= Seq::empty());
        assert(stream[0].batch@ =~= Seq::empty());
    } else {
        lemma_stream_so_far(stream, reads, batches, at - 1);
        assert(streams_on(stream, reads, batches, at - 1));
        assert(reads.take(at).drop_last() =~= reads.take(at - 1));
        assert(batches.take(at).drop_last() =~= batches.take(at - 1));
        let before = stream[at - 1];
        let sent = all_sent(batches.take(at - 1));
        let known = entries_read(reads.take(at - 1));
        match reads[at - 1] {
            DirectoryRead::Entry(entry) => {
                match batches[at - 1] {
                    Some(batch) => {
                        vstd::seq_lib::lemma_multiset_commutative(sent, batch@);
                        assert(stream[at].batch@ =~= Seq::empty());
                        assert(batch@.len() == batch@.to_multiset().len());
                    },
                    None => {},
                }
            },
            _ => {},
        }
    }
}

/// A directory that is read to its end is sent whole: all batches together
/// hold every entry that was read, once each, every batch is in order, and the
/// count of what was skipped is that of the reads that gave none, the first few
/// of which are described.
pub proof fn lemma_stream_sends_everything_once(
    stream: Seq<DirectoryStream>,
    reads: Seq<DirectoryRead>,
    batches: Seq<Option<Vec<FileEntry>>>,
    updates: Seq<DirectoryUpdate>,
)
    requires
        streamed(stream, reads, batches),
        stream.last().ends_with(updates),
    ensures
        all_sent(batches).to_multiset().add(
            match updates[0] {
                DirectoryUpdate::Batch(batch) => batch@.to_multiset(),
                _ => Multiset::empty(),
            },
        ) == entries_read(reads).to_multiset(),
        forall|i: int|
            0 <= i < batches.len() ==> (#[trigger] batches[i] matches Some(batch) ==> in_order(
                batch@,
            )),
        updates[0] matches DirectoryUpdate::Batch(batch) ==> in_order(batch@),
        if unread(reads) == 0 {
            forall|i: int| 0 <= i < updates.len() ==> !(#[trigger] updates[i] is Degraded)
        } else {
            updates[updates.len() - 2] matches DirectoryUpdate::Degraded { skipped, examples }
                && skipped == capped(unread(reads)) && examples@.len() == described(unread(reads))
        },
        updates.last() is Done,
{
    broadcast use vstd::seq_lib::group_to_multiset_ensures;

    let end = reads.len() as int;
    lemma_stream_so_far(stream, reads, batches, end);
    assert(reads.take(end) =~= reads);
    assert(batches.take(end) =~= batches);
    if stream.last().batch@.len() == 0 {
        assert(stream.last().batch@ =~= Seq::empty());
    }
}

/// A quotient rounded to the nearest whole number, to the even one on a tie.
pub open spec fn rounded(value: nat, divisor: nat) -> nat {
    let whole = value / divisor;
    let rest = value % divisor;
    if 2 * rest > divisor || (2 * rest == divisor && whole % 2 == 1) {
        whole + 1
    } else {
        whole
    }
}

/// How far apart the numbers near `n` are that have at most 53 binary digits
/// before their trailing zeros.
pub open spec fn spacing(n: nat) -> nat
    decreases n,
{
    if n < 9_007_199_254_740_992 {
        1
    } else {
        2 * spacing(n / 2)
    }
}

/// The number of 53 binary digits nearest to `n`, the even one on a tie.
pub open spec fn in_double_precision(n: nat) -> nat {
    rounded(n, spacing(n)) * spacing(n)
}

/// The unit a size is given in: how many times 1024 bytes.
pub open spec fn size_unit(size: nat) -> int {
    if size < 1024 {
        0
    } else if size < 1_048_576 {
        1
    } else if size < 1_073_741_824 {
        2
    } else if size < 1_099_511_627_776 {
        3
    } else {
        4
    }
}

/// The bytes in a unit.
pub open spec fn unit_bytes(unit: int) -> nat {
    if unit == 1 {
        1024
    } else if unit == 2 {
        1_048_576
    } else if unit == 3 {
        1_073_741_824
    } else {
        1_099_511_627_776
    }
}

pub open spec fn unit_name(unit: int) -> Seq<char> {
    if unit == 0 {
        "B"@
    } else if unit == 1 {
        "KiB"@
    } else if unit == 2 {
        "MiB"@
    } else if unit == 3 {
        "GiB"@
    } else {
        "TiB"@
    }
}

/// A size in tenths of its unit.
pub open spec fn size_tenths(size: nat) -> nat {
    rounded(10 * in_double_precision(size), unit_bytes(size_unit(size)))
}

/// A size as it is shown: whole bytes, or a unit with one decimal. The size is
/// taken in double precision first, which only tells for sizes of thousands of
/// tebibytes.
pub open spec fn shown_size(size: nat) -> Seq<char> {
    let unit = size_unit(size);
    if unit == 0 {
        decimal(size) + " "@ + unit_name(unit)
    } else {
        decimal(size_tenths(size) / 10) + "."@ + decimal(size_tenths(size) % 10) + " "@ + unit_name(
            unit,
        )
    }
}

fn round_quotient(value: u128, divisor: u128) -> (quotient: u128)
    requires
        0 < divisor <= 0x1_0000_0000_0000_0000,
        value < 0x1_0000_0000_0000_0000_0000,
    ensures
        quotient == rounded(value as nat, divisor as nat),
{
    let whole: u128 = value / divisor;
    let rest: u128 = value % divisor;
    proof {
        assert(whole <= value) by (nonlinear_arith)
            requires
                whole == value / divisor,
                divisor > 0,
        ;
    }
    if 2 * rest > divisor || (2 * rest == divisor && whole % 2 == 1) {
        whole + 1
    } else {
        whole
    }
}

fn digit_spacing(n: u64) -> (step: u64)
    ensures
        step == spacing(n as nat),
        step >= 1,
        n >= 9_007_199_254_740_992 ==> step * 4_503_599_627_370_496 <= n,
        n < 9_007_199_254_740_992 ==> step == 1,
    decreases n,
{
    if n < 9_007_199_254_740_992 {
        1
    } else {
        2 * digit_spacing(n / 2)
    }
}

/// A size as it is shown, or nothing where there is none.
pub fn format_size(size: Option<u64>) -> (text: String)
    ensures
        text@ == match size {
            None => ""@,
            Some(size) => shown_size(size as nat),
        },
{
    let size = match size {
        Some(size) => size,
        None => {
            return "".to_owned();
        },
    };
    let mut text = "".to_owned();
    proof {
        reveal_strlit("");
    }
    if size < 1024 {
        push_decimal(&mut text, size);
        text.append(" ");
        text.append("B");
        assert(text@ =~= shown_size(size as nat));
        return text;
    }
    let step: u128 = digit_spacing(size) as u128;
    let digits: u128 = round_quotient(size as u128, step);
    proof {
        lemma_double_is_close(size as nat);
    }
    let value: u128 = digits * step;
    let (unit, name): (u128, &'static str) = if size < 1_048_576 {
        (1024, "KiB")
    } else if size < 1_073_741_824 {
        (1_048_576, "MiB")
    } else if size < 1_099_511_627_776 {
        (1_073_741_824, "GiB")
    } else {
        (1_099_511_627_776, "TiB")
    };
    let tenths: u128 = round_quotient(10 * value, unit);
    assert(tenths == size_tenths(size as nat));
    proof {
        lemma_rounded_is_close(10 * value as nat, unit as nat);
    }
    push_decimal(&mut text, (tenths / 10) as u64);
    text.append(".");
    push_decimal(&mut text, (tenths % 10) as u64);
    text.append(" ");
    text.append(name);
    assert(text@ =~= shown_size(size as nat));
    text
}

/// Rounding moves a quotient by at most one.
proof fn lemma_rounded_is_close(value: nat, divisor: nat)
    requires
        divisor > 0,
    ensures
        rounded(value, divisor) <= value / divisor + 1,
        rounded(value, divisor) >= value / divisor,
{
}

/// A size in double precision is within one step of the size.
proof fn lemma_double_is_close(n: nat)
    requires
        spacing(n) >= 1,
        spacing(n) <= n,
    ensures
        in_double_precision(n) <= 2 * n,
        in_double_precision(n) == rounded(n, spacing(n)) * spacing(n),
{
    let step = spacing(n);
    let whole = n / step;
    lemma_rounded_is_close(n, step);
    assert(whole * step <= n) by (nonlinear_arith)
        requires
            whole == n / step,
            step >= 1,
    ;
    let r = rounded(n, step);
    assert(r * step <= whole * step + step) by (nonlinear_arith)
        requires
            r <= whole + 1,
            step >= 1,
    ;
}

/// A size that has 53 binary digits at most is exact in double precision.
pub proof fn lemma_ordinary_sizes_are_exact(size: nat)
    requires
        size < 9_007_199_254_740_992,
    ensures
        in_double_precision(size) == size,
{
    let step = spacing(size);
    assert(step == 1);
    assert(rounded(size, 1) == size);
    assert(rounded(size, step) * step == size) by (nonlinear_arith)
        requires
            step == 1,
            rounded(size, step) == size,
    ;
}

} // verus!
