//! Archives: what may go into one and come out of one.
//!
//! Extraction publishes only regular files and directories: link and special
//! entries are refused from the listing before anything is written, and again
//! from the staged tree in case the listing lied.

use vstd::prelude::*;
use vstd::utf8::*;

use crate::fsops::conflict::extension_start;
use crate::fsops::journal::{PathSnapshot, ReplacedItem};
use crate::fsops::mutations::{
    holds_byte, is_blank, name_refusal, validate_entry_os_name, working_name_prefix,
};
use crate::path::{
    copy_bytes, parent_directory, pieces, push_bytes, same_bytes, this_directory,
    PathBuf, PathModel, DOT, SLASH,
};
use crate::text::{
    ascii_lower, decimal, lossy, push_decimal, to_ascii_lower, trim_bytes, trimmed, utf8_lossy,
};

verus! {

pub const MAX_ARCHIVE_ENTRIES: usize = 100_000;

/// One hundred gibibytes.
pub const MAX_EXPANDED_BYTES: u64 = 107_374_182_400;

/// One entry of an archive's listing.
#[derive(Debug)]
pub struct ArchiveEntry {
    /// The path, spelled as the listing spells it.
    pub path: PathBuf,
    pub size: u64,
    pub is_dir: bool,
}

/// What creating or extracting an archive published.
#[derive(Debug)]
pub struct ArchiveOutcome {
    pub published: PathBuf,
    /// What publishing displaced, held aside so undo can put it back.
    pub replaced: Vec<ReplacedItem>,
    /// Present when the output was folded into a folder already at
    /// `published` rather than published as a new tree.
    pub merged: Option<MergeAdded>,
}

impl ArchiveOutcome {
    pub fn fresh(published: PathBuf) -> (outcome: ArchiveOutcome)
        ensures
            outcome.published == published,
            outcome.replaced@.len() == 0,
            outcome.merged is None,
    {
        ArchiveOutcome { published, replaced: Vec::new(), merged: None }
    }
}

/// What a merge added to the folder it joined, for undo to take back.
#[derive(Debug)]
pub struct MergeAdded {
    pub added: Vec<PathSnapshot>,
    /// `false` when the additions stand but could not be described, so undo
    /// is not offered for them.
    pub undoable: bool,
}

/// Extensions of the archives that are offered to be extracted. RAR is
/// separate: its decoder is unfree, and a build may leave it out.
#[verifier::opaque]
pub open spec fn supported_extensions() -> Seq<Seq<char>> {
    seq![
        "7z"@, "apk"@, "bz2"@, "bzip2"@, "cab"@, "cb7"@, "cbz"@, "cpio"@, "deb"@, "dmg"@, "gz"@,
        "gzip"@, "img"@, "iso"@, "jar"@, "lzma"@, "rpm"@, "squashfs"@, "tar"@, "tbz"@, "tbz2"@,
        "tgz"@, "txz"@, "vhd"@, "vhdx"@, "wim"@, "xar"@, "xz"@, "zip"@, "zst"@,
    ]
}

pub open spec fn rar_extensions() -> Seq<Seq<char>> {
    seq!["rar"@, "cbr"@]
}

pub open spec fn compound_tar_extensions() -> Seq<Seq<char>> {
    seq![
        ".tar.bz2"@, ".tar.gz"@, ".tar.xz"@, ".tar.zst"@, ".tbz"@, ".tbz2"@, ".tgz"@, ".txz"@,
    ]
}

/// The texts of a list.
pub open spec fn texts(words: Seq<&'static str>) -> Seq<Seq<char>> {
    words.map_values(|word: &'static str| word@)
}

fn supported_extension_list() -> (list: Vec<&'static str>)
    ensures
        texts(list@) == supported_extensions(),
{
    let list: Vec<&'static str> =
        vec![
        "7z", "apk", "bz2", "bzip2", "cab", "cb7", "cbz", "cpio", "deb", "dmg", "gz", "gzip", "img",
        "iso", "jar", "lzma", "rpm", "squashfs", "tar", "tbz", "tbz2", "tgz", "txz", "vhd", "vhdx",
        "wim", "xar", "xz", "zip", "zst",
    ];
    proof {
        reveal(supported_extensions);
    }
    assert(texts(list@) =~= supported_extensions());
    list
}

fn rar_extension_list() -> (list: Vec<&'static str>)
    ensures
        texts(list@) == rar_extensions(),
{
    let list: Vec<&'static str> = vec!["rar", "cbr"];
    assert(texts(list@) =~= rar_extensions());
    list
}

fn compound_tar_extension_list() -> (list: Vec<&'static str>)
    ensures
        texts(list@) == compound_tar_extensions(),
{
    let list: Vec<&'static str> =
        vec![".tar.bz2", ".tar.gz", ".tar.xz", ".tar.zst", ".tbz", ".tbz2", ".tgz", ".txz"];
    assert(texts(list@) =~= compound_tar_extensions());
    list
}

/// The last name of a path as text, in lower case.
pub open spec fn lower_name(path: PathModel) -> Seq<u8> {
    match path.file_name() {
        Some(name) => ascii_lower(encode_utf8(utf8_lossy(name))),
        None => Seq::empty(),
    }
}

pub fn lowercase_name(path: &PathBuf) -> (name: Vec<u8>)
    ensures
        name@ == lower_name(path@),
{
    match path.file_name() {
        Some(name) => {
            let text = lossy(name);
            to_ascii_lower(text.as_str().as_bytes())
        },
        None => Vec::new(),
    }
}

/// Whether a byte string ends with another.
pub open spec fn ends_with(bytes: Seq<u8>, suffix: Seq<u8>) -> bool {
    suffix.len() <= bytes.len() && bytes.skip(bytes.len() - suffix.len()) == suffix
}

fn has_suffix(bytes: &[u8], suffix: &[u8]) -> (yes: bool)
    ensures
        yes == ends_with(bytes@, suffix@),
{
    if suffix.len() > bytes.len() {
        return false;
    }
    let tail = vstd::slice::slice_subrange(bytes, bytes.len() - suffix.len(), bytes.len());
    assert(tail@ =~= bytes@.skip(bytes@.len() - suffix@.len()));
    same_bytes(tail, suffix)
}

/// Whether a name ends with one of a list of words, each with `before` before
/// it.
pub open spec fn ends_with_any(name: Seq<u8>, before: Seq<u8>, words: Seq<Seq<char>>) -> bool {
    exists|i: int| 0 <= i < words.len() && ends_with(name, before + encode_utf8(#[trigger] words[i]))
}

fn has_any_suffix(name: &[u8], before: &[u8], words: &Vec<&'static str>) -> (yes: bool)
    ensures
        yes == ends_with_any(name@, before@, texts(words@)),
{
    let mut i: usize = 0;
    let ghost all = texts(words@);
    while i < words.len()
        invariant
            i <= words@.len(),
            all == texts(words@),
            forall|k: int|
                0 <= k < i ==> !ends_with(name@, before@ + encode_utf8(#[trigger] all[k])),
        decreases words.len() - i,
    {
        let mut suffix = copy_bytes(before);
        push_bytes(&mut suffix, words[i].as_bytes());
        assert(all[i as int] == words@[i as int]@);
        assert(suffix@ =~= before@ + encode_utf8(all[i as int]));
        if has_suffix(name, suffix.as_slice()) {
            return true;
        }
        i += 1;
    }
    false
}

/// Whether a path names a compressed tar.
pub open spec fn names_compound_tar(path: PathModel) -> bool {
    ends_with_any(lower_name(path), Seq::empty(), compound_tar_extensions())
}

pub fn is_compound_tar_archive(path: &PathBuf) -> (yes: bool)
    ensures
        yes == names_compound_tar(path@),
{
    let name = lowercase_name(path);
    let nothing: Vec<u8> = Vec::new();
    assert(nothing@ =~= Seq::empty());
    has_any_suffix(name.as_slice(), nothing.as_slice(), &compound_tar_extension_list())
}

/// Whether a path names an archive that can be extracted.
pub open spec fn names_archive(path: PathModel, rar_supported: bool) -> bool {
    ends_with_any(lower_name(path), seq![DOT], supported_extensions()) || (rar_supported
        && ends_with_any(lower_name(path), seq![DOT], rar_extensions()))
}

pub fn is_supported_archive_with(path: &PathBuf, rar_supported: bool) -> (yes: bool)
    ensures
        yes == names_archive(path@, rar_supported),
{
    let name = lowercase_name(path);
    let dot: Vec<u8> = vec![DOT];
    assert(dot@ =~= seq![DOT]);
    has_any_suffix(name.as_slice(), dot.as_slice(), &supported_extension_list()) || (rar_supported
        && has_any_suffix(name.as_slice(), dot.as_slice(), &rar_extension_list()))
}

/// Whether a setting says yes.
pub open spec fn says_yes(setting: Option<Seq<u8>>) -> bool {
    match setting {
        Some(value) => {
            let word = ascii_lower(trimmed(value));
            word == encode_utf8("1"@) || word == encode_utf8("true"@) || word == encode_utf8("yes"@)
                || word == encode_utf8("on"@)
        },
        None => false,
    }
}

/// Whether RAR archives are offered, by the setting that says so.
pub fn rar_support_enabled(setting: Option<&str>) -> (yes: bool)
    ensures
        yes == says_yes(
            match setting {
                Some(value) => Some(encode_utf8(value@)),
                None => None,
            },
        ),
{
    match setting {
        Some(value) => {
            let word = to_ascii_lower(trim_bytes(value.as_bytes()));
            same_bytes(word.as_slice(), "1".as_bytes()) || same_bytes(
                word.as_slice(),
                "true".as_bytes(),
            ) || same_bytes(word.as_slice(), "yes".as_bytes()) || same_bytes(
                word.as_slice(),
                "on".as_bytes(),
            )
        },
        None => false,
    }
}

/// Whether a path names an archive that can be extracted, RAR among them if
/// the setting says so.
pub fn is_supported_archive(path: &PathBuf, rar_setting: Option<&str>) -> (yes: bool)
    ensures
        yes == names_archive(
            path@,
            says_yes(
                match rar_setting {
                    Some(value) => Some(encode_utf8(value@)),
                    None => None,
                },
            ),
        ),
{
    is_supported_archive_with(path, rar_support_enabled(rar_setting))
}

/// The name of a path without its extension.
pub open spec fn stem_of(name: Seq<u8>) -> Seq<u8> {
    name.take(extension_start(name, name.len() as int))
}

/// The extension of a name, without its dot.
pub open spec fn extension_of(name: Seq<u8>) -> Option<Seq<u8>> {
    let at = extension_start(name, name.len() as int);
    if at < name.len() {
        Some(name.skip(at + 1))
    } else {
        None
    }
}

/// The name a ZIP made of a selection gets.
pub open spec fn zip_name(sources: Seq<PathBuf>, single_is_directory: bool) -> Seq<char> {
    if sources.len() == 1 {
        utf8_lossy(
            match sources[0]@.file_name() {
                Some(name) => if single_is_directory {
                    name
                } else {
                    stem_of(name)
                },
                None => Seq::empty(),
            },
        ) + ".zip"@
    } else {
        "Archive.zip"@
    }
}

/// Where the extension of a name begins.
pub fn find_extension(name: &[u8]) -> (at: usize)
    ensures
        at as int == extension_start(name@, name@.len() as int),
        at <= name@.len(),
{
    let mut end: usize = name.len();
    while end > 1
        invariant
            end <= name@.len(),
            extension_start(name@, end as int) == extension_start(name@, name@.len() as int),
        decreases end,
    {
        if name[end - 1] == DOT {
            return end - 1;
        }
        end -= 1;
    }
    name.len()
}

pub fn default_zip_name(sources: &[PathBuf], single_is_directory: bool) -> (name: String)
    ensures
        name@ == zip_name(sources@, single_is_directory),
{
    if sources.len() != 1 {
        return "Archive.zip".to_owned();
    }
    let mut name = match sources[0].file_name() {
        Some(full) => if single_is_directory {
            lossy(full)
        } else {
            let at = find_extension(full);
            let stem = vstd::slice::slice_subrange(full, 0, at);
            assert(stem@ =~= stem_of(full@));
            lossy(stem)
        },
        None => {
            let nothing: Vec<u8> = Vec::new();
            assert(nothing@ =~= Seq::empty());
            lossy(nothing.as_slice())
        },
    };
    name.append(".zip");
    name
}

/// Whether a path has an extension, case aside.
pub open spec fn has_extension(path: PathModel, extension: Seq<char>) -> bool {
    path.file_name() matches Some(name) && (extension_of(name) matches Some(found) && ascii_lower(
        found,
    ) == encode_utf8(extension))
}

/// Whether a path has an extension, given in lower case, whatever its case in
/// the path.
pub fn extension_is(path: &PathBuf, extension: &str) -> (yes: bool)
    ensures
        yes == has_extension(path@, extension@),
{
    match path.file_name() {
        Some(name) => {
            let at = find_extension(name);
            if at >= name.len() {
                return false;
            }
            let found = vstd::slice::slice_subrange(name, at + 1, name.len());
            assert(found@ =~= name@.skip(at + 1));
            let lower = to_ascii_lower(found);
            same_bytes(lower.as_slice(), extension.as_bytes())
        },
        None => false,
    }
}

/// Where the last dot of a name is.
pub open spec fn last_dot(name: Seq<u8>) -> Option<int>
    decreases name.len(),
{
    if name.len() == 0 {
        None
    } else if name.last() == DOT {
        Some(name.len() - 1)
    } else {
        last_dot(name.drop_last())
    }
}

fn find_last_dot(name: &[u8], end: usize) -> (at: Option<usize>)
    requires
        end <= name@.len(),
    ensures
        match at {
            Some(at) => last_dot(name@.take(end as int)) == Some(at as int) && at < end
                && name@[at as int] == DOT,
            None => last_dot(name@.take(end as int)) is None,
        },
{
    let mut i: usize = end;
    while i > 0
        invariant
            i <= end <= name@.len(),
            last_dot(name@.take(i as int)) == last_dot(name@.take(end as int)),
        decreases i,
    {
        if name[i - 1] == DOT {
            return Some(i - 1);
        }
        assert(name@.take(i as int).drop_last() =~= name@.take(i - 1));
        i -= 1;
    }
    None
}

/// Whether an extension is one of an archive, whatever its case.
pub open spec fn known_extension(extension: Seq<u8>) -> bool {
    is_one_of(ascii_lower(extension), supported_extensions()) || is_one_of(
        ascii_lower(extension),
        rar_extensions(),
    )
}

/// Whether a word is one of a list.
pub open spec fn is_one_of(word: Seq<u8>, words: Seq<Seq<char>>) -> bool {
    exists|i: int| 0 <= i < words.len() && word == encode_utf8(#[trigger] words[i])
}

fn is_known_extension(extension: &[u8]) -> (yes: bool)
    ensures
        yes == known_extension(extension@),
{
    let lower = to_ascii_lower(extension);
    is_in_list(lower.as_slice(), &supported_extension_list()) || is_in_list(
        lower.as_slice(),
        &rar_extension_list(),
    )
}

fn is_in_list(word: &[u8], words: &Vec<&'static str>) -> (yes: bool)
    ensures
        yes == is_one_of(word@, texts(words@)),
{
    let mut i: usize = 0;
    let ghost all = texts(words@);
    while i < words.len()
        invariant
            i <= words@.len(),
            all == texts(words@),
            forall|k: int| 0 <= k < i ==> word@ != encode_utf8(#[trigger] all[k]),
        decreases words.len() - i,
    {
        assert(all[i as int] == words@[i as int]@);
        if same_bytes(word, words[i].as_bytes()) {
            return true;
        }
        i += 1;
    }
    false
}

/// A name with every archive extension peeled off.
pub open spec fn peeled(name: Seq<u8>) -> Seq<u8>
    decreases name.len(),
{
    match last_dot(name) {
        Some(at) => if 0 < at < name.len() && known_extension(name.skip(at + 1)) {
            peeled(name.take(at))
        } else {
            name
        },
        None => name,
    }
}

/// The name of the folder an archive is extracted into.
pub open spec fn stem_name(path: PathModel) -> Seq<char> {
    let peeled = peeled(
        match path.file_name() {
            Some(name) => encode_utf8(utf8_lossy(name)),
            None => Seq::empty(),
        },
    );
    if name_refusal(peeled) is Some {
        "Archive"@
    } else {
        utf8_lossy(peeled)
    }
}

/// The archive's name with every archive extension peeled off, so
/// `backup.tar.gz` extracts into `backup`.
///
/// The result becomes a folder the user did not name, so it has to clear the
/// bar a new folder does. `..zip` peels to `.`, `...zip` to `..`, and
/// `.marcel-copy-x.zip` to a name the browser would hide; each falls back to
/// `Archive` instead.
pub fn archive_stem(path: &PathBuf) -> (stem: String)
    ensures
        stem@ == stem_name(path@),
        name_refusal(encode_utf8(stem@)) is None,
{
    let full: Vec<u8> = match path.file_name() {
        Some(name) => {
            let text = lossy(name);
            copy_bytes(text.as_str().as_bytes())
        },
        None => Vec::new(),
    };
    let ghost whole = full@;
    let mut end: usize = full.len();
    assert(full@.take(end as int) =~= full@);
    proof {
        match path@.file_name() {
            Some(name) => encode_utf8_valid_utf8(utf8_lossy(name)),
            None => encode_utf8_valid_utf8(Seq::empty()),
        }
    }
    loop
        invariant_except_break
            peeled(full@.take(end as int)) == peeled(full@),
        invariant
            end <= full@.len(),
            valid_utf8(full@.take(end as int)),
        ensures
            full@.take(end as int) == peeled(full@),
        decreases end,
    {
        match find_last_dot(full.as_slice(), end) {
            Some(at) => {
                if at == 0 {
                    break;
                }
                let extension = vstd::slice::slice_subrange(full.as_slice(), at + 1, end);
                assert(extension@ =~= full@.take(end as int).skip(at + 1));
                if !is_known_extension(extension) {
                    break;
                }
                proof {
                    let now = full@.take(end as int);
                    assert(now.take(at as int) =~= full@.take(at as int));
                    assert(peeled(now) == peeled(now.take(at as int)));
                    assert(!is_continuation_byte(now[at as int]));
                    is_char_boundary_iff_not_is_continuation_byte(now, at as int);
                    valid_utf8_split(now, at as int);
                    assert(now.subrange(0, at as int) =~= full@.take(at as int));
                }
                end = at;
            },
            None => {
                break;
            },
        }
    }
    let kept = vstd::slice::slice_subrange(full.as_slice(), 0, end);
    assert(kept@ =~= peeled(full@));
    assert(full@ == match path@.file_name() {
        Some(name) => encode_utf8(utf8_lossy(name)),
        None => Seq::empty(),
    });
    match validate_entry_os_name(kept) {
        Ok(_) => {
            proof {
                decode_utf8_encode_utf8(kept@);
            }
            lossy(kept)
        },
        Err(_) => {
            proof {
                lemma_fallback_is_accepted();
            }
            "Archive".to_owned()
        },
    }
}

/// The fallback for a folder's name can be given to a folder.
proof fn lemma_fallback_is_accepted()
    ensures
        name_refusal(encode_utf8("Archive"@)) is None,
{
    reveal_strlit("Archive");
    is_ascii_chars_encode_utf8("Archive"@);
    let bytes = encode_utf8("Archive"@);
    assert(bytes =~= seq![65u8, 114, 99, 104, 105, 118, 101]);
    assert(!is_blank(bytes[0]));
    assert(bytes.len() == 7);
    assert(working_name_prefix()[0] == 46);
}

/// Running totals for a listing or a staged tree, refused past the limits.
#[derive(Clone, Copy, Debug, PartialEq, Eq, Structural)]
pub struct Budget {
    pub entries: usize,
    pub bytes: u64,
    /// How the archive is described in a refusal: what it "contains" and
    /// "expands" to by its listing, or what it "extracted".
    pub listed: bool,
}

impl Budget {
    /// The totals after one more entry, or why it is one too many.
    pub open spec fn after(self, bytes: u64) -> Result<Budget, Seq<char>> {
        let entries = if self.entries < usize::MAX {
            (self.entries + 1) as usize
        } else {
            self.entries
        };
        if self.bytes + bytes > u64::MAX {
            Err("Archive size overflowed"@)
        } else if entries > MAX_ARCHIVE_ENTRIES {
            Err(
                "Archive "@ + (if self.listed {
                    "contains"@
                } else {
                    "extracted"@
                }) + " more than "@ + decimal(MAX_ARCHIVE_ENTRIES as nat) + " entries"@,
            )
        } else if self.bytes + bytes > MAX_EXPANDED_BYTES {
            Err(
                "Archive "@ + (if self.listed {
                    "expands"@
                } else {
                    "extracted"@
                }) + " beyond Marcel's "@ + decimal(100) + " GiB safety limit"@,
            )
        } else {
            Ok(Budget { entries, bytes: (self.bytes + bytes) as u64, listed: self.listed })
        }
    }

    /// Totals of a listing.
    pub fn listing() -> (budget: Budget)
        ensures
            budget == (Budget { entries: 0, bytes: 0, listed: true }),
    {
        Budget { entries: 0, bytes: 0, listed: true }
    }

    /// Totals of a staged tree.
    pub fn staged() -> (budget: Budget)
        ensures
            budget == (Budget { entries: 0, bytes: 0, listed: false }),
    {
        Budget { entries: 0, bytes: 0, listed: false }
    }

    /// Counts one more entry.
    pub fn add(&mut self, bytes: u64) -> (verdict: Result<(), String>)
        ensures
            match verdict {
                Ok(_) => old(self).after(bytes) == Ok::<Budget, Seq<char>>(*final(self)),
                Err(message) => old(self).after(bytes) == Err::<Budget, Seq<char>>(message@),
            },
    {
        let before = *self;
        if self.entries < usize::MAX {
            self.entries = self.entries + 1;
        }
        match self.bytes.checked_add(bytes) {
            Some(total) => {
                self.bytes = total;
            },
            None => {
                return Err("Archive size overflowed".to_owned());
            },
        }
        if self.entries > MAX_ARCHIVE_ENTRIES {
            let mut message = "Archive ".to_owned();
            message.append(if self.listed { "contains" } else { "extracted" });
            message.append(" more than ");
            push_decimal(&mut message, MAX_ARCHIVE_ENTRIES as u64);
            message.append(" entries");
            return Err(message);
        }
        if self.bytes > MAX_EXPANDED_BYTES {
            let mut message = "Archive ".to_owned();
            message.append(if self.listed { "expands" } else { "extracted" });
            message.append(" beyond Marcel's ");
            push_decimal(&mut message, MAX_EXPANDED_BYTES / 1024 / 1024 / 1024);
            message.append(" GiB safety limit");
            return Err(message);
        }
        Ok(())
    }
}

/// An archive that passes the limits holds no more than they say.
pub proof fn lemma_budget_holds(budget: Budget, bytes: u64)
    requires
        budget.after(bytes) is Ok,
    ensures
        budget.after(bytes)->Ok_0.entries <= MAX_ARCHIVE_ENTRIES,
        budget.after(bytes)->Ok_0.bytes <= MAX_EXPANDED_BYTES,
        budget.after(bytes)->Ok_0.bytes == budget.bytes + bytes,
{
}

/// Whether a piece of a path cannot be published: it says nothing, or it says
/// this directory or the one above.
pub open spec fn unsafe_piece(piece: Seq<u8>) -> bool {
    piece.len() == 0 || piece == this_directory() || piece == parent_directory()
}

/// Whether a path in an archive could reach outside of where it is extracted,
/// or be read as something else than it says: nothing at all, a backslash, a
/// drive letter, an absolute path, an empty component, `.` or `..`.
pub open spec fn unsafe_path(value: Seq<u8>) -> bool {
    ||| value.len() == 0
    ||| value.contains(92)
    ||| exists|i: int| 0 <= i < pieces(value).len() && unsafe_piece(#[trigger] pieces(value)[i])
    ||| value.len() > 1 && value[1] == 58
}

/// `{before}“{value}”`
pub open spec fn about_value(before: Seq<char>, value: Seq<u8>) -> Seq<char> {
    before + "“"@ + utf8_lossy(value) + "”"@
}

pub fn value_message(before: &str, value: &[u8]) -> (message: String)
    ensures
        message@ == about_value(before@, value@),
{
    let mut message = before.to_owned();
    message.append("“");
    let shown = lossy(value);
    message.append(shown.as_str());
    message.append("”");
    message
}

fn is_unsafe_piece(piece: &[u8]) -> (yes: bool)
    ensures
        yes == unsafe_piece(piece@),
{
    if piece.len() == 0 {
        return true;
    }
    if piece.len() == 1 && piece[0] == DOT {
        assert(piece@ =~= this_directory());
        return true;
    }
    if piece.len() == 2 && piece[0] == DOT && piece[1] == DOT {
        assert(piece@ =~= parent_directory());
        return true;
    }
    false
}

/// Refuse a path in an archive that could reach outside.
pub fn validate_archive_path(value: &[u8]) -> (verdict: Result<(), String>)
    ensures
        match verdict {
            Ok(_) => !unsafe_path(value@),
            Err(message) => unsafe_path(value@) && message@ == about_value(
                "Archive contains unsafe path "@,
                value@,
            ),
        },
{
    if value.len() == 0 || holds_byte(value, 92) || (value.len() > 1 && value[1] == 58)
        || has_unsafe_piece(value) {
        return Err(value_message("Archive contains unsafe path ", value));
    }
    Ok(())
}

fn has_unsafe_piece(value: &[u8]) -> (yes: bool)
    ensures
        yes == exists|i: int|
            0 <= i < pieces(value@).len() && unsafe_piece(#[trigger] pieces(value@)[i]),
{
    let mut start: usize = 0;
    let mut i: usize = 0;
    assert(value@.take(0) =~= Seq::empty());
    assert(value@.subrange(0, 0) =~= Seq::empty());
    while i < value.len()
        invariant
            start <= i <= value@.len(),
            pieces(value@.take(i as int)).len() > 0,
            pieces(value@.take(i as int)).last() == value@.subrange(start as int, i as int),
            forall|k: int|
                0 <= k < pieces(value@.take(i as int)).len() - 1 ==> !unsafe_piece(
                    #[trigger] pieces(value@.take(i as int))[k],
                ),
        decreases value.len() - i,
    {
        let ghost before = pieces(value@.take(i as int));
        proof {
            assert(value@.take(i + 1).drop_last() =~= value@.take(i as int));
            assert(value@.take(i + 1).last() == value@[i as int]);
        }
        let ghost now = pieces(value@.take(i + 1));
        if value[i] == SLASH {
            let piece = vstd::slice::slice_subrange(value, start, i);
            assert(piece@ =~= before.last());
            if is_unsafe_piece(piece) {
                proof {
                    assert(now[before.len() - 1] == before.last());
                    lemma_pieces_stay(value@, i + 1, before.len() - 1);
                }
                return true;
            }
            proof {
                assert forall|k: int| 0 <= k < now.len() - 1 implies !unsafe_piece(
                    #[trigger] now[k],
                ) by {
                    assert(now[k] == before[k]);
                }
                assert(value@.subrange(i + 1, i + 1) =~= Seq::empty());
            }
            start = i + 1;
        } else {
            proof {
                assert(now.last() =~= value@.subrange(start as int, i + 1));
                assert forall|k: int| 0 <= k < now.len() - 1 implies !unsafe_piece(
                    #[trigger] now[k],
                ) by {
                    assert(now[k] == before[k]);
                }
            }
        }
        i += 1;
    }
    assert(value@.take(i as int) =~= value@);
    let piece = vstd::slice::slice_subrange(value, start, value.len());
    assert(piece@ =~= pieces(value@).last());
    let last = is_unsafe_piece(piece);
    proof {
        let all = pieces(value@);
        if last {
            assert(unsafe_piece(all[all.len() - 1]));
        }
    }
    last
}

/// A piece that another follows is a piece of the whole.
proof fn lemma_pieces_stay(value: Seq<u8>, end: int, k: int)
    requires
        0 <= end <= value.len(),
        0 <= k < pieces(value.take(end)).len() - 1,
    ensures
        pieces(value).len() >= pieces(value.take(end)).len(),
        pieces(value)[k] == pieces(value.take(end))[k],
    decreases value.len() - end,
{
    if end == value.len() {
        assert(value.take(end) =~= value);
    } else {
        assert(value.take(end + 1).drop_last() =~= value.take(end));
        let now = pieces(value.take(end + 1));
        let before = pieces(value.take(end));
        assert(now[k] == before[k]);
        lemma_pieces_stay(value, end + 1, k);
    }
}

/// Why a listing is refused before anything is extracted, if it is. A path is
/// judged as it is spelled.
pub open spec fn preflight(entries: Seq<ArchiveEntry>) -> Result<Budget, Seq<char>>
    decreases entries.len(),
{
    if entries.len() == 0 {
        Ok(Budget { entries: 0, bytes: 0, listed: true })
    } else {
        match preflight(entries.drop_last()) {
            Err(why) => Err(why),
            Ok(budget) => match budget.after(entries.last().size) {
                Err(why) => Err(why),
                Ok(after) => {
                    let path = encode_utf8(utf8_lossy(entries.last().path.text()));
                    if unsafe_path(path) {
                        Err(about_value("Archive contains unsafe path "@, path))
                    } else {
                        Ok(after)
                    }
                },
            },
        }
    }
}

/// A listing that fails early fails as a whole.
pub proof fn lemma_preflight_fails_early(entries: Seq<ArchiveEntry>, end: int)
    requires
        0 <= end <= entries.len(),
        preflight(entries.take(end)) is Err,
    ensures
        preflight(entries) == preflight(entries.take(end)),
    decreases entries.len() - end,
{
    if end == entries.len() {
        assert(entries.take(end) =~= entries);
    } else {
        assert(entries.take(end + 1).drop_last() =~= entries.take(end));
        lemma_preflight_fails_early(entries, end + 1);
    }
}

/// Refuse a listing before anything is extracted.
pub fn validate_preflight(entries: &Vec<ArchiveEntry>) -> (verdict: Result<(), String>)
    ensures
        match verdict {
            Ok(_) => entries@.len() > 0 && preflight(entries@) is Ok,
            Err(message) => if entries@.len() == 0 {
                message@ == "Archive contains no extractable entries"@
            } else {
                preflight(entries@) == Err::<Budget, Seq<char>>(message@)
            },
        },
{
    if entries.len() == 0 {
        return Err("Archive contains no extractable entries".to_owned());
    }
    let mut budget = Budget::listing();
    let mut i: usize = 0;
    assert(entries@.take(0) =~= Seq::empty());
    while i < entries.len()
        invariant
            i <= entries@.len(),
            entries@.len() > 0,
            preflight(entries@.take(i as int)) == Ok::<Budget, Seq<char>>(budget),
        decreases entries.len() - i,
    {
        proof {
            assert(entries@.take(i + 1).drop_last() =~= entries@.take(i as int));
            assert(entries@.take(i + 1).last() == entries@[i as int]);
            if preflight(entries@.take(i + 1)) is Err {
                lemma_preflight_fails_early(entries@, i + 1);
            }
        }
        match budget.add(entries[i].size) {
            Ok(_) => {},
            Err(message) => {
                return Err(message);
            },
        }
        let shown = entries[i].path.display();
        match validate_archive_path(shown.as_str().as_bytes()) {
            Ok(_) => {},
            Err(message) => {
                return Err(message);
            },
        }
        i += 1;
    }
    assert(entries@.take(i as int) =~= entries@);
    Ok(())
}

/// The entries of a safe listing lie inside the directory they are extracted
/// into.
pub proof fn lemma_safe_path_stays_inside(value: Seq<u8>)
    requires
        !unsafe_path(value),
    ensures
        value[0] != SLASH,
        forall|i: int|
            0 <= i < pieces(value).len() ==> #[trigger] pieces(value)[i] != parent_directory(),
{
    if value[0] == SLASH {
        assert(value.take(1).drop_last() =~= Seq::<u8>::empty());
        reveal_with_fuel(pieces, 2);
        let first = pieces(value.take(1));
        assert(first =~= seq![Seq::<u8>::empty(), Seq::<u8>::empty()]);
        lemma_pieces_stay(value, 1, 0);
        assert(unsafe_piece(pieces(value)[0]));
    }
}

} // verus!
