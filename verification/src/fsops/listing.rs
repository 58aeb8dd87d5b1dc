//! Reading the listing of an archive.
//!
//! A listing is made of blocks with an empty line between them, one for each
//! entry, and a block of lines `key = value`.

use vstd::prelude::*;
use vstd::utf8::encode_utf8;

use crate::fsops::archive::{
    about_value, unsafe_path, unsafe_piece, validate_archive_path, value_message, ArchiveEntry,
    Budget, MAX_ARCHIVE_ENTRIES, MAX_EXPANDED_BYTES,
};
use crate::fsops::mutations::holds_byte;
use crate::path::{
    copy_bytes, parent_directory, pieces, same_bytes, this_directory, PathBuf,
};
use crate::text::{
    decimal_bytes, find_bytes, find_last_word, first_of, last_word, lemma_ascii_text,
    lemma_first_of, lemma_last_word_is_last, lemma_parse_reverses_decimal, parse_number,
    parsed_number,
};

verus! {

/// What stands between two blocks.
pub open spec fn gap() -> Seq<u8> {
    seq![10u8, 10]
}

/// The blocks of a listing.
pub open spec fn blocks_of(text: Seq<u8>) -> Seq<Seq<u8>>
    decreases text.len(),
{
    match first_of(text, gap()) {
        Some(at) => if 0 <= at && at + 2 <= text.len() {
            seq![text.take(at)] + blocks_of(text.skip(at + 2))
        } else {
            seq![text]
        },
        None => seq![text],
    }
}

/// A line without the carriage return before its end.
pub open spec fn without_return(line: Seq<u8>) -> Seq<u8> {
    if line.len() > 0 && line.last() == 13 {
        line.drop_last()
    } else {
        line
    }
}

/// The lines of a block. What follows the last line feed is a line unless it
/// is empty, and keeps a carriage return at its end.
pub open spec fn lines_of(block: Seq<u8>) -> Seq<Seq<u8>>
    decreases block.len(),
{
    if block.len() == 0 {
        Seq::empty()
    } else {
        match first_of(block, seq![10u8]) {
            Some(at) => if 0 <= at && at + 1 <= block.len() {
                seq![without_return(block.take(at))] + lines_of(block.skip(at + 1))
            } else {
                seq![block]
            },
            None => seq![block],
        }
    }
}

/// What a block says so far.
#[verifier::ext_equal]
pub struct Fields {
    pub path: Option<Seq<u8>>,
    pub size: Option<u64>,
    pub is_dir: bool,
    pub is_link: bool,
    pub special: Option<u8>,
    pub is_encrypted: bool,
}

/// What a block says before its first line.
pub open spec fn no_fields() -> Fields {
    Fields {
        path: None,
        size: None,
        is_dir: false,
        is_link: false,
        special: None,
        is_encrypted: false,
    }
}

/// The type letter of a mode, as `ls -l` prints it, that a value ends in. Only
/// the last word matters, and only when it has a mode's ten characters, so
/// that flags alone are no mode.
pub open spec fn type_letter(value: Seq<u8>) -> Option<u8> {
    let mode = last_word(value);
    if mode.len() == 10 {
        Some(mode[0])
    } else {
        None
    }
}

pub fn posix_file_type(value: &[u8]) -> (letter: Option<u8>)
    ensures
        letter == type_letter(value@),
{
    let mode = find_last_word(value);
    if mode.len() == 10 {
        Some(mode[0])
    } else {
        None
    }
}

/// What a type letter calls the entry, for a refusal.
pub open spec fn called_type(letter: u8) -> Seq<char> {
    if letter == 108 {
        "symbolic link"@
    } else if letter == 112 {
        "named pipe"@
    } else if letter == 99 {
        "character device"@
    } else if letter == 98 {
        "block device"@
    } else if letter == 115 {
        "socket"@
    } else {
        "special"@
    }
}

pub fn describe_file_type(letter: u8) -> (name: &'static str)
    ensures
        name@ == called_type(letter),
{
    if letter == 108 {
        "symbolic link"
    } else if letter == 112 {
        "named pipe"
    } else if letter == 99 {
        "character device"
    } else if letter == 98 {
        "block device"
    } else if letter == 115 {
        "socket"
    } else {
        "special"
    }
}

/// What a block says after a line about attributes: flags, then for entries
/// made on Unix the mode. `D` is the flag of a folder and `L` that of a link;
/// the mode's type letter is what says so on Unix.
pub open spec fn with_attributes(fields: Fields, value: Seq<u8>) -> Fields {
    let letter = type_letter(value);
    Fields {
        is_dir: fields.is_dir || (value.len() > 0 && value[0] == 68) || letter == Some(100u8),
        is_link: fields.is_link || value.contains(76),
        special: if letter is Some && letter != Some(45u8) && letter != Some(100u8) {
            letter
        } else {
            fields.special
        },
        ..fields
    }
}

/// What a block says after one more line, or why it cannot be read.
pub open spec fn with_line(fields: Fields, line: Seq<u8>) -> Result<Fields, Seq<char>> {
    match first_of(line, encode_utf8(" = "@)) {
        None => Ok(fields),
        Some(at) => {
            let key = line.take(at);
            let value = line.skip(at + encode_utf8(" = "@).len());
            if key == encode_utf8("Path"@) {
                Ok(Fields { path: Some(value), ..fields })
            } else if key == encode_utf8("Size"@) {
                match parsed_number(value, u64::MAX as int) {
                    Some(size) => Ok(Fields { size: Some(size as u64), ..fields }),
                    None => Err(about_value("Invalid archive entry size "@, value)),
                }
            } else if key == encode_utf8("Folder"@) {
                Ok(Fields { is_dir: value == encode_utf8("+"@), ..fields })
            } else if key == encode_utf8("Attributes"@) || key == encode_utf8("Mode"@) {
                Ok(with_attributes(fields, value))
            } else if key == encode_utf8("Symbolic Link"@) || key == encode_utf8("Hard Link"@) {
                Ok(Fields { is_link: fields.is_link || value.len() > 0, ..fields })
            } else if key == encode_utf8("Encrypted"@) {
                Ok(Fields { is_encrypted: value == encode_utf8("+"@), ..fields })
            } else {
                Ok(fields)
            }
        },
    }
}

/// What the lines of a block say, or why they cannot be read.
pub open spec fn read_lines(lines: Seq<Seq<u8>>) -> Result<Fields, Seq<char>>
    decreases lines.len(),
{
    if lines.len() == 0 {
        Ok(no_fields())
    } else {
        match read_lines(lines.drop_last()) {
            Err(why) => Err(why),
            Ok(fields) => with_line(fields, lines.last()),
        }
    }
}

/// One entry as a listing says it.
#[verifier::ext_equal]
pub struct EntryModel {
    pub path: Seq<u8>,
    pub size: u64,
    pub is_dir: bool,
}

/// The entry a block describes, if it describes one, or why the archive is
/// refused.
pub open spec fn entry_of(fields: Fields) -> Result<Option<EntryModel>, Seq<char>> {
    if fields.path is None || fields.size is None {
        Ok(None)
    } else {
        let path = fields.path.unwrap();
        if unsafe_path(path) {
            Err(about_value("Archive contains unsafe path "@, path))
        } else if fields.is_link {
            Err(about_value("Archive contains unsupported link entry "@, path))
        } else if fields.special is Some {
            Err(
                about_value(
                    "Archive contains unsupported "@ + called_type(fields.special.unwrap())
                        + " entry "@,
                    path,
                ),
            )
        } else if fields.is_encrypted {
            Err("Password-protected archives are not supported yet"@)
        } else {
            Ok(Some(EntryModel { path, size: fields.size.unwrap(), is_dir: fields.is_dir }))
        }
    }
}

/// The entry a block describes.
pub open spec fn read_block(block: Seq<u8>) -> Result<Option<EntryModel>, Seq<char>> {
    match read_lines(lines_of(block)) {
        Err(why) => Err(why),
        Ok(fields) => entry_of(fields),
    }
}

/// What blocks list, and what that adds up to.
#[verifier::ext_equal]
pub struct ListedModel {
    pub entries: Seq<EntryModel>,
    pub budget: Budget,
}

/// What blocks list, or why the archive is refused.
pub open spec fn read_blocks(blocks: Seq<Seq<u8>>) -> Result<ListedModel, Seq<char>>
    decreases blocks.len(),
{
    if blocks.len() == 0 {
        Ok(
            ListedModel {
                entries: Seq::empty(),
                budget: Budget { entries: 0, bytes: 0, listed: true },
            },
        )
    } else {
        match read_blocks(blocks.drop_last()) {
            Err(why) => Err(why),
            Ok(sofar) => match read_block(blocks.last()) {
                Err(why) => Err(why),
                Ok(None) => Ok(sofar),
                Ok(Some(entry)) => match sofar.budget.after(entry.size) {
                    Err(why) => Err(why),
                    Ok(budget) => Ok(ListedModel { entries: sofar.entries.push(entry), budget }),
                },
            },
        }
    }
}

/// What a listing says, or why the archive is refused.
pub open spec fn listing_of(text: Seq<u8>) -> Result<Seq<EntryModel>, Seq<char>> {
    match read_blocks(blocks_of(text)) {
        Err(why) => Err(why),
        Ok(listed) => if listed.entries.len() == 0 {
            Err("Archive contains no extractable entries"@)
        } else {
            Ok(listed.entries)
        },
    }
}

/// Whether entries are those a listing says.
pub open spec fn entries_say(entries: Seq<ArchiveEntry>, listed: Seq<EntryModel>) -> bool {
    entries.len() == listed.len() && forall|i: int|
        0 <= i < entries.len() ==> (#[trigger] entries[i]).path.text() == listed[i].path
            && entries[i].size == listed[i].size && entries[i].is_dir == listed[i].is_dir
}

proof fn lemma_lines_fail_early(done: Seq<Seq<u8>>, rest: Seq<Seq<u8>>)
    requires
        read_lines(done) is Err,
    ensures
        read_lines(done + rest) == read_lines(done),
    decreases rest.len(),
{
    if rest.len() == 0 {
        assert(done + rest =~= done);
    } else {
        assert((done + rest).drop_last() =~= done + rest.drop_last());
        lemma_lines_fail_early(done, rest.drop_last());
    }
}

proof fn lemma_blocks_fail_early(done: Seq<Seq<u8>>, rest: Seq<Seq<u8>>)
    requires
        read_blocks(done) is Err,
    ensures
        read_blocks(done + rest) == read_blocks(done),
    decreases rest.len(),
{
    if rest.len() == 0 {
        assert(done + rest =~= done);
    } else {
        assert((done + rest).drop_last() =~= done + rest.drop_last());
        lemma_blocks_fail_early(done, rest.drop_last());
    }
}

/// What a block says so far.
struct BlockFields {
    path: Option<Vec<u8>>,
    size: Option<u64>,
    is_dir: bool,
    is_link: bool,
    special: Option<u8>,
    is_encrypted: bool,
}

impl View for BlockFields {
    type V = Fields;

    closed spec fn view(&self) -> Fields {
        Fields {
            path: match self.path {
                Some(path) => Some(path@),
                None => None,
            },
            size: self.size,
            is_dir: self.is_dir,
            is_link: self.is_link,
            special: self.special,
            is_encrypted: self.is_encrypted,
        }
    }
}

impl BlockFields {
    fn new() -> (fields: BlockFields)
        ensures
            fields@ == no_fields(),
    {
        BlockFields {
            path: None,
            size: None,
            is_dir: false,
            is_link: false,
            special: None,
            is_encrypted: false,
        }
    }

    /// Reads one more line.
    fn read_line(self, line: &[u8]) -> (result: Result<BlockFields, String>)
        ensures
            match result {
                Ok(fields) => with_line(self@, line@) == Ok::<Fields, Seq<char>>(fields@),
                Err(message) => with_line(self@, line@) == Err::<Fields, Seq<char>>(message@),
            },
    {
        let separator = " = ".as_bytes();
        assert(line@.skip(0) =~= line@);
        let at = match find_bytes(line, 0, separator) {
            Some(at) => at,
            None => {
                return Ok(self);
            },
        };
        let key = vstd::slice::slice_subrange(line, 0, at);
        assert(at + separator@.len() <= line.len());
        let value = vstd::slice::slice_subrange(line, at + separator.len(), line.len());
        assert(key@ =~= line@.take(at as int));
        assert(value@ =~= line@.skip(at + separator@.len()));
        let ghost before = self@;
        let mut fields = self;
        if same_bytes(key, "Path".as_bytes()) {
            fields.path = Some(copy_bytes(value));
        } else if same_bytes(key, "Size".as_bytes()) {
            match parse_number(value, u64::MAX) {
                Some(size) => {
                    fields.size = Some(size);
                },
                None => {
                    return Err(value_message("Invalid archive entry size ", value));
                },
            }
        } else if same_bytes(key, "Folder".as_bytes()) {
            fields.is_dir = same_bytes(value, "+".as_bytes());
        } else if same_bytes(key, "Attributes".as_bytes()) || same_bytes(key, "Mode".as_bytes()) {
            let letter = posix_file_type(value);
            let folder = value.len() > 0 && value[0] == 68;
            match letter {
                Some(letter) => {
                    fields.is_dir = fields.is_dir || folder || letter == 100;
                    if letter != 45 && letter != 100 {
                        fields.special = Some(letter);
                    }
                },
                None => {
                    fields.is_dir = fields.is_dir || folder;
                },
            }
            fields.is_link = fields.is_link || holds_byte(value, 76);
            assert(fields@ =~= with_attributes(before, value@));
        } else if same_bytes(key, "Symbolic Link".as_bytes()) || same_bytes(
            key,
            "Hard Link".as_bytes(),
        ) {
            fields.is_link = fields.is_link || value.len() > 0;
        } else if same_bytes(key, "Encrypted".as_bytes()) {
            fields.is_encrypted = same_bytes(value, "+".as_bytes());
        }
        Ok(fields)
    }

    /// The entry described.
    fn entry(self) -> (result: Result<Option<ListedEntry>, String>)
        ensures
            match result {
                Ok(Some(entry)) => entry_of(self@) == Ok::<Option<EntryModel>, Seq<char>>(
                    Some(entry@),
                ),
                Ok(None) => entry_of(self@) == Ok::<Option<EntryModel>, Seq<char>>(None),
                Err(message) => entry_of(self@) == Err::<Option<EntryModel>, Seq<char>>(message@),
            },
    {
        let path = match self.path {
            Some(path) => path,
            None => {
                return Ok(None);
            },
        };
        let size = match self.size {
            Some(size) => size,
            None => {
                return Ok(None);
            },
        };
        match validate_archive_path(path.as_slice()) {
            Ok(_) => {},
            Err(message) => {
                return Err(message);
            },
        }
        if self.is_link {
            return Err(value_message("Archive contains unsupported link entry ", path.as_slice()));
        }
        match self.special {
            Some(letter) => {
                let mut before = "Archive contains unsupported ".to_owned();
                before.append(describe_file_type(letter));
                before.append(" entry ");
                return Err(value_message(before.as_str(), path.as_slice()));
            },
            None => {},
        }
        if self.is_encrypted {
            return Err("Password-protected archives are not supported yet".to_owned());
        }
        Ok(Some(ListedEntry { path, size, is_dir: self.is_dir }))
    }
}

/// One entry as a listing says it.
struct ListedEntry {
    path: Vec<u8>,
    size: u64,
    is_dir: bool,
}

impl View for ListedEntry {
    type V = EntryModel;

    closed spec fn view(&self) -> EntryModel {
        EntryModel { path: self.path@, size: self.size, is_dir: self.is_dir }
    }
}

fn parse_block(block: &[u8]) -> (result: Result<Option<ListedEntry>, String>)
    ensures
        match result {
            Ok(Some(entry)) => read_block(block@) == Ok::<Option<EntryModel>, Seq<char>>(
                Some(entry@),
            ),
            Ok(None) => read_block(block@) == Ok::<Option<EntryModel>, Seq<char>>(None),
            Err(message) => read_block(block@) == Err::<Option<EntryModel>, Seq<char>>(message@),
        },
{
    let mut fields = BlockFields::new();
    let mut from: usize = 0;
    let ghost mut done: Seq<Seq<u8>> = Seq::empty();
    let feed: Vec<u8> = vec![10];
    assert(feed@ =~= seq![10u8]);
    assert(block@.skip(0) =~= block@);
    assert(done + lines_of(block@) =~= lines_of(block@));
    while from < block.len()
        invariant
            from <= block@.len(),
            feed@ == seq![10u8],
            lines_of(block@) == done + lines_of(block@.skip(from as int)),
            read_lines(done) == Ok::<Fields, Seq<char>>(fields@),
        decreases block.len() - from,
    {
        let ghost rest = block@.skip(from as int);
        let (end, next): (usize, usize) = match find_bytes(block, from, feed.as_slice()) {
            Some(at) => {
                let end: usize = from + at;
                let kept: usize = if end > from && block[end - 1] == 13 { end - 1 } else { end };
                (kept, end + 1)
            },
            None => (block.len(), block.len()),
        };
        let line = vstd::slice::slice_subrange(block, from, end);
        proof {
            lemma_first_of(rest, seq![10u8]);
            match first_of(rest, seq![10u8]) {
                Some(at) => {
                    assert(line@ =~= without_return(rest.take(at)));
                    assert(rest.skip(at + 1) =~= block@.skip(next as int));
                    assert(lines_of(rest) == seq![line@] + lines_of(block@.skip(next as int)));
                },
                None => {
                    assert(line@ =~= rest);
                    assert(block@.skip(next as int) =~= Seq::empty());
                    assert(lines_of(rest) =~= seq![line@] + lines_of(block@.skip(next as int)));
                },
            }
            let now = done.push(line@);
            assert(done + (seq![line@] + lines_of(block@.skip(next as int))) =~= now + lines_of(
                block@.skip(next as int),
            ));
            assert(now.drop_last() =~= done);
            if read_lines(now) is Err {
                lemma_lines_fail_early(now, lines_of(block@.skip(next as int)));
            }
            done = now;
        }
        match fields.read_line(line) {
            Ok(more) => {
                fields = more;
            },
            Err(message) => {
                return Err(message);
            },
        }
        from = next;
    }
    assert(block@.skip(from as int) =~= Seq::empty());
    assert(lines_of(block@) =~= done);
    fields.entry()
}

/// Whether this is what a listing is read as.
pub open spec fn reads_as(text: Seq<u8>, result: Result<Vec<ArchiveEntry>, String>) -> bool {
    match result {
        Ok(entries) => listing_of(text) matches Ok(listed) && entries_say(entries@, listed),
        Err(message) => listing_of(text) == Err::<Seq<EntryModel>, Seq<char>>(message@),
    }
}

/// Reads a listing.
pub fn parse_listing(output: &str) -> (result: Result<Vec<ArchiveEntry>, String>)
    ensures
        reads_as(encode_utf8(output@), result),
{
    let text = output.as_bytes();
    let mut entries: Vec<ArchiveEntry> = Vec::new();
    let mut budget = Budget::listing();
    let mut from: usize = 0;
    let mut more = true;
    let ghost mut done: Seq<Seq<u8>> = Seq::empty();
    let ghost mut listed: Seq<EntryModel> = Seq::empty();
    let between: Vec<u8> = vec![10, 10];
    assert(between@ =~= gap());
    assert(text@.skip(0) =~= text@);
    assert(done + blocks_of(text@) =~= blocks_of(text@));
    while more
        invariant
            from <= text@.len(),
            text@ == encode_utf8(output@),
            between@ == gap(),
            more ==> blocks_of(text@) == done + blocks_of(text@.skip(from as int)),
            !more ==> blocks_of(text@) == done,
            read_blocks(done) == Ok::<ListedModel, Seq<char>>(
                ListedModel { entries: listed, budget },
            ),
            entries_say(entries@, listed),
        decreases (if more { 1int } else { 0int }), text.len() - from,
    {
        let ghost rest = text@.skip(from as int);
        let (end, next): (usize, Option<usize>) = match find_bytes(text, from, between.as_slice()) {
            Some(at) => (from + at, Some(from + at + 2)),
            None => (text.len(), None),
        };
        let block = vstd::slice::slice_subrange(text, from, end);
        let ghost after = match next {
            Some(next) => blocks_of(text@.skip(next as int)),
            None => Seq::empty(),
        };
        proof {
            lemma_first_of(rest, gap());
            match first_of(rest, gap()) {
                Some(at) => {
                    assert(block@ =~= rest.take(at));
                    assert(rest.skip(at + 2) =~= text@.skip(next.unwrap() as int));
                    assert(blocks_of(rest) == seq![block@] + after);
                },
                None => {
                    assert(block@ =~= rest);
                    assert(blocks_of(rest) =~= seq![block@] + after);
                },
            }
            let now = done.push(block@);
            assert(done + (seq![block@] + after) =~= now + after);
            assert(now.drop_last() =~= done);
            if read_blocks(now) is Err {
                lemma_blocks_fail_early(now, after);
            }
            assert(now + Seq::<Seq<u8>>::empty() =~= now);
            done = now;
        }
        match parse_block(block) {
            Err(message) => {
                return Err(message);
            },
            Ok(None) => {},
            Ok(Some(entry)) => {
                match budget.add(entry.size) {
                    Ok(_) => {},
                    Err(message) => {
                        return Err(message);
                    },
                }
                let ghost earlier = entries@;
                entries.push(
                    ArchiveEntry {
                        path: PathBuf::from_bytes(entry.path.as_slice()),
                        size: entry.size,
                        is_dir: entry.is_dir,
                    },
                );
                proof {
                    let now = listed.push(entry@);
                    assert forall|i: int| 0 <= i < entries@.len() implies (
                    #[trigger] entries@[i]).path.text() == now[i].path && entries@[i].size
                        == now[i].size && entries@[i].is_dir == now[i].is_dir by {
                        if i < earlier.len() {
                            assert(entries@[i] == earlier[i]);
                        }
                    }
                    listed = now;
                }
            },
        }
        match next {
            Some(next) => {
                from = next;
            },
            None => {
                more = false;
            },
        }
    }
    if entries.len() == 0 {
        return Err("Archive contains no extractable entries".to_owned());
    }
    Ok(entries)
}

/// Everything a listing lists that is not refused stays where it is extracted,
/// and keeps within the limits.
pub proof fn lemma_listed_is_safe(blocks: Seq<Seq<u8>>)
    requires
        read_blocks(blocks) is Ok,
    ensures
        ({
            let listed = read_blocks(blocks)->Ok_0;
            &&& forall|i: int|
                0 <= i < listed.entries.len() ==> !unsafe_path((#[trigger] listed.entries[i]).path)
            &&& listed.budget.entries == listed.entries.len()
            &&& listed.entries.len() <= MAX_ARCHIVE_ENTRIES
            &&& listed.budget.bytes <= MAX_EXPANDED_BYTES
            &&& listed.budget.bytes == total_size(listed.entries)
        }),
    decreases blocks.len(),
{
    if blocks.len() > 0 {
        lemma_listed_is_safe(blocks.drop_last());
        let before = read_blocks(blocks.drop_last())->Ok_0;
        let listed = read_blocks(blocks)->Ok_0;
        match read_block(blocks.last()) {
            Ok(Some(entry)) => {
                assert(listed.entries.drop_last() =~= before.entries);
                assert forall|i: int| 0 <= i < listed.entries.len() implies !unsafe_path(
                    (#[trigger] listed.entries[i]).path,
                ) by {
                    if i < before.entries.len() {
                        assert(listed.entries[i] == before.entries[i]);
                    }
                }
            },
            _ => {},
        }
    }
}

/// What entries add up to.
pub open spec fn total_size(entries: Seq<EntryModel>) -> int
    decreases entries.len(),
{
    if entries.len() == 0 {
        0
    } else {
        total_size(entries.drop_last()) + entries.last().size
    }
}

/// `{key} = {value}`
pub open spec fn field_line(key: Seq<u8>, value: Seq<u8>) -> Seq<u8> {
    key + seq![32u8, 61, 32] + value
}

/// `Path`
pub open spec fn path_key() -> Seq<u8> {
    seq![80u8, 97, 116, 104]
}

/// `Size`
pub open spec fn size_key() -> Seq<u8> {
    seq![83u8, 105, 122, 101]
}

/// `Folder`
pub open spec fn folder_key() -> Seq<u8> {
    seq![70u8, 111, 108, 100, 101, 114]
}

/// `Attributes`
pub open spec fn attributes_key() -> Seq<u8> {
    seq![65u8, 116, 116, 114, 105, 98, 117, 116, 101, 115]
}

/// `Mode`
pub open spec fn mode_key() -> Seq<u8> {
    seq![77u8, 111, 100, 101]
}

/// `Symbolic Link`
pub open spec fn symbolic_link_key() -> Seq<u8> {
    seq![83u8, 121, 109, 98, 111, 108, 105, 99, 32, 76, 105, 110, 107]
}

/// `Hard Link`
pub open spec fn hard_link_key() -> Seq<u8> {
    seq![72u8, 97, 114, 100, 32, 76, 105, 110, 107]
}

/// `Encrypted`
pub open spec fn encrypted_key() -> Seq<u8> {
    seq![69u8, 110, 99, 114, 121, 112, 116, 101, 100]
}

/// Whether a key is none of those that are read.
pub open spec fn other_key(key: Seq<u8>) -> bool {
    &&& key != path_key()
    &&& key != size_key()
    &&& key != folder_key()
    &&& key != attributes_key()
    &&& key != mode_key()
    &&& key != symbolic_link_key()
    &&& key != hard_link_key()
    &&& key != encrypted_key()
}

/// Whether a key can be told from its value.
pub open spec fn plain_key(key: Seq<u8>) -> bool {
    forall|i: int| 0 <= i < key.len() && #[trigger] key[i] == 61 ==> i == 0 || key[i - 1] != 32
}

/// What a listing prints of the attributes of an entry made on Unix: flags of
/// its own, if any, and the mode as `ls -l` prints it, which says by its first
/// letter what the entry is.
pub open spec fn unix_attributes(flags: Seq<u8>, letter: u8, rights: Seq<u8>) -> Seq<u8> {
    flags + (seq![letter] + rights)
}

/// Whether something is printed as attributes are: the flags before a blank,
/// and the rights in nine letters.
pub open spec fn printed_attributes(flags: Seq<u8>, letter: u8, rights: Seq<u8>) -> bool {
    &&& flags.len() == 0 || flags.last() == 32
    &&& 33 <= letter < 127
    &&& rights.len() == 9
    &&& forall|i: int| 0 <= i < rights.len() ==> 33 <= #[trigger] rights[i] < 127
}

/// Whether attributes are those of a folder, or of a regular file.
pub open spec fn ordinary_attributes(
    flags: Seq<u8>,
    letter: u8,
    rights: Seq<u8>,
    folder: bool,
) -> bool {
    &&& printed_attributes(flags, letter, rights)
    // d or -
    &&& letter == (if folder {
        100u8
    } else {
        45u8
    })
    // L is the flag of a link, and D that of a folder.
    &&& !unix_attributes(flags, letter, rights).contains(76)
    &&& !folder ==> unix_attributes(flags, letter, rights)[0] != 68
}

/// Whether a line is one that a listing prints of an ordinary file or folder.
pub open spec fn ordinary_line(
    line: Seq<u8>,
    path: Seq<u8>,
    size: u64,
    folder: bool,
) -> bool {
    ||| line == field_line(path_key(), path)
    ||| line == field_line(size_key(), decimal_bytes(size as nat))
    ||| line == folder_line(folder)
    ||| exists|flags: Seq<u8>, letter: u8, rights: Seq<u8>|
        ordinary_attributes(flags, letter, rights, folder) && (line == field_line(
            attributes_key(),
            #[trigger] unix_attributes(flags, letter, rights),
        ) || line == field_line(mode_key(), unix_attributes(flags, letter, rights)))
    ||| line == field_line(symbolic_link_key(), Seq::empty())
    ||| line == field_line(hard_link_key(), Seq::empty())
    ||| line == field_line(encrypted_key(), seq![45u8])
    ||| exists|key: Seq<u8>, value: Seq<u8>|
        plain_key(key) && other_key(key) && line == #[trigger] field_line(key, value)
}

/// `Folder = +` or `Folder = -`
pub open spec fn folder_line(folder: bool) -> Seq<u8> {
    field_line(
        folder_key(),
        if folder {
            seq![43u8]
        } else {
            seq![45u8]
        },
    )
}

proof fn lemma_keys_as_bytes()
    ensures
        encode_utf8(" = "@) == seq![32u8, 61, 32],
        encode_utf8("Path"@) == path_key(),
        encode_utf8("Size"@) == size_key(),
        encode_utf8("Folder"@) == folder_key(),
        encode_utf8("Attributes"@) == attributes_key(),
        encode_utf8("Mode"@) == mode_key(),
        encode_utf8("Symbolic Link"@) == symbolic_link_key(),
        encode_utf8("Hard Link"@) == hard_link_key(),
        encode_utf8("Encrypted"@) == encrypted_key(),
        encode_utf8("+"@) == seq![43u8],
{
    reveal_strlit(" = ");
    reveal_strlit("Path");
    reveal_strlit("Size");
    reveal_strlit("Folder");
    reveal_strlit("Attributes");
    reveal_strlit("Mode");
    reveal_strlit("Symbolic Link");
    reveal_strlit("Hard Link");
    reveal_strlit("Encrypted");
    reveal_strlit("+");
    lemma_ascii_text(" = "@, seq![32u8, 61, 32]);
    lemma_ascii_text("Path"@, path_key());
    lemma_ascii_text("Size"@, size_key());
    lemma_ascii_text("Folder"@, folder_key());
    lemma_ascii_text("Attributes"@, attributes_key());
    lemma_ascii_text("Mode"@, mode_key());
    lemma_ascii_text("Symbolic Link"@, symbolic_link_key());
    lemma_ascii_text("Hard Link"@, hard_link_key());
    lemma_ascii_text("Encrypted"@, encrypted_key());
    lemma_ascii_text("+"@, seq![43u8]);
}

proof fn lemma_keys_are_apart()
    ensures
        plain_key(path_key()),
        plain_key(size_key()),
        plain_key(folder_key()),
        plain_key(attributes_key()),
        plain_key(mode_key()),
        plain_key(symbolic_link_key()),
        plain_key(hard_link_key()),
        plain_key(encrypted_key()),
        path_key()[0] == 80,
        size_key()[0] == 83,
        folder_key()[0] == 70,
        attributes_key()[0] == 65,
        mode_key()[0] == 77,
        symbolic_link_key()[0] == 83,
        size_key().len() == 4,
        symbolic_link_key().len() == 13,
        hard_link_key()[0] == 72,
        encrypted_key()[0] == 69,
        seq![43u8] != seq![45u8],
{
    assert(seq![43u8][0] != seq![45u8][0]);
}

/// Where the first of something is, if it is nowhere before.
pub proof fn lemma_first_is_there(text: Seq<u8>, needle: Seq<u8>, at: int)
    requires
        0 <= at,
        at + needle.len() <= text.len(),
        text.subrange(at, at + needle.len()) == needle,
        forall|i: int| 0 <= i < at ==> !needle.is_prefix_of(#[trigger] text.skip(i)),
    ensures
        first_of(text, needle) == Some(at),
    decreases at,
{
    if at == 0 {
    } else {
        assert(text.skip(0) =~= text);
        let rest = text.drop_first();
        assert(rest.subrange(at - 1, at - 1 + needle.len()) =~= text.subrange(
            at,
            at + needle.len(),
        ));
        assert forall|i: int| 0 <= i < at - 1 implies !needle.is_prefix_of(
            #[trigger] rest.skip(i),
        ) by {
            assert(rest.skip(i) =~= text.skip(i + 1));
        }
        lemma_first_is_there(rest, needle, at - 1);
    }
}

/// A line is parted into the key and the value it was made of.
proof fn lemma_field_is_parted(key: Seq<u8>, value: Seq<u8>)
    requires
        plain_key(key),
    ensures
        first_of(field_line(key, value), seq![32u8, 61, 32]) == Some(key.len() as int),
        field_line(key, value).take(key.len() as int) == key,
        field_line(key, value).skip((key.len() + 3) as int) == value,
{
    let line = field_line(key, value);
    let between = seq![32u8, 61, 32];
    let at = key.len() as int;
    assert(line.subrange(at, at + 3) =~= between);
    assert forall|i: int| 0 <= i < at implies !between.is_prefix_of(#[trigger] line.skip(i)) by {
        let rest = line.skip(i);
        if between.is_prefix_of(rest) {
            assert(rest.subrange(0, 3)[0] == 32 && rest.subrange(0, 3)[1] == 61);
            assert(rest[0] == 32 && rest[1] == 61);
            assert(line[i] == key[i]);
            if i + 1 < at {
                assert(line[i + 1] == key[i + 1]);
            } else {
                assert(line[i + 1] == 32);
            }
        }
    }
    lemma_first_is_there(line, between, at);
    assert(line.take(at) =~= key);
    assert(line.skip((key.len() + 3) as int) =~= value);
}

/// What the fields of an ordinary entry are, however many of its lines were
/// read.
pub open spec fn fits(
    fields: Fields,
    lines: Seq<Seq<u8>>,
    path: Seq<u8>,
    size: u64,
    folder: bool,
) -> bool {
    &&& fields.path == (if lines.contains(field_line(path_key(), path)) {
        Some(path)
    } else {
        None
    })
    &&& fields.size == (if lines.contains(field_line(size_key(), decimal_bytes(size as nat))) {
        Some(size)
    } else {
        None
    })
    &&& fields.is_dir ==> folder
    &&& lines.contains(folder_line(folder)) ==> fields.is_dir == folder
    &&& !fields.is_link
    &&& fields.special is None
    &&& !fields.is_encrypted
}

/// What a type letter and flags say of an entry.
proof fn lemma_attributes_say(flags: Seq<u8>, letter: u8, rights: Seq<u8>)
    requires
        printed_attributes(flags, letter, rights),
    ensures
        type_letter(unix_attributes(flags, letter, rights)) == Some(letter),
{
    let mode = seq![letter] + rights;
    assert forall|i: int| 0 <= i < mode.len() implies 33 <= #[trigger] mode[i] < 127 by {
        if i > 0 {
            assert(mode[i] == rights[i - 1]);
        }
    }
    lemma_last_word_is_last(flags, mode);
}

proof fn lemma_line_fits(
    fields: Fields,
    lines: Seq<Seq<u8>>,
    line: Seq<u8>,
    path: Seq<u8>,
    size: u64,
    folder: bool,
)
    requires
        fits(fields, lines, path, size, folder),
        ordinary_line(line, path, size, folder),
    ensures
        with_line(fields, line) matches Ok(next) && fits(
            next,
            lines.push(line),
            path,
            size,
            folder,
        ),
{
    lemma_keys_as_bytes();
    lemma_keys_are_apart();
    let said_path = field_line(path_key(), path);
    let said_size = field_line(size_key(), decimal_bytes(size as nat));
    let said_folder = folder_line(folder);
    lemma_field_is_parted(path_key(), path);
    lemma_field_is_parted(size_key(), decimal_bytes(size as nat));
    lemma_parse_reverses_decimal(size as nat, u64::MAX as int);
    lemma_field_is_parted(folder_key(), seq![43u8]);
    lemma_field_is_parted(folder_key(), seq![45u8]);
    lemma_field_is_parted(symbolic_link_key(), Seq::empty());
    lemma_field_is_parted(hard_link_key(), Seq::empty());
    lemma_field_is_parted(encrypted_key(), seq![45u8]);
    lemma_pushed(lines, line, said_path);
    lemma_pushed(lines, line, said_size);
    lemma_pushed(lines, line, said_folder);
    assert(said_path[0] == 80 && said_size[0] == 83 && said_folder[0] == 70);
    if line == said_path {
    } else if line == said_size {
    } else if line == said_folder {
    } else if exists|flags: Seq<u8>, letter: u8, rights: Seq<u8>|
        ordinary_attributes(flags, letter, rights, folder) && (line == field_line(
            attributes_key(),
            #[trigger] unix_attributes(flags, letter, rights),
        ) || line == field_line(mode_key(), unix_attributes(flags, letter, rights))) {
        let (flags, letter, rights) = choose|flags: Seq<u8>, letter: u8, rights: Seq<u8>|
            ordinary_attributes(flags, letter, rights, folder) && (line == field_line(
                attributes_key(),
                #[trigger] unix_attributes(flags, letter, rights),
            ) || line == field_line(mode_key(), unix_attributes(flags, letter, rights)));
        let value = unix_attributes(flags, letter, rights);
        lemma_field_is_parted(attributes_key(), value);
        lemma_field_is_parted(mode_key(), value);
        lemma_attributes_say(flags, letter, rights);
        assert(with_line(fields, line) == Ok::<Fields, Seq<char>>(with_attributes(fields, value)));
    } else if line == field_line(symbolic_link_key(), Seq::empty()) {
    } else if line == field_line(hard_link_key(), Seq::empty()) {
    } else if line == field_line(encrypted_key(), seq![45u8]) {
    } else {
        let (key, value) = choose|key: Seq<u8>, value: Seq<u8>|
            plain_key(key) && other_key(key) && line == #[trigger] field_line(key, value);
        lemma_field_is_parted(key, value);
    }
}

proof fn lemma_pushed(lines: Seq<Seq<u8>>, line: Seq<u8>, other: Seq<u8>)
    ensures
        lines.push(line).contains(other) <==> lines.contains(other) || line == other,
{
    let all = lines.push(line);
    if lines.contains(other) {
        let i = choose|i: int| 0 <= i < lines.len() && lines[i] == other;
        assert(all[i] == other);
    }
    assert(all[lines.len() as int] == line);
}

/// Whether lines are those a listing prints of an ordinary file or folder.
pub open spec fn ordinary_lines(
    lines: Seq<Seq<u8>>,
    path: Seq<u8>,
    size: u64,
    folder: bool,
) -> bool {
    &&& forall|i: int|
        0 <= i < lines.len() ==> ordinary_line(#[trigger] lines[i], path, size, folder)
    &&& lines.contains(field_line(path_key(), path))
    &&& lines.contains(field_line(size_key(), decimal_bytes(size as nat)))
    &&& lines.contains(folder_line(folder))
}

proof fn lemma_lines_fit(lines: Seq<Seq<u8>>, path: Seq<u8>, size: u64, folder: bool)
    requires
        forall|i: int|
            0 <= i < lines.len() ==> ordinary_line(#[trigger] lines[i], path, size, folder),
    ensures
        read_lines(lines) matches Ok(fields) && fits(fields, lines, path, size, folder),
    decreases lines.len(),
{
    if lines.len() > 0 {
        let front = lines.drop_last();
        assert forall|i: int| 0 <= i < front.len() implies ordinary_line(
            #[trigger] front[i],
            path,
            size,
            folder,
        ) by {
            assert(front[i] == lines[i]);
        }
        lemma_lines_fit(front, path, size, folder);
        assert(ordinary_line(lines[lines.len() - 1], path, size, folder));
        lemma_line_fits(
            read_lines(front)->Ok_0,
            front,
            lines.last(),
            path,
            size,
            folder,
        );
        assert(front.push(lines.last()) =~= lines);
    }
}

/// Names with slashes between them.
pub open spec fn slashed(names: Seq<Seq<u8>>) -> Seq<u8>
    decreases names.len(),
{
    if names.len() == 0 {
        Seq::empty()
    } else if names.len() == 1 {
        names[0]
    } else {
        slashed(names.drop_last()) + seq![47u8] + names.last()
    }
}

/// Whether something is an ordinary name: not empty, neither `.` nor `..`, and
/// without a slash or a backslash.
pub open spec fn ordinary_name(name: Seq<u8>) -> bool {
    &&& name.len() > 0
    &&& name != seq![46u8]
    &&& name != seq![46u8, 46]
    &&& !name.contains(47)
    &&& !name.contains(92)
}

proof fn lemma_pieces_without_slash(before: Seq<u8>, name: Seq<u8>)
    requires
        !name.contains(47),
    ensures
        pieces(name) == seq![name],
        pieces(before + seq![47u8] + name) == pieces(before).push(name),
    decreases name.len(),
{
    let whole = before + seq![47u8] + name;
    if name.len() == 0 {
        assert(name =~= Seq::empty());
        assert(whole.drop_last() =~= before);
        assert(pieces(whole) =~= pieces(before).push(name));
    } else {
        let front = name.drop_last();
        assert forall|i: int| 0 <= i < front.len() implies front[i] != 47 by {
            assert(name.contains(name[i]));
        }
        assert(name.contains(name[name.len() - 1]));
        lemma_pieces_without_slash(before, front);
        assert(whole.drop_last() =~= before + seq![47u8] + front);
        assert(front.push(name.last()) =~= name);
        assert(pieces(name) =~= seq![name]);
        assert(pieces(whole) =~= pieces(before).push(name));
    }
}

proof fn lemma_slashed_is_parted(names: Seq<Seq<u8>>)
    requires
        names.len() > 0,
        forall|i: int| 0 <= i < names.len() ==> ordinary_name(#[trigger] names[i]),
    ensures
        pieces(slashed(names)) == names,
        slashed(names).len() > 0,
        !slashed(names).contains(92),
    decreases names.len(),
{
    assert(ordinary_name(names[names.len() - 1]));
    if names.len() == 1 {
        lemma_pieces_without_slash(Seq::empty(), names[0]);
        assert(pieces(slashed(names)) =~= names);
    } else {
        let front = names.drop_last();
        assert forall|i: int| 0 <= i < front.len() implies ordinary_name(#[trigger] front[i]) by {
            assert(front[i] == names[i]);
        }
        lemma_slashed_is_parted(front);
        lemma_pieces_without_slash(slashed(front), names.last());
        assert(front.push(names.last()) =~= names);
        let whole = slashed(names);
        let before = slashed(front);
        assert(!whole.contains(92)) by {
            if whole.contains(92) {
                let i = choose|i: int| 0 <= i < whole.len() && whole[i] == 92;
                if i < before.len() {
                    assert(before.contains(before[i]));
                } else if i > before.len() {
                    assert(names.last().contains(names.last()[i - before.len() - 1]));
                }
            }
        }
    }
}

/// A path of ordinary names is no unsafe path, unless it reads as a drive.
pub proof fn lemma_ordinary_path_is_safe(names: Seq<Seq<u8>>)
    requires
        names.len() > 0,
        forall|i: int| 0 <= i < names.len() ==> ordinary_name(#[trigger] names[i]),
        slashed(names).len() == 1 || slashed(names)[1] != 58,
    ensures
        !unsafe_path(slashed(names)),
{
    lemma_slashed_is_parted(names);
    assert(this_directory() =~= seq![46u8]);
    assert(parent_directory() =~= seq![46u8, 46]);
    assert forall|i: int| 0 <= i < pieces(slashed(names)).len() implies !unsafe_piece(
        #[trigger] pieces(slashed(names))[i],
    ) by {
        assert(ordinary_name(names[i]));
    }
}

/// A path that is absolute, goes up, says nothing somewhere, or holds a
/// backslash is unsafe, and so is one that reads as a drive.
pub proof fn lemma_reaching_paths_are_unsafe(names: Seq<Seq<u8>>, at: int)
    requires
        0 <= at < names.len(),
        names[at].len() == 0 || names[at] == seq![46u8] || names[at] == seq![46u8, 46]
            || names[at].contains(92),
        forall|i: int| 0 <= i < names.len() ==> !(#[trigger] names[i]).contains(47),
    ensures
        unsafe_path(slashed(names)),
{
    lemma_slashed_pieces(names);
    assert(this_directory() =~= seq![46u8]);
    assert(parent_directory() =~= seq![46u8, 46]);
    if names[at].contains(92) {
        lemma_slashed_holds(names, at, 92);
    } else {
        assert(unsafe_piece(pieces(slashed(names))[at]));
    }
}

proof fn lemma_slashed_pieces(names: Seq<Seq<u8>>)
    requires
        names.len() > 0,
        forall|i: int| 0 <= i < names.len() ==> !(#[trigger] names[i]).contains(47),
    ensures
        pieces(slashed(names)) == names,
    decreases names.len(),
{
    if names.len() == 1 {
        lemma_pieces_without_slash(Seq::empty(), names[0]);
        assert(pieces(slashed(names)) =~= names);
    } else {
        let front = names.drop_last();
        assert forall|i: int| 0 <= i < front.len() implies !(#[trigger] front[i]).contains(47) by {
            assert(front[i] == names[i]);
        }
        lemma_slashed_pieces(front);
        assert(!names[names.len() - 1].contains(47));
        lemma_pieces_without_slash(slashed(front), names.last());
        assert(front.push(names.last()) =~= names);
    }
}

proof fn lemma_slashed_holds(names: Seq<Seq<u8>>, at: int, byte: u8)
    requires
        0 <= at < names.len(),
        names[at].contains(byte),
    ensures
        slashed(names).contains(byte),
    decreases names.len(),
{
    let whole = slashed(names);
    if names.len() > 1 {
        let before = slashed(names.drop_last());
        if at < names.len() - 1 {
            lemma_slashed_holds(names.drop_last(), at, byte);
            let i = choose|i: int| 0 <= i < before.len() && before[i] == byte;
            assert(whole[i] == byte);
        } else {
            let last = names.last();
            let i = choose|i: int| 0 <= i < last.len() && last[i] == byte;
            assert(whole[before.len() + 1 + i] == byte);
        }
    }
}

/// Lines as a block prints them.
pub open spec fn block_text(lines: Seq<Seq<u8>>) -> Seq<u8>
    decreases lines.len(),
{
    if lines.len() == 0 {
        Seq::empty()
    } else if lines.len() == 1 {
        lines[0]
    } else {
        lines[0] + seq![10u8] + block_text(lines.drop_first())
    }
}

/// Whether something can be printed as one line.
pub open spec fn one_line(line: Seq<u8>) -> bool {
    line.len() > 0 && !line.contains(10) && line.last() != 13
}

proof fn lemma_first_line(line: Seq<u8>, rest: Seq<u8>)
    requires
        one_line(line),
    ensures
        first_of(line + seq![10u8] + rest, seq![10u8]) == Some(line.len() as int),
        first_of(line, seq![10u8]) is None,
{
    let text = line + seq![10u8] + rest;
    let feed = seq![10u8];
    let at = line.len() as int;
    assert(text.subrange(at, at + 1) =~= feed);
    assert forall|i: int| 0 <= i < at implies !feed.is_prefix_of(#[trigger] text.skip(i)) by {
        if feed.is_prefix_of(text.skip(i)) {
            assert(text.skip(i).subrange(0, 1)[0] == 10);
            assert(text[i] == line[i]);
            assert(line.contains(line[i]));
        }
    }
    lemma_first_is_there(text, feed, at);
    lemma_first_of(line, feed);
    match first_of(line, feed) {
        Some(found) => {
            assert(line.subrange(found, found + 1)[0] == 10);
            assert(line.contains(line[found]));
        },
        None => {},
    }
}

/// A block is parted into the lines it was made of.
proof fn lemma_block_is_parted(lines: Seq<Seq<u8>>)
    requires
        forall|i: int| 0 <= i < lines.len() ==> one_line(#[trigger] lines[i]),
    ensures
        lines_of(block_text(lines)) == lines,
    decreases lines.len(),
{
    let text = block_text(lines);
    if lines.len() == 0 {
        assert(lines_of(text) =~= lines);
    } else if lines.len() == 1 {
        assert(one_line(lines[0]));
        lemma_first_line(lines[0], Seq::empty());
        assert(lines_of(text) =~= lines);
    } else {
        let rest = lines.drop_first();
        assert(one_line(lines[0]));
        assert forall|i: int| 0 <= i < rest.len() implies one_line(#[trigger] rest[i]) by {
            assert(rest[i] == lines[i + 1]);
        }
        lemma_block_is_parted(rest);
        lemma_first_line(lines[0], block_text(rest));
        let at = lines[0].len() as int;
        assert(text.take(at) =~= lines[0]);
        assert(text.skip(at + 1) =~= block_text(rest));
        assert(lines_of(text) =~= seq![lines[0]] + rest);
        assert(lines_of(text) =~= lines);
    }
}

/// No block holds an empty line, nor ends in one.
proof fn lemma_block_has_no_gap(lines: Seq<Seq<u8>>, i: int)
    requires
        forall|k: int| 0 <= k < lines.len() ==> one_line(#[trigger] lines[k]),
        lines.len() > 0,
        0 <= i < block_text(lines).len(),
        block_text(lines)[i] == 10,
    ensures
        i + 1 < block_text(lines).len(),
        block_text(lines)[i + 1] != 10,
        i > 0,
    decreases lines.len(),
{
    let text = block_text(lines);
    assert(one_line(lines[0]));
    if lines.len() == 1 {
        assert(lines[0].contains(lines[0][i]));
    } else {
        let rest = lines.drop_first();
        assert forall|k: int| 0 <= k < rest.len() implies one_line(#[trigger] rest[k]) by {
            assert(rest[k] == lines[k + 1]);
        }
        let first = lines[0].len() as int;
        if i < first {
            assert(text[i] == lines[0][i]);
            assert(lines[0].contains(lines[0][i]));
        } else if i == first {
            lemma_block_begins(rest);
            assert(text[i + 1] == block_text(rest)[0]);
        } else {
            lemma_block_has_no_gap(rest, i - first - 1);
            assert(text[i + 1] == block_text(rest)[i - first]);
        }
    }
}

proof fn lemma_block_begins(lines: Seq<Seq<u8>>)
    requires
        forall|k: int| 0 <= k < lines.len() ==> one_line(#[trigger] lines[k]),
        lines.len() > 0,
    ensures
        block_text(lines).len() > 0,
        block_text(lines)[0] != 10,
{
    assert(one_line(lines[0]));
    assert(block_text(lines)[0] == lines[0][0]);
    assert(lines[0].contains(lines[0][0]));
}

/// Blocks as a listing prints them, with an empty line after each.
pub open spec fn listing_text(blocks: Seq<Seq<Seq<u8>>>) -> Seq<u8>
    decreases blocks.len(),
{
    if blocks.len() == 0 {
        Seq::empty()
    } else {
        block_text(blocks[0]) + seq![10u8, 10] + listing_text(blocks.drop_first())
    }
}

/// Whether blocks can be printed.
pub open spec fn printable(blocks: Seq<Seq<Seq<u8>>>) -> bool {
    forall|i: int| 0 <= i < blocks.len() ==> printable_block(#[trigger] blocks[i])
}

/// Whether a block can be printed.
pub open spec fn printable_block(lines: Seq<Seq<u8>>) -> bool {
    lines.len() > 0 && forall|k: int| 0 <= k < lines.len() ==> one_line(#[trigger] lines[k])
}

/// A listing is parted into the blocks it was made of, and nothing after them.
proof fn lemma_listing_is_parted(blocks: Seq<Seq<Seq<u8>>>)
    requires
        printable(blocks),
    ensures
        blocks_of(listing_text(blocks)) == blocks.map_values(
            |lines: Seq<Seq<u8>>| block_text(lines),
        ).push(Seq::empty()),
    decreases blocks.len(),
{
    let text = listing_text(blocks);
    let texts = blocks.map_values(|lines: Seq<Seq<u8>>| block_text(lines));
    if blocks.len() == 0 {
        lemma_first_of(text, gap());
        assert(blocks_of(text) =~= texts.push(Seq::empty()));
    } else {
        let rest = blocks.drop_first();
        assert(printable_block(blocks[0]));
        assert forall|i: int| 0 <= i < rest.len() implies printable_block(#[trigger] rest[i]) by {
            assert(rest[i] == blocks[i + 1]);
        }
        lemma_listing_is_parted(rest);
        let block = block_text(blocks[0]);
        let at = block.len() as int;
        assert(text.subrange(at, at + 2) =~= gap());
        assert forall|i: int| 0 <= i < at implies !gap().is_prefix_of(#[trigger] text.skip(i)) by {
            if gap().is_prefix_of(text.skip(i)) {
                assert(text.skip(i).subrange(0, 2)[0] == 10);
                assert(text.skip(i).subrange(0, 2)[1] == 10);
                assert(text[i] == block[i]);
                lemma_block_has_no_gap(blocks[0], i);
                assert(text[i + 1] == block[i + 1]);
            }
        }
        lemma_first_is_there(text, gap(), at);
        assert(text.take(at) =~= block);
        assert(text.skip(at + 2) =~= listing_text(rest));
        let more = rest.map_values(|lines: Seq<Seq<u8>>| block_text(lines));
        assert(seq![block] + more.push(Seq::empty()) =~= texts.push(Seq::empty()));
    }
}

/// Whether a block is what a listing prints of an ordinary file or folder.
pub open spec fn prints(
    lines: Seq<Seq<u8>>,
    names: Seq<Seq<u8>>,
    size: u64,
    folder: bool,
) -> bool {
    &&& printable_block(lines)
    &&& names.len() > 0
    &&& forall|i: int| 0 <= i < names.len() ==> ordinary_name(#[trigger] names[i])
    &&& slashed(names).len() == 1 || slashed(names)[1] != 58
    &&& ordinary_lines(lines, slashed(names), size, folder)
}

/// A file or folder that a listing prints.
#[verifier::ext_equal]
pub struct PrintedEntry {
    pub names: Seq<Seq<u8>>,
    pub size: u64,
    pub folder: bool,
}

/// Whether blocks are what a listing prints of files and folders.
pub open spec fn prints_all(blocks: Seq<Seq<Seq<u8>>>, entries: Seq<PrintedEntry>) -> bool {
    &&& blocks.len() == entries.len()
    &&& forall|i: int|
        0 <= i < blocks.len() ==> prints(
            #[trigger] blocks[i],
            entries[i].names,
            entries[i].size,
            entries[i].folder,
        )
}

/// What files and folders add up to.
pub open spec fn printed_total(entries: Seq<PrintedEntry>) -> int
    decreases entries.len(),
{
    if entries.len() == 0 {
        0
    } else {
        printed_total(entries.drop_last()) + entries.last().size
    }
}

proof fn lemma_totals_grow(entries: Seq<PrintedEntry>, upto: int)
    requires
        0 <= upto <= entries.len(),
    ensures
        0 <= printed_total(entries.take(upto)) <= printed_total(entries),
    decreases entries.len(),
{
    if upto == entries.len() {
        assert(entries.take(upto) =~= entries);
        if upto > 0 {
            lemma_totals_grow(entries.drop_last(), upto - 1);
            assert(entries.drop_last().take(upto - 1) =~= entries.drop_last());
        }
    } else {
        lemma_totals_grow(entries.drop_last(), upto);
        assert(entries.drop_last().take(upto) =~= entries.take(upto));
    }
}

proof fn lemma_blocks_are_read(
    texts: Seq<Seq<u8>>,
    blocks: Seq<Seq<Seq<u8>>>,
    entries: Seq<PrintedEntry>,
    upto: int,
)
    requires
        prints_all(blocks, entries),
        texts.len() == blocks.len(),
        forall|i: int| 0 <= i < blocks.len() ==> #[trigger] texts[i] == block_text(blocks[i]),
        entries.len() <= 100_000,
        printed_total(entries) <= 107_374_182_400,
        0 <= upto <= blocks.len(),
    ensures
        read_blocks(texts.take(upto)) matches Ok(listed) && listed.entries.len() == upto
            && listed.budget.entries == upto && listed.budget.bytes == printed_total(
            entries.take(upto),
        ) && listed.budget.listed && forall|i: int|
            0 <= i < upto ==> (#[trigger] listed.entries[i]) == (EntryModel {
                path: slashed(entries[i].names),
                size: entries[i].size,
                is_dir: entries[i].folder,
            }),
    decreases upto,
{
    if upto == 0 {
        assert(texts.take(0) =~= Seq::empty());
        assert(entries.take(0) =~= Seq::empty());
    } else {
        lemma_blocks_are_read(texts, blocks, entries, upto - 1);
        let now = texts.take(upto);
        let at = upto - 1;
        assert(now.drop_last() =~= texts.take(at));
        assert(now.last() == texts[at]);
        let lines = blocks[at];
        let entry = entries[at];
        assert(prints(lines, entry.names, entry.size, entry.folder));
        lemma_block_is_parted(lines);
        lemma_lines_fit(lines, slashed(entry.names), entry.size, entry.folder);
        lemma_ordinary_path_is_safe(entry.names);
        let said = EntryModel {
            path: slashed(entry.names),
            size: entry.size,
            is_dir: entry.folder,
        };
        assert(read_block(now.last()) == Ok::<Option<EntryModel>, Seq<char>>(Some(said)));
        assert(entries.take(upto).drop_last() =~= entries.take(at));
        assert(entries.take(upto).last() == entry);
        lemma_totals_grow(entries, upto);
        lemma_totals_grow(entries, at);
        let before = read_blocks(texts.take(at))->Ok_0;
        let listed = read_blocks(now)->Ok_0;
        assert(listed.entries == before.entries.push(said));
    }
}

/// The listing of an archive of ordinary files and folders, within the limits,
/// is accepted, with one entry for each of them: its path, its size, and
/// whether it is a folder, in the order of the listing.
pub proof fn lemma_ordinary_archives_are_listed(
    blocks: Seq<Seq<Seq<u8>>>,
    entries: Seq<PrintedEntry>,
    result: Result<Vec<ArchiveEntry>, String>,
)
    requires
        prints_all(blocks, entries),
        0 < entries.len() <= 100_000,
        printed_total(entries) <= 107_374_182_400,
        reads_as(listing_text(blocks), result),
    ensures
        result matches Ok(listed) && listed@.len() == entries.len() && forall|i: int|
            0 <= i < entries.len() ==> (#[trigger] listed@[i]).path.text() == slashed(
                entries[i].names,
            ) && listed@[i].size == entries[i].size && listed@[i].is_dir == entries[i].folder,
{
    let texts = blocks.map_values(|lines: Seq<Seq<u8>>| block_text(lines));
    assert forall|i: int| 0 <= i < blocks.len() implies printable_block(#[trigger] blocks[i]) by {
        assert(prints(blocks[i], entries[i].names, entries[i].size, entries[i].folder));
    }
    lemma_listing_is_parted(blocks);
    let all = texts.push(Seq::empty());
    assert(all.drop_last() =~= texts);
    assert(texts.take(texts.len() as int) =~= texts);
    lemma_blocks_are_read(texts, blocks, entries, blocks.len() as int);
    assert(lines_of(all.last()) =~= Seq::empty());
    assert(read_block(all.last()) == Ok::<Option<EntryModel>, Seq<char>>(None));
    let listed = read_blocks(texts)->Ok_0.entries;
    assert(listing_of(listing_text(blocks)) == Ok::<Seq<EntryModel>, Seq<char>>(listed));
    match result {
        Ok(found) => {
            assert forall|i: int| 0 <= i < entries.len() implies (
            #[trigger] found@[i]).path.text() == slashed(entries[i].names) && found@[i].size
                == entries[i].size && found@[i].is_dir == entries[i].folder by {
                assert(listed[i].path == slashed(entries[i].names));
            }
        },
        Err(_) => {},
    }
}

/// Whether a line says that an entry is neither a regular file nor a folder:
/// by another type letter, by the flag of a link, or by what it links to.
pub open spec fn says_not_ordinary(line: Seq<u8>) -> bool {
    ||| exists|flags: Seq<u8>, letter: u8, rights: Seq<u8>|
        printed_attributes(flags, letter, rights) && letter != 45 && letter != 100 && (line
            == field_line(attributes_key(), #[trigger] unix_attributes(flags, letter, rights))
            || line == field_line(mode_key(), unix_attributes(flags, letter, rights)))
    ||| exists|value: Seq<u8>|
        value.contains(76) && (line == #[trigger] field_line(attributes_key(), value) || line
            == field_line(mode_key(), value))
    ||| exists|value: Seq<u8>|
        value.len() > 0 && (line == #[trigger] field_line(symbolic_link_key(), value) || line
            == field_line(hard_link_key(), value))
}

proof fn lemma_line_is_remembered(fields: Fields, line: Seq<u8>)
    ensures
        with_line(fields, line) matches Ok(next) ==> {
            &&& fields.path is Some ==> next.path is Some
            &&& fields.size is Some ==> next.size is Some
            &&& fields.special is Some ==> next.special is Some
            &&& fields.is_link ==> next.is_link
            &&& says_not_ordinary(line) ==> next.special is Some || next.is_link
            &&& forall|value: Seq<u8>|
                line == #[trigger] field_line(path_key(), value) ==> next.path is Some
            &&& forall|value: Seq<u8>|
                line == #[trigger] field_line(size_key(), value) ==> next.size is Some
        },
{
    lemma_keys_as_bytes();
    lemma_keys_are_apart();
    assert forall|value: Seq<u8>| line == #[trigger] field_line(
        path_key(),
        value,
    ) && with_line(fields, line) is Ok implies with_line(fields, line)->Ok_0.path is Some by {
        lemma_field_is_parted(path_key(), value);
    }
    assert forall|value: Seq<u8>| line == #[trigger] field_line(
        size_key(),
        value,
    ) && with_line(fields, line) is Ok implies with_line(fields, line)->Ok_0.size is Some by {
        lemma_field_is_parted(size_key(), value);
    }
    if says_not_ordinary(line) {
        if exists|flags: Seq<u8>, letter: u8, rights: Seq<u8>|
            printed_attributes(flags, letter, rights) && letter != 45 && letter != 100 && (line
                == field_line(attributes_key(), #[trigger] unix_attributes(flags, letter, rights))
                || line == field_line(mode_key(), unix_attributes(flags, letter, rights))) {
            let (flags, letter, rights) = choose|flags: Seq<u8>, letter: u8, rights: Seq<u8>|
                printed_attributes(flags, letter, rights) && letter != 45 && letter != 100 && (line
                    == field_line(
                    attributes_key(),
                    #[trigger] unix_attributes(flags, letter, rights),
                ) || line == field_line(mode_key(), unix_attributes(flags, letter, rights)));
            let value = unix_attributes(flags, letter, rights);
            lemma_field_is_parted(attributes_key(), value);
            lemma_field_is_parted(mode_key(), value);
            lemma_attributes_say(flags, letter, rights);
        } else if exists|value: Seq<u8>|
            value.contains(76) && (line == #[trigger] field_line(attributes_key(), value) || line
                == field_line(mode_key(), value)) {
            let value = choose|value: Seq<u8>|
                value.contains(76) && (line == #[trigger] field_line(attributes_key(), value)
                    || line == field_line(mode_key(), value));
            lemma_field_is_parted(attributes_key(), value);
            lemma_field_is_parted(mode_key(), value);
        } else {
            let value = choose|value: Seq<u8>|
                value.len() > 0 && (line == #[trigger] field_line(symbolic_link_key(), value)
                    || line == field_line(hard_link_key(), value));
            lemma_field_is_parted(symbolic_link_key(), value);
            lemma_field_is_parted(hard_link_key(), value);
        }
    }
}

proof fn lemma_lines_are_remembered(lines: Seq<Seq<u8>>, path: Seq<u8>, size: Seq<u8>, at: int)
    requires
        lines.contains(field_line(path_key(), path)),
        lines.contains(field_line(size_key(), size)),
        0 <= at < lines.len(),
        says_not_ordinary(lines[at]),
    ensures
        read_lines(lines) matches Ok(fields) ==> fields.path is Some && fields.size is Some && (
        fields.special is Some || fields.is_link),
{
    let p = choose|p: int| 0 <= p < lines.len() && lines[p] == field_line(path_key(), path);
    let s = choose|s: int| 0 <= s < lines.len() && lines[s] == field_line(size_key(), size);
    lemma_lines_so_far(lines, lines.len() as int, path, size, p, s, at);
    assert(lines.take(lines.len() as int) =~= lines);
}

proof fn lemma_lines_so_far(
    lines: Seq<Seq<u8>>,
    upto: int,
    path: Seq<u8>,
    size: Seq<u8>,
    p: int,
    s: int,
    at: int,
)
    requires
        0 <= upto <= lines.len(),
        0 <= p < lines.len(),
        lines[p] == field_line(path_key(), path),
        0 <= s < lines.len(),
        lines[s] == field_line(size_key(), size),
        0 <= at < lines.len(),
        says_not_ordinary(lines[at]),
    ensures
        read_lines(lines.take(upto)) matches Ok(fields) ==> {
            &&& p < upto ==> fields.path is Some
            &&& s < upto ==> fields.size is Some
            &&& at < upto ==> fields.special is Some || fields.is_link
        },
    decreases upto,
{
    if upto > 0 {
        lemma_lines_so_far(lines, upto - 1, path, size, p, s, at);
        assert(lines.take(upto).drop_last() =~= lines.take(upto - 1));
        assert(lines.take(upto).last() == lines[upto - 1]);
        match read_lines(lines.take(upto - 1)) {
            Ok(fields) => lemma_line_is_remembered(fields, lines[upto - 1]),
            Err(_) => {},
        }
    }
}

proof fn lemma_refused_block_refuses_all(texts: Seq<Seq<u8>>, at: int)
    requires
        0 <= at < texts.len(),
        read_block(texts[at]) is Err,
    ensures
        read_blocks(texts) is Err,
    decreases texts.len(),
{
    if at < texts.len() - 1 {
        assert(texts.drop_last()[at] == texts[at]);
        lemma_refused_block_refuses_all(texts.drop_last(), at);
    }
}

/// An archive that holds a link, a device, a socket or a pipe is refused as a
/// whole, whatever else it holds.
pub proof fn lemma_archives_with_special_entries_are_refused(
    blocks: Seq<Seq<Seq<u8>>>,
    at: int,
    path: Seq<u8>,
    size: Seq<u8>,
    line: int,
    result: Result<Vec<ArchiveEntry>, String>,
)
    requires
        printable(blocks),
        0 <= at < blocks.len(),
        blocks[at].contains(field_line(path_key(), path)),
        blocks[at].contains(field_line(size_key(), size)),
        0 <= line < blocks[at].len(),
        says_not_ordinary(blocks[at][line]),
        reads_as(listing_text(blocks), result),
    ensures
        result is Err,
{
    let texts = blocks.map_values(|lines: Seq<Seq<u8>>| block_text(lines));
    lemma_listing_is_parted(blocks);
    let all = texts.push(Seq::empty());
    assert(printable_block(blocks[at]));
    lemma_block_is_parted(blocks[at]);
    lemma_lines_are_remembered(blocks[at], path, size, line);
    assert(all[at] == block_text(blocks[at]));
    assert(read_block(all[at]) is Err);
    lemma_refused_block_refuses_all(all, at);
}

/// An archive whose listing says that an entry is encrypted, or whose path is
/// unsafe, is refused as a whole.
pub proof fn lemma_unsafe_and_encrypted_archives_are_refused(
    blocks: Seq<Seq<Seq<u8>>>,
    at: int,
    names: Seq<Seq<u8>>,
    size: u64,
    folder: bool,
    encrypted: bool,
    result: Result<Vec<ArchiveEntry>, String>,
)
    requires
        printable(blocks),
        0 <= at < blocks.len(),
        blocks[at].len() > 0,
        ordinary_lines(blocks[at].drop_last(), slashed(names), size, folder),
        encrypted ==> blocks[at].last() == field_line(encrypted_key(), seq![43u8]),
        !encrypted ==> ordinary_line(blocks[at].last(), slashed(names), size, folder) && exists|
            k: int,
        |
            0 <= k < names.len() && ((#[trigger] names[k]).len() == 0 || names[k] == seq![46u8]
                || names[k] == seq![46u8, 46] || names[k].contains(92)),
        forall|i: int| 0 <= i < names.len() ==> !(#[trigger] names[i]).contains(47),
        reads_as(listing_text(blocks), result),
    ensures
        result is Err,
{
    let lines = blocks[at];
    let front = lines.drop_last();
    let texts = blocks.map_values(|lines: Seq<Seq<u8>>| block_text(lines));
    lemma_listing_is_parted(blocks);
    let all = texts.push(Seq::empty());
    assert(printable_block(lines));
    lemma_block_is_parted(lines);
    lemma_lines_fit(front, slashed(names), size, folder);
    let fields = read_lines(front)->Ok_0;
    if encrypted {
        lemma_keys_as_bytes();
        lemma_keys_are_apart();
        lemma_field_is_parted(encrypted_key(), seq![43u8]);
        assert(with_line(fields, lines.last()) matches Ok(next) && next.is_encrypted && next.path
            is Some && next.size is Some);
    } else {
        lemma_line_fits(fields, front, lines.last(), slashed(names), size, folder);
        assert(front.push(lines.last()) =~= lines);
        let next = with_line(fields, lines.last())->Ok_0;
        lemma_pushed(front, lines.last(), field_line(path_key(), slashed(names)));
        lemma_pushed(
            front,
            lines.last(),
            field_line(size_key(), decimal_bytes(size as nat)),
        );
        let k = choose|k: int|
            0 <= k < names.len() && ((#[trigger] names[k]).len() == 0 || names[k] == seq![46u8]
                || names[k] == seq![46u8, 46] || names[k].contains(92));
        lemma_reaching_paths_are_unsafe(names, k);
    }
    assert(all[at] == block_text(lines));
    assert(read_block(all[at]) is Err);
    lemma_refused_block_refuses_all(all, at);
}

} // verus!
