//! The archive program: how it is found, how it is called, and what is made of
//! its answers.
//!
//! It never sees a path it could misread as an option or a wildcard, and never
//! writes anywhere but a private staging directory.

use vstd::prelude::*;
use vstd::utf8::{decode_utf8, encode_utf8, valid_utf8};

use crate::fsops::archive::ArchiveEntry;
use crate::fsops::identity::{about, message_about, Metadata, SnapshotKind};
use crate::fsops::listing::{entries_say, listing_of, parse_listing, EntryModel};
use crate::fsops::local::models;
use crate::path::{byte_names, copy_bytes, push_bytes, PathBuf, PathModel};
use crate::text::{
    decimal, lemma_ascii_text, lossy, push_decimal, strict, trim_bytes, trimmed, utf8_lossy,
};

verus! {

pub const MAX_SUBPROCESS_OUTPUT: usize = 262_144;

/// Sixty-four mebibytes.
pub const MAX_LISTING_OUTPUT: usize = 67_108_864;

/// How long to wait before looking at the program again.
pub const POLL_MILLISECONDS: u64 = 20;

/// How long to wait before looking at what it has staged again.
pub const STAGING_MONITOR_MILLISECONDS: u64 = 200;

/// Take file names literally. 7-Zip expands `*` and `?` in every name it is
/// given, the archive's included, and `--` does not stop it.
pub const LITERAL_NAMES: &'static str = "-spd";

/// One call of the archive program.
#[derive(Debug)]
pub struct BackendCommand {
    pub program: PathBuf,
    pub arguments: Vec<Vec<u8>>,
    /// The directory to run it in, where that matters.
    pub current_dir: Option<PathBuf>,
    /// The directory it writes to, where that is watched.
    pub monitored: Option<PathBuf>,
    /// How much of what it prints is kept.
    pub stdout_limit: usize,
}

/// A program that reads and writes archives.
pub trait ArchiveBackend: Sized {
    /// The arguments that make it list an archive.
    spec fn list_arguments(&self, archive: Seq<u8>) -> Seq<Seq<u8>>;

    /// The arguments that make it extract an archive.
    spec fn extract_arguments(&self, archive: Seq<u8>, destination: Seq<u8>) -> Seq<Seq<u8>>;

    /// The arguments that make it create a ZIP of entries of one directory.
    spec fn zip_arguments(&self, names: Seq<Seq<u8>>, destination: Seq<u8>) -> Seq<Seq<u8>>;

    /// The program.
    spec fn called(&self) -> PathBuf;

    fn list(&self, archive: &PathBuf) -> (command: BackendCommand)
        ensures
            lists_with(self.called(), self.list_arguments(archive.text()), command),
    ;

    fn extract(&self, archive: &PathBuf, destination: &PathBuf) -> (command: BackendCommand)
        ensures
            extracts_with(
                self.called(),
                self.extract_arguments(archive.text(), destination.text()),
                *destination,
                command,
            ),
    ;

    fn create_zip(&self, sources: &Vec<PathBuf>, destination: &PathBuf) -> (command: Result<
        BackendCommand,
        String,
    >)
        ensures
            compresses_with(
                self.called(),
                self.zip_arguments(file_names(sources@), destination.text()),
                sources@,
                command,
            ),
    ;
}

/// Whether a command lists an archive, given the program and its arguments.
pub open spec fn lists_with(
    program: PathBuf,
    arguments: Seq<Seq<u8>>,
    command: BackendCommand,
) -> bool {
    &&& command.program == program
    &&& byte_names(command.arguments@) == arguments
    &&& command.current_dir is None
    &&& command.monitored is None
    &&& command.stdout_limit == MAX_LISTING_OUTPUT
}

/// Whether a command extracts an archive into a directory that is watched,
/// given the program and its arguments.
pub open spec fn extracts_with(
    program: PathBuf,
    arguments: Seq<Seq<u8>>,
    destination: PathBuf,
    command: BackendCommand,
) -> bool {
    &&& command.program == program
    &&& byte_names(command.arguments@) == arguments
    &&& command.current_dir is None
    &&& command.monitored == Some(destination)
    &&& command.stdout_limit == MAX_SUBPROCESS_OUTPUT
}

/// Whether a command compresses a selection, given the program and its
/// arguments, or why there is none.
pub open spec fn compresses_with(
    program: PathBuf,
    arguments: Seq<Seq<u8>>,
    sources: Seq<PathBuf>,
    command: Result<BackendCommand, String>,
) -> bool {
    match command {
        Ok(command) => {
            &&& share_refusal(sources) is None
            &&& no_name_among(sources) is None
            &&& command.program == program
            &&& byte_names(command.arguments@) == arguments
            &&& command.current_dir matches Some(directory)
            &&& sources[0]@.parent() == Some(directory@)
            &&& command.monitored is None
            &&& command.stdout_limit == MAX_SUBPROCESS_OUTPUT
        },
        Err(message) => match share_refusal(sources) {
            Some(why) => message@ == why,
            None => no_name_among(sources) == Some(message@),
        },
    }
}

/// The names of a selection.
pub open spec fn file_names(sources: Seq<PathBuf>) -> Seq<Seq<u8>> {
    sources.map_values(|source: PathBuf| source@.file_name().unwrap())
}

/// Why a selection has no names to be called by, if it has none.
pub open spec fn no_name_among(sources: Seq<PathBuf>) -> Option<Seq<char>> {
    if exists|i: int| 0 <= i < sources.len() && (#[trigger] sources[i])@.file_name() is None {
        Some("Compression source has no filename"@)
    } else {
        None
    }
}

/// Why a selection cannot be compressed from one directory, if it cannot.
pub open spec fn share_refusal(sources: Seq<PathBuf>) -> Option<Seq<char>> {
    if sources.len() == 0 {
        Some("Select at least one item to compress"@)
    } else if sources[0]@.parent() is None {
        Some("Compression source has no parent"@)
    } else if exists|i: int|
        0 <= i < sources.len() && (#[trigger] sources[i])@.parent() != sources[0]@.parent() {
        Some("Compression sources must share one directory"@)
    } else {
        None
    }
}

/// The one directory every source lives in, which is where the archive is
/// built from so entries carry bare names.
pub fn shared_parent(sources: &Vec<PathBuf>) -> (parent: Result<PathBuf, String>)
    ensures
        match parent {
            Ok(parent) => share_refusal(sources@) is None && sources@[0]@.parent() == Some(parent@),
            Err(message) => share_refusal(sources@) == Some(message@),
        },
{
    if sources.len() == 0 {
        return Err("Select at least one item to compress".to_owned());
    }
    let parent = match sources[0].parent() {
        Some(parent) => parent,
        None => {
            return Err("Compression source has no parent".to_owned());
        },
    };
    let mut i: usize = 0;
    while i < sources.len()
        invariant
            i <= sources@.len(),
            sources@.len() > 0,
            sources@[0]@.parent() == Some(parent@),
            forall|k: int| 0 <= k < i ==> (#[trigger] sources@[k])@.parent() == Some(parent@),
        decreases sources.len() - i,
    {
        let shared = match sources[i].parent() {
            Some(other) => other.same(&parent),
            None => false,
        };
        if !shared {
            assert(sources@[i as int]@.parent() != sources@[0]@.parent());
            return Err("Compression sources must share one directory".to_owned());
        }
        i += 1;
    }
    Ok(parent)
}

/// 7-Zip.
#[derive(Debug)]
pub struct SevenZipBackend {
    pub program: PathBuf,
}

/// `-o{destination}`
pub open spec fn output_option(destination: Seq<u8>) -> Seq<u8> {
    encode_utf8("-o"@) + destination
}

impl SevenZipBackend {
    pub fn from_program(program: PathBuf) -> (backend: SevenZipBackend)
        ensures
            backend.program == program,
    {
        SevenZipBackend { program }
    }
}

fn push_word(words: &mut Vec<Vec<u8>>, word: &str)
    ensures
        byte_names(final(words)@) == byte_names(old(words)@).push(encode_utf8(word@)),
{
    let ghost before = words@;
    words.push(copy_bytes(word.as_bytes()));
    assert(byte_names(words@) =~= byte_names(before).push(encode_utf8(word@)));
}

fn push_raw(words: &mut Vec<Vec<u8>>, word: Vec<u8>)
    ensures
        byte_names(final(words)@) == byte_names(old(words)@).push(word@),
{
    let ghost before = words@;
    words.push(word);
    assert(byte_names(words@) =~= byte_names(before).push(word@));
}

impl ArchiveBackend for SevenZipBackend {
    open spec fn list_arguments(&self, archive: Seq<u8>) -> Seq<Seq<u8>> {
        Seq::<Seq<u8>>::empty().push(encode_utf8("l"@)).push(encode_utf8("-ba"@)).push(
            encode_utf8("-slt"@),
        ).push(encode_utf8("-sccUTF-8"@)).push(encode_utf8("-p"@)).push(
            encode_utf8(LITERAL_NAMES@),
        ).push(encode_utf8("--"@)).push(archive)
    }

    open spec fn extract_arguments(&self, archive: Seq<u8>, destination: Seq<u8>) -> Seq<
        Seq<u8>,
    > {
        Seq::<Seq<u8>>::empty().push(encode_utf8("x"@)).push(encode_utf8("-y"@)).push(
            encode_utf8("-aos"@),
        ).push(encode_utf8("-sccUTF-8"@)).push(encode_utf8("-p"@)).push(
            encode_utf8(LITERAL_NAMES@),
        ).push(output_option(destination)).push(encode_utf8("--"@)).push(archive)
    }

    open spec fn zip_arguments(&self, names: Seq<Seq<u8>>, destination: Seq<u8>) -> Seq<Seq<u8>> {
        Seq::<Seq<u8>>::empty().push(encode_utf8("a"@)).push(encode_utf8("-tzip"@)).push(
            encode_utf8("-mx=5"@),
        ).push(encode_utf8("-y"@)).push(encode_utf8("-sccUTF-8"@)).push(
            encode_utf8(LITERAL_NAMES@),
        ).push(destination).push(encode_utf8("--"@)) + names
    }

    open spec fn called(&self) -> PathBuf {
        self.program
    }

    fn list(&self, archive: &PathBuf) -> (command: BackendCommand) {
        let mut arguments: Vec<Vec<u8>> = Vec::new();
        assert(byte_names(arguments@) =~= Seq::<Seq<u8>>::empty());
        push_word(&mut arguments, "l");
        push_word(&mut arguments, "-ba");
        push_word(&mut arguments, "-slt");
        push_word(&mut arguments, "-sccUTF-8");
        push_word(&mut arguments, "-p");
        push_word(&mut arguments, LITERAL_NAMES);
        push_word(&mut arguments, "--");
        push_raw(&mut arguments, archive.to_bytes());
        BackendCommand {
            program: self.program.clone(),
            arguments,
            current_dir: None,
            monitored: None,
            stdout_limit: MAX_LISTING_OUTPUT,
        }
    }

    fn extract(&self, archive: &PathBuf, destination: &PathBuf) -> (command: BackendCommand) {
        let mut output = copy_bytes("-o".as_bytes());
        let target = destination.to_bytes();
        push_bytes(&mut output, target.as_slice());
        let mut arguments: Vec<Vec<u8>> = Vec::new();
        assert(byte_names(arguments@) =~= Seq::<Seq<u8>>::empty());
        push_word(&mut arguments, "x");
        push_word(&mut arguments, "-y");
        push_word(&mut arguments, "-aos");
        push_word(&mut arguments, "-sccUTF-8");
        push_word(&mut arguments, "-p");
        push_word(&mut arguments, LITERAL_NAMES);
        push_raw(&mut arguments, output);
        push_word(&mut arguments, "--");
        push_raw(&mut arguments, archive.to_bytes());
        BackendCommand {
            program: self.program.clone(),
            arguments,
            current_dir: None,
            monitored: Some(destination.clone()),
            stdout_limit: MAX_SUBPROCESS_OUTPUT,
        }
    }

    fn create_zip(&self, sources: &Vec<PathBuf>, destination: &PathBuf) -> (command: Result<
        BackendCommand,
        String,
    >) {
        let parent = match shared_parent(sources) {
            Ok(parent) => parent,
            Err(message) => {
                return Err(message);
            },
        };
        let mut arguments: Vec<Vec<u8>> = Vec::new();
        assert(byte_names(arguments@) =~= Seq::<Seq<u8>>::empty());
        push_word(&mut arguments, "a");
        push_word(&mut arguments, "-tzip");
        push_word(&mut arguments, "-mx=5");
        push_word(&mut arguments, "-y");
        push_word(&mut arguments, "-sccUTF-8");
        push_word(&mut arguments, LITERAL_NAMES);
        push_raw(&mut arguments, destination.to_bytes());
        push_word(&mut arguments, "--");
        let ghost options = byte_names(arguments@);
        let ghost names = file_names(sources@);
        let mut i: usize = 0;
        assert(options + names.take(0) =~= options);
        while i < sources.len()
            invariant
                i <= sources@.len(),
                share_refusal(sources@) is None,
                names == file_names(sources@),
                byte_names(arguments@) == options + names.take(i as int),
                forall|k: int| 0 <= k < i ==> (#[trigger] sources@[k])@.file_name() is Some,
            decreases sources.len() - i,
        {
            match sources[i].file_name() {
                Some(name) => {
                    push_raw(&mut arguments, copy_bytes(name));
                    assert(names.take(i + 1) =~= names.take(i as int).push(name@));
                    assert(byte_names(arguments@) =~= options + names.take(i + 1));
                },
                None => {
                    assert(sources@[i as int]@.file_name() is None);
                    return Err("Compression source has no filename".to_owned());
                },
            }
            i += 1;
        }
        assert(names.take(i as int) =~= names);
        assert(no_name_among(sources@) is None);
        Ok(
            BackendCommand {
                program: self.program.clone(),
                arguments,
                current_dir: Some(parent),
                monitored: None,
                stdout_limit: MAX_SUBPROCESS_OUTPUT,
            },
        )
    }
}

/// An archive is always named after `--`, with names taken literally, so that
/// no name is read as an option or a pattern.
pub proof fn lemma_archive_name_is_literal(
    backend: SevenZipBackend,
    archive: Seq<u8>,
    destination: Seq<u8>,
)
    ensures
        ({
            let list = backend.list_arguments(archive);
            &&& list.last() == archive
            &&& list[list.len() - 2] == encode_utf8("--"@)
            &&& list.drop_last().contains(encode_utf8(LITERAL_NAMES@))
        }),
        ({
            let extract = backend.extract_arguments(archive, destination);
            &&& extract.last() == archive
            &&& extract[extract.len() - 2] == encode_utf8("--"@)
            &&& extract.drop_last().contains(encode_utf8(LITERAL_NAMES@))
        }),
{
    let list = backend.list_arguments(archive);
    assert(list.drop_last()[5] == encode_utf8(LITERAL_NAMES@));
    let extract = backend.extract_arguments(archive, destination);
    assert(extract.drop_last()[5] == encode_utf8(LITERAL_NAMES@));
}

/// Everything compressed is named after `--`, by its bare name.
pub proof fn lemma_compressed_names_are_literal(
    backend: SevenZipBackend,
    names: Seq<Seq<u8>>,
    destination: Seq<u8>,
)
    ensures
        ({
            let zip = backend.zip_arguments(names, destination);
            &&& zip.skip(8) == names
            &&& zip[7] == encode_utf8("--"@)
            &&& zip[5] == encode_utf8(LITERAL_NAMES@)
        }),
{
    let zip = backend.zip_arguments(names, destination);
    assert(zip.skip(8) =~= names);
}

/// `--`, behind which everything is a name.
pub open spec fn end_of_options() -> Seq<u8> {
    seq![45u8, 45]
}

/// Whether the options of a call end at a word, the first that says so.
pub open spec fn options_end(words: Seq<Seq<u8>>, end: int) -> bool {
    &&& 0 < end < words.len()
    &&& words[end] == end_of_options()
    &&& forall|i: int| 0 <= i < end ==> #[trigger] words[i] != end_of_options()
}

/// Whether an option is given, and no other that begins the same way.
pub open spec fn only_option(words: Seq<Seq<u8>>, end: int, start: Seq<u8>, option: Seq<u8>) -> bool {
    &&& exists|i: int| 0 < i < end && #[trigger] words[i] == option
    &&& forall|i: int|
        0 < i < end && start.is_prefix_of(#[trigger] words[i]) ==> words[i] == option
}

/// Whether a call creates a ZIP archive at a destination from some names: it
/// says so by its type option, takes names literally, asks nothing, and names
/// the destination alone before the names.
pub open spec fn creates_a_zip(
    words: Seq<Seq<u8>>,
    end: int,
    destination: Seq<u8>,
    names: Seq<Seq<u8>>,
) -> bool {
    &&& options_end(words, end)
    &&& words[0] == seq![97u8]
    // -tzip
    &&& only_option(words, end, seq![45u8, 116], seq![45u8, 116, 122, 105, 112])
    // -spd, -y
    &&& only_option(words, end, seq![45u8, 115, 112], seq![45u8, 115, 112, 100])
    &&& only_option(words, end, seq![45u8, 121], seq![45u8, 121])
    &&& exists|i: int| 0 < i < end && #[trigger] words[i] == destination
    &&& forall|i: int|
        0 < i < end && #[trigger] words[i] != destination ==> seq![45u8].is_prefix_of(words[i])
    &&& words.skip(end + 1) == names
}

/// Compressing a selection asks for a ZIP of everything in it, from the
/// directory it is in.
pub proof fn lemma_compression_asks_for_a_zip(
    backend: SevenZipBackend,
    sources: Seq<PathBuf>,
    destination: PathBuf,
    command: BackendCommand,
)
    requires
        compresses_with(
            backend.called(),
            backend.zip_arguments(file_names(sources), destination.text()),
            sources,
            Ok::<BackendCommand, String>(command),
        ),
        !seq![45u8].is_prefix_of(destination.text()),
    ensures
        command.program == backend.program,
        command.current_dir matches Some(directory) && forall|i: int|
            0 <= i < sources.len() ==> (#[trigger] sources[i])@.parent() == Some(directory@),
        exists|names: Seq<Seq<u8>>, end: int|
            {
                &&& #[trigger] creates_a_zip(
                    byte_names(command.arguments@),
                    end,
                    destination.text(),
                    names,
                )
                &&& names.len() == sources.len()
                &&& forall|i: int|
                    0 <= i < sources.len() ==> (#[trigger] sources[i])@.file_name() == Some(names[i])
            },
{
    let words = byte_names(command.arguments@);
    let names = file_names(sources);
    let to = destination.text();
    reveal_strlit("a");
    reveal_strlit("-tzip");
    reveal_strlit("-mx=5");
    reveal_strlit("-y");
    reveal_strlit("-sccUTF-8");
    reveal_strlit("-spd");
    reveal_strlit("--");
    lemma_ascii_text("a"@, seq![97u8]);
    lemma_ascii_text("-tzip"@, seq![45u8, 116, 122, 105, 112]);
    lemma_ascii_text("-mx=5"@, seq![45u8, 109, 120, 61, 53]);
    lemma_ascii_text("-y"@, seq![45u8, 121]);
    lemma_ascii_text("-sccUTF-8"@, seq![45u8, 115, 99, 99, 85, 84, 70, 45, 56]);
    lemma_ascii_text("-spd"@, seq![45u8, 115, 112, 100]);
    lemma_ascii_text("--"@, seq![45u8, 45]);
    assert(words[0] == seq![97u8]);
    assert(words[1] == seq![45u8, 116, 122, 105, 112]);
    assert(words[2] == seq![45u8, 109, 120, 61, 53]);
    assert(words[3] == seq![45u8, 121]);
    assert(words[4] == seq![45u8, 115, 99, 99, 85, 84, 70, 45, 56]);
    assert(words[5] == seq![45u8, 115, 112, 100]);
    assert(words[6] == to);
    assert(words[7] == seq![45u8, 45]);
    lemma_not_an_option(to);
    assert forall|i: int| 0 <= i < 7 implies #[trigger] words[i] != end_of_options() by {
        lemma_words_differ(words[i], end_of_options());
    }
    assert(options_end(words, 7));
    lemma_one_option(words, 7, seq![45u8, 116], 1);
    lemma_one_option(words, 7, seq![45u8, 115, 112], 5);
    lemma_one_option(words, 7, seq![45u8, 121], 3);
    assert forall|i: int| 0 < i < 7 && #[trigger] words[i] != to implies seq![45u8].is_prefix_of(
        words[i],
    ) by {
        assert(words[i].subrange(0, 1) =~= seq![45u8]);
    }
    assert(words.skip(8) =~= names);
    assert(creates_a_zip(words, 7, to, names));
    assert forall|i: int| 0 <= i < sources.len() implies (#[trigger] sources[i])@.file_name()
        == Some(names[i]) && sources[i]@.parent() == sources[0]@.parent() by {}
}

/// A word that begins with no hyphen begins like no option.
proof fn lemma_not_an_option(word: Seq<u8>)
    requires
        !seq![45u8].is_prefix_of(word),
    ensures
        word.len() == 0 || word[0] != 45,
{
    if word.len() > 0 && word[0] == 45 {
        assert(word.subrange(0, 1) =~= seq![45u8]);
    }
}

/// Words that differ in length or somewhere are different words.
proof fn lemma_words_differ(left: Seq<u8>, right: Seq<u8>)
    ensures
        left == right ==> left.len() == right.len() && (left.len() > 0 ==> left[0] == right[0]) && (
        left.len() > 1 ==> left[1] == right[1]),
{
}

/// Where no other word before the end begins the same way, an option is the
/// only one.
proof fn lemma_one_option(words: Seq<Seq<u8>>, end: int, start: Seq<u8>, at: int)
    requires
        0 < at < end <= words.len(),
        start.len() > 0,
        forall|i: int|
            0 < i < end && i != at ==> (#[trigger] words[i]).len() < start.len() || exists|j: int|
                0 <= j < start.len() && words[i][j] != #[trigger] start[j],
    ensures
        only_option(words, end, start, words[at]),
{
    assert forall|i: int| 0 < i < end && start.is_prefix_of(#[trigger] words[i]) implies words[i]
        == words[at] by {
        if i != at {
            assert(words[i].subrange(0, start.len() as int) =~= start);
            let j = choose|j: int|
                0 <= j < start.len() && words[i][j] != #[trigger] start[j];
            assert(words[i].subrange(0, start.len() as int)[j] == start[j]);
        }
    }
}

/// Whether a call extracts an archive into a directory with everything where
/// the archive has it, overwrites nothing, asks nothing, and gives an empty
/// password where one is wanted.
pub open spec fn extracts_into(
    words: Seq<Seq<u8>>,
    end: int,
    archive: Seq<u8>,
    destination: Seq<u8>,
) -> bool {
    &&& options_end(words, end)
    &&& words[0] == seq![120u8]
    // -o
    &&& only_option(words, end, seq![45u8, 111], seq![45u8, 111] + destination)
    // -aos
    &&& only_option(words, end, seq![45u8, 97], seq![45u8, 97, 111, 115])
    // -y, -p, -spd
    &&& only_option(words, end, seq![45u8, 121], seq![45u8, 121])
    &&& only_option(words, end, seq![45u8, 112], seq![45u8, 112])
    &&& only_option(words, end, seq![45u8, 115, 112], seq![45u8, 115, 112, 100])
    &&& forall|i: int| 0 < i < end ==> seq![45u8].is_prefix_of(#[trigger] words[i])
    &&& words.skip(end + 1) == seq![archive]
}

/// Extracting asks for everything in one archive, in the directory that is
/// watched while it is extracted.
pub proof fn lemma_extraction_goes_where_it_is_watched(
    backend: SevenZipBackend,
    archive: PathBuf,
    destination: PathBuf,
    command: BackendCommand,
)
    requires
        extracts_with(
            backend.called(),
            backend.extract_arguments(archive.text(), destination.text()),
            destination,
            command,
        ),
    ensures
        command.program == backend.program,
        command.monitored == Some(destination),
        exists|end: int| #[trigger]
            extracts_into(
                byte_names(command.arguments@),
                end,
                archive.text(),
                destination.text(),
            ),
{
    let words = byte_names(command.arguments@);
    let to = seq![45u8, 111] + destination.text();
    reveal_strlit("x");
    reveal_strlit("-y");
    reveal_strlit("-aos");
    reveal_strlit("-sccUTF-8");
    reveal_strlit("-p");
    reveal_strlit("-spd");
    reveal_strlit("-o");
    reveal_strlit("--");
    lemma_ascii_text("x"@, seq![120u8]);
    lemma_ascii_text("-y"@, seq![45u8, 121]);
    lemma_ascii_text("-aos"@, seq![45u8, 97, 111, 115]);
    lemma_ascii_text("-sccUTF-8"@, seq![45u8, 115, 99, 99, 85, 84, 70, 45, 56]);
    lemma_ascii_text("-p"@, seq![45u8, 112]);
    lemma_ascii_text("-spd"@, seq![45u8, 115, 112, 100]);
    lemma_ascii_text("-o"@, seq![45u8, 111]);
    lemma_ascii_text("--"@, seq![45u8, 45]);
    assert(words[0] == seq![120u8]);
    assert(words[1] == seq![45u8, 121]);
    assert(words[2] == seq![45u8, 97, 111, 115]);
    assert(words[3] == seq![45u8, 115, 99, 99, 85, 84, 70, 45, 56]);
    assert(words[4] == seq![45u8, 112]);
    assert(words[5] == seq![45u8, 115, 112, 100]);
    assert(words[6] == to);
    assert(to[0] == 45 && to[1] == 111);
    assert(words[7] == seq![45u8, 45]);
    assert forall|i: int| 0 <= i < 7 implies #[trigger] words[i] != end_of_options() by {
        lemma_words_differ(words[i], end_of_options());
    }
    assert(options_end(words, 7));
    lemma_one_option(words, 7, seq![45u8, 111], 6);
    lemma_one_option(words, 7, seq![45u8, 97], 2);
    lemma_one_option(words, 7, seq![45u8, 121], 1);
    lemma_one_option(words, 7, seq![45u8, 112], 4);
    lemma_one_option(words, 7, seq![45u8, 115, 112], 5);
    assert forall|i: int| 0 < i < 7 implies seq![45u8].is_prefix_of(#[trigger] words[i]) by {
        assert(words[i].subrange(0, 1) =~= seq![45u8]);
    }
    assert(words.skip(8) =~= seq![archive.text()]);
    assert(extracts_into(words, 7, archive.text(), destination.text()));
}

/// Whether a call lists an archive, one block of fields for each entry and
/// nothing else, asks nothing, and gives an empty password where one is wanted.
pub open spec fn lists_fields(words: Seq<Seq<u8>>, end: int, archive: Seq<u8>) -> bool {
    &&& options_end(words, end)
    &&& words[0] == seq![108u8]
    // -slt, -ba, -sccUTF-8
    &&& only_option(words, end, seq![45u8, 115, 108], seq![45u8, 115, 108, 116])
    &&& only_option(words, end, seq![45u8, 98], seq![45u8, 98, 97])
    &&& only_option(
        words,
        end,
        seq![45u8, 115, 99],
        seq![45u8, 115, 99, 99, 85, 84, 70, 45, 56],
    )
    // -p, -spd
    &&& only_option(words, end, seq![45u8, 112], seq![45u8, 112])
    &&& only_option(words, end, seq![45u8, 115, 112], seq![45u8, 115, 112, 100])
    &&& forall|i: int| 0 < i < end ==> seq![45u8].is_prefix_of(#[trigger] words[i])
    &&& words.skip(end + 1) == seq![archive]
}

/// Listing asks for the fields of everything in one archive.
pub proof fn lemma_listing_asks_for_fields(
    backend: SevenZipBackend,
    archive: PathBuf,
    command: BackendCommand,
)
    requires
        lists_with(backend.called(), backend.list_arguments(archive.text()), command),
    ensures
        command.program == backend.program,
        exists|end: int| #[trigger]
            lists_fields(byte_names(command.arguments@), end, archive.text()),
{
    let words = byte_names(command.arguments@);
    reveal_strlit("l");
    reveal_strlit("-ba");
    reveal_strlit("-slt");
    reveal_strlit("-sccUTF-8");
    reveal_strlit("-p");
    reveal_strlit("-spd");
    reveal_strlit("--");
    lemma_ascii_text("l"@, seq![108u8]);
    lemma_ascii_text("-ba"@, seq![45u8, 98, 97]);
    lemma_ascii_text("-slt"@, seq![45u8, 115, 108, 116]);
    lemma_ascii_text("-sccUTF-8"@, seq![45u8, 115, 99, 99, 85, 84, 70, 45, 56]);
    lemma_ascii_text("-p"@, seq![45u8, 112]);
    lemma_ascii_text("-spd"@, seq![45u8, 115, 112, 100]);
    lemma_ascii_text("--"@, seq![45u8, 45]);
    assert(words[0] == seq![108u8]);
    assert(words[1] == seq![45u8, 98, 97]);
    assert(words[2] == seq![45u8, 115, 108, 116]);
    assert(words[3] == seq![45u8, 115, 99, 99, 85, 84, 70, 45, 56]);
    assert(words[4] == seq![45u8, 112]);
    assert(words[5] == seq![45u8, 115, 112, 100]);
    assert(words[6] == seq![45u8, 45]);
    assert forall|i: int| 0 <= i < 6 implies #[trigger] words[i] != end_of_options() by {
        lemma_words_differ(words[i], end_of_options());
    }
    assert(options_end(words, 6));
    lemma_one_option(words, 6, seq![45u8, 115, 108], 2);
    lemma_one_option(words, 6, seq![45u8, 98], 1);
    lemma_one_option(words, 6, seq![45u8, 115, 99], 3);
    lemma_one_option(words, 6, seq![45u8, 112], 4);
    lemma_one_option(words, 6, seq![45u8, 115, 112], 5);
    assert forall|i: int| 0 < i < 6 implies seq![45u8].is_prefix_of(#[trigger] words[i]) by {
        assert(words[i].subrange(0, 1) =~= seq![45u8]);
    }
    assert(words.skip(7) =~= seq![archive.text()]);
    assert(lists_fields(words, 6, archive.text()));
}

/// What the archive program said, and how it ended.
#[derive(Debug)]
pub struct CommandOutput {
    pub success: bool,
    /// How it ended, in the system's words.
    pub status: String,
    pub stdout: Vec<u8>,
    pub stdout_truncated: bool,
    pub stderr: Vec<u8>,
}

/// What is quoted of what a failed program printed.
pub open spec fn diagnostics(stdout: Seq<u8>, stderr: Seq<u8>) -> Seq<char> {
    let said = trimmed(
        encode_utf8(
            utf8_lossy(
                if stderr.len() == 0 {
                    stdout
                } else {
                    stderr
                },
            ),
        ),
    );
    if said.len() == 0 {
        "no diagnostics"@
    } else {
        utf8_lossy(said)
    }
}

/// What a failed call of the archive program is reported as.
pub open spec fn backend_failure(
    output: CommandOutput,
    action: Seq<char>,
    path: Seq<u8>,
) -> Seq<char> {
    about(
        "Could not "@ + action + " "@,
        path,
        " (archive backend exited with "@ + output.status@ + "): "@ + diagnostics(
            output.stdout@,
            output.stderr@,
        ),
    )
}

impl CommandOutput {
    pub fn require_success(&self, action: &str, path: &PathBuf) -> (verdict: Result<(), String>)
        ensures
            match verdict {
                Ok(_) => self.success,
                Err(message) => !self.success && message@ == backend_failure(
                    *self,
                    action@,
                    path.text(),
                ),
            },
    {
        if self.success {
            return Ok(());
        }
        let text = if self.stderr.len() == 0 {
            lossy(self.stdout.as_slice())
        } else {
            lossy(self.stderr.as_slice())
        };
        let said = trim_bytes(text.as_str().as_bytes());
        let mut before = "Could not ".to_owned();
        before.append(action);
        before.append(" ");
        let mut after = " (archive backend exited with ".to_owned();
        after.append(self.status.as_str());
        after.append("): ");
        if said.len() == 0 {
            after.append("no diagnostics");
        } else {
            let quoted = lossy(said);
            after.append(quoted.as_str());
        }
        Err(message_about(before.as_str(), path, after.as_str()))
    }
}

/// What a listing call gave.
pub open spec fn listed_by(output: CommandOutput, archive: Seq<u8>) -> Result<
    Seq<EntryModel>,
    Seq<char>,
> {
    if !output.success {
        Err(backend_failure(output, "inspect"@, archive))
    } else if output.stdout_truncated {
        Err("Archive listing exceeds Marcel's "@ + decimal(64) + " MiB safety limit"@)
    } else if !valid_utf8(output.stdout@) {
        Err("Archive backend returned non-UTF-8 listing output"@)
    } else {
        listing_of(encode_utf8(decode_utf8(output.stdout@)))
    }
}

/// What a listing call gave.
pub fn read_listing(output: &CommandOutput, archive: &PathBuf) -> (result: Result<
    Vec<ArchiveEntry>,
    String,
>)
    ensures
        match result {
            Ok(entries) => listed_by(*output, archive.text()) matches Ok(listed) && entries_say(
                entries@,
                listed,
            ),
            Err(message) => listed_by(*output, archive.text()) == Err::<Seq<EntryModel>, Seq<char>>(
                message@,
            ),
        },
{
    match output.require_success("inspect", archive) {
        Ok(_) => {},
        Err(message) => {
            return Err(message);
        },
    }
    if output.stdout_truncated {
        let mut message = "Archive listing exceeds Marcel's ".to_owned();
        push_decimal(&mut message, (MAX_LISTING_OUTPUT / 1024 / 1024) as u64);
        message.append(" MiB safety limit");
        return Err(message);
    }
    match strict(output.stdout.as_slice()) {
        Some(text) => parse_listing(text.as_str()),
        None => Err("Archive backend returned non-UTF-8 listing output".to_owned()),
    }
}

/// Whether `stop` says why the archive program has to be stopped.
pub open spec fn stops(
    cancelled: bool,
    monitored: Option<Result<(), String>>,
    stop: Option<String>,
) -> bool {
    if cancelled {
        stop matches Some(message) && message@ == "Archive operation cancelled"@
    } else {
        stop == match monitored {
            Some(Err(why)) => Some(why),
            _ => None,
        }
    }
}

/// Why the archive program has to be stopped, if it has: the operation was
/// abandoned, or what it has staged is refused.
pub fn supervise(cancelled: bool, monitored: Option<Result<(), String>>) -> (stop: Option<String>)
    ensures
        stops(cancelled, monitored, stop),
{
    if cancelled {
        return Some("Archive operation cancelled".to_owned());
    }
    match monitored {
        Some(Err(why)) => Some(why),
        _ => None,
    }
}

pub fn check_cancelled(cancelled: bool) -> (verdict: Result<(), String>)
    ensures
        match verdict {
            Ok(_) => !cancelled,
            Err(message) => cancelled && message@ == "Archive operation cancelled"@,
        },
{
    if cancelled {
        Err("Archive operation cancelled".to_owned())
    } else {
        Ok(())
    }
}

/// What was kept of a program's output.
#[derive(Debug)]
pub struct CapturedOutput {
    pub bytes: Vec<u8>,
    pub truncated: bool,
}

/// The first bytes of everything that came, at most `limit` of them.
pub open spec fn kept_of(all: Seq<u8>, limit: nat) -> Seq<u8> {
    if all.len() <= limit {
        all
    } else {
        all.take(limit as int)
    }
}

/// Everything that came, in one piece.
pub open spec fn joined(chunks: Seq<Vec<u8>>) -> Seq<u8>
    decreases chunks.len(),
{
    if chunks.len() == 0 {
        Seq::empty()
    } else {
        joined(chunks.drop_last()) + chunks.last()@
    }
}

impl CapturedOutput {
    pub fn new() -> (capture: CapturedOutput)
        ensures
            capture.bytes@.len() == 0,
            !capture.truncated,
    {
        CapturedOutput { bytes: Vec::new(), truncated: false }
    }

    /// Takes in what was read, as far as there is room for it.
    pub fn take_in(&mut self, chunk: &[u8], limit: usize)
        requires
            old(self).bytes@.len() <= limit,
        ensures
            ({
                let room = limit - old(self).bytes@.len();
                &&& final(self).bytes@ == old(self).bytes@ + kept_of(chunk@, room as nat)
                &&& final(self).truncated == (old(self).truncated || chunk@.len() > room)
                &&& final(self).bytes@.len() <= limit
            }),
    {
        let remaining: usize = limit.saturating_sub(self.bytes.len());
        let kept: usize = if chunk.len() < remaining { chunk.len() } else { remaining };
        let part = vstd::slice::slice_subrange(chunk, 0, kept);
        assert(part@ =~= kept_of(chunk@, remaining as nat));
        push_bytes(&mut self.bytes, part);
        if chunk.len() > remaining {
            self.truncated = true;
        }
    }
}

/// What is kept of everything read from a program: the first `limit` bytes,
/// and whether there were more.
pub fn read_bounded(chunks: &Vec<Vec<u8>>, limit: usize) -> (capture: CapturedOutput)
    ensures
        capture.bytes@ == kept_of(joined(chunks@), limit as nat),
        capture.truncated == (joined(chunks@).len() > limit),
{
    let mut capture = CapturedOutput::new();
    let mut i: usize = 0;
    assert(chunks@.take(0) =~= Seq::empty());
    assert(capture.bytes@ =~= Seq::empty());
    while i < chunks.len()
        invariant
            i <= chunks@.len(),
            capture.bytes@.len() <= limit,
            capture.bytes@ == kept_of(joined(chunks@.take(i as int)), limit as nat),
            capture.truncated == (joined(chunks@.take(i as int)).len() > limit),
        decreases chunks.len() - i,
    {
        let ghost before = joined(chunks@.take(i as int));
        proof {
            assert(chunks@.take(i + 1).drop_last() =~= chunks@.take(i as int));
            assert(chunks@.take(i + 1).last() == chunks@[i as int]);
        }
        let ghost kept = capture.bytes@;
        capture.take_in(chunks[i].as_slice(), limit);
        proof {
            let all = before + chunks@[i as int]@;
            assert(kept + kept_of(chunks@[i as int]@, (limit - kept.len()) as nat) =~= kept_of(
                all,
                limit as nat,
            ));
        }
        i += 1;
    }
    assert(chunks@.take(i as int) =~= chunks@);
    capture
}

/// Whether an object can be run as a program.
pub fn is_executable(found: Option<Metadata>) -> (yes: bool)
    ensures
        yes == (found matches Some(metadata) && metadata.kind is File && metadata.mode & 0o111u32
            != 0),
{
    match found {
        Some(metadata) => metadata.kind == SnapshotKind::File && metadata.mode & 0o111u32 != 0,
        None => false,
    }
}

/// The directories a search path names.
pub open spec fn directories_in(path: Seq<u8>) -> Seq<Seq<u8>>
    decreases path.len(),
{
    if path.len() == 0 {
        seq![Seq::<u8>::empty()]
    } else {
        let before = directories_in(path.drop_last());
        if path.last() == 58 {
            before.push(Seq::<u8>::empty())
        } else {
            before.drop_last().push(before.last().push(path.last()))
        }
    }
}

fn split_search_path(path: &[u8]) -> (directories: Vec<Vec<u8>>)
    ensures
        byte_names(directories@) == directories_in(path@),
        directories@.len() > 0,
{
    let mut directories: Vec<Vec<u8>> = Vec::new();
    let mut current: Vec<u8> = Vec::new();
    let mut i: usize = 0;
    assert(path@.take(0) =~= Seq::empty());
    assert(byte_names(directories@).push(current@) =~= seq![Seq::<u8>::empty()]);
    while i < path.len()
        invariant
            i <= path@.len(),
            byte_names(directories@).push(current@) == directories_in(path@.take(i as int)),
        decreases path.len() - i,
    {
        let ghost before = byte_names(directories@);
        let ghost sofar = directories_in(path@.take(i as int));
        proof {
            assert(path@.take(i + 1).drop_last() =~= path@.take(i as int));
            assert(path@.take(i + 1).last() == path@[i as int]);
            assert(sofar.drop_last() =~= before);
            assert(sofar.last() == current@);
        }
        if path[i] == 58 {
            push_raw(&mut directories, current);
            current = Vec::new();
            assert(current@ =~= Seq::empty());
        } else {
            current.push(path[i]);
        }
        i += 1;
    }
    assert(path@.take(i as int) =~= path@);
    push_raw(&mut directories, current);
    directories
}

/// Where the archive program is looked for.
#[derive(Debug)]
pub enum Discovery {
    /// The user named it.
    Override(PathBuf),
    /// The first of these that can be run.
    Search(Vec<PathBuf>),
}

/// `libexec/marcel/7zz` beside the directory the executable is in.
pub open spec fn private_program(executable: PathModel) -> Option<PathModel> {
    match executable.parent() {
        None => None,
        Some(directory) => match directory.parent() {
            None => None,
            Some(prefix) => Some(prefix.join(encode_utf8("libexec/marcel/7zz"@))),
        },
    }
}

/// A program in each directory of a search path.
pub open spec fn on_path(name: Seq<char>, path: Option<Seq<u8>>) -> Seq<PathModel> {
    match path {
        None => Seq::empty(),
        Some(path) => directories_in(path).map_values(
            |directory: Seq<u8>| crate::path::parsed(directory).join(encode_utf8(name)),
        ),
    }
}

/// Where the program is looked for, in order: beside the executable, then by
/// its own name and by its older one in every directory of the search path.
pub open spec fn searched(executable: PathModel, path: Option<Seq<u8>>) -> Seq<PathModel> {
    (match private_program(executable) {
        Some(program) => seq![program],
        None => Seq::empty(),
    }) + on_path("7zz"@, path) + on_path("7z"@, path)
}

fn push_on_path(found: &mut Vec<PathBuf>, name: &str, path: Option<&[u8]>)
    ensures
        models(final(found)@) == models(old(found)@) + on_path(
            name@,
            match path {
                Some(path) => Some(path@),
                None => None,
            },
        ),
{
    let ghost start = models(found@);
    let text = match path {
        Some(path) => path,
        None => {
            assert(start + Seq::<PathModel>::empty() =~= start);
            return;
        },
    };
    let directories = split_search_path(text);
    let ghost all = on_path(name@, Some(text@));
    let mut i: usize = 0;
    assert(start + all.take(0) =~= start);
    while i < directories.len()
        invariant
            i <= directories@.len(),
            byte_names(directories@) == directories_in(text@),
            all == on_path(name@, Some(text@)),
            models(found@) == start + all.take(i as int),
        decreases directories.len() - i,
    {
        let ghost before = found@;
        let directory = PathBuf::from_bytes(directories[i].as_slice());
        found.push(directory.join(name.as_bytes()));
        proof {
            assert(byte_names(directories@)[i as int] == directories@[i as int]@);
            assert(models(found@) =~= models(before).push(all[i as int]));
            assert(all.take(i + 1) =~= all.take(i as int).push(all[i as int]));
        }
        i += 1;
    }
    assert(all.take(i as int) =~= all);
}

/// Whether `discovery` says where the archive program is looked for.
pub open spec fn looks_for(
    override_program: Option<&[u8]>,
    executable: PathModel,
    path: Option<&[u8]>,
    discovery: Discovery,
) -> bool {
    match override_program {
        Some(program) if program@.len() > 0 => discovery matches Discovery::Override(named)
            && named@ == crate::path::parsed(program@),
        _ => discovery matches Discovery::Search(candidates) && models(candidates@) == searched(
            executable,
            match path {
                Some(path) => Some(path@),
                None => None,
            },
        ),
    }
}

/// Where the archive program is looked for: where the user says, else beside
/// the executable, else on the search path.
pub fn discover(override_program: Option<&[u8]>, executable: &PathBuf, path: Option<&[u8]>) -> (
    discovery: Discovery)
    ensures
        looks_for(override_program, executable@, path, discovery),
{
    match override_program {
        Some(program) => {
            if program.len() > 0 {
                return Discovery::Override(PathBuf::from_bytes(program));
            }
        },
        None => {},
    }
    let mut candidates: Vec<PathBuf> = Vec::new();
    match executable.parent() {
        Some(directory) => match directory.parent() {
            Some(prefix) => {
                candidates.push(prefix.join("libexec/marcel/7zz".as_bytes()));
            },
            None => {},
        },
        None => {},
    }
    assert(models(candidates@) =~= match private_program(executable@) {
        Some(program) => seq![program],
        None => Seq::empty(),
    });
    push_on_path(&mut candidates, "7zz", path);
    push_on_path(&mut candidates, "7z", path);
    Discovery::Search(candidates)
}

/// Whether the first place with a program that can be run is the `i`th.
pub open spec fn first_runnable(
    candidates: Seq<PathBuf>,
    executable: Seq<bool>,
    i: int,
) -> bool {
    &&& 0 <= i < candidates.len()
    &&& i < executable.len()
    &&& executable[i]
    &&& forall|j: int| 0 <= j < i ==> !#[trigger] executable[j]
}

fn find_runnable(candidates: &Vec<PathBuf>, executable: &Vec<bool>) -> (program: Option<PathBuf>)
    ensures
        match program {
            Some(program) => exists|i: int| #[trigger]
                first_runnable(candidates@, executable@, i) && candidates@[i] == program,
            None => forall|i: int| !first_runnable(candidates@, executable@, i),
        },
{
    let mut i: usize = 0;
    while i < candidates.len() && i < executable.len()
        invariant
            i <= candidates@.len(),
            i <= executable@.len(),
            forall|j: int| 0 <= j < i ==> !#[trigger] executable@[j],
        decreases candidates.len() - i,
    {
        if executable[i] {
            assert(first_runnable(candidates@, executable@, i as int));
            return Some(candidates[i].clone());
        }
        i += 1;
    }
    None
}

/// Whether `result` is the program that is used, by what can be run.
pub open spec fn finds(
    discovery: Discovery,
    executable: Seq<bool>,
    result: Result<PathBuf, String>,
) -> bool {
    match discovery {
        Discovery::Override(program) => if executable.len() > 0 && executable[0] {
            result == Ok::<PathBuf, String>(program)
        } else {
            result matches Err(message) && message@ == about(
                "MARCEL_7ZZ points to an unavailable program "@,
                program.text(),
                ": file does not exist or is not executable"@,
            )
        },
        Discovery::Search(candidates) => match result {
            Ok(program) => exists|i: int| #[trigger]
                first_runnable(candidates@, executable, i) && candidates@[i] == program,
            Err(message) => (forall|i: int| !first_runnable(candidates@, executable, i))
                && message@
                == "Archive support is unavailable because 7-Zip was not found; install `7zz` or set MARCEL_7ZZ"@,
        },
    }
}

/// The program that is used: `executable` says of each place whether there is
/// a program that can be run.
pub fn discover_with(discovery: Discovery, executable: &Vec<bool>) -> (result: Result<
    PathBuf,
    String,
>)
    ensures
        finds(discovery, executable@, result),
{
    match discovery {
        Discovery::Override(program) => {
            if executable.len() > 0 && executable[0] {
                return Ok(program);
            }
            Err(
                message_about(
                    "MARCEL_7ZZ points to an unavailable program ",
                    &program,
                    ": file does not exist or is not executable",
                ),
            )
        },
        Discovery::Search(candidates) => {
            match find_runnable(&candidates, executable) {
                Some(program) => {
                    return Ok(program);
                },
                None => {},
            }
            Err(
                "Archive support is unavailable because 7-Zip was not found; install `7zz` or set MARCEL_7ZZ".to_owned(),
            )
        },
    }
}

} // verus!
