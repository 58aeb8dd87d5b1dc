//! What archives are called, how far they may go, and where what comes out of
//! them is put.

use vstd::prelude::*;
use vstd::utf8::encode_utf8;

use crate::fsops::archive::{
    compound_tar_extensions, has_extension, is_one_of, known_extension, last_dot, lower_name,
    names_archive, names_compound_tar, peeled, rar_extensions, says_yes, supported_extensions,
    zip_name, ArchiveEntry, ArchiveOutcome, Budget,
};
use crate::fsops::compress::{
    begins_compression, SelectionEntryStep, SelectionInspect, SelectionStep, SelectionWalk,
    SourceInspect, SourceStep, StagedZip, ZipPublish, ZipWanted,
};
use crate::fsops::conflict::extension_start;
use crate::fsops::extract::{
    ExtractMeasure, ExtractWanted, ExtractedStep, ExtractedWalk, PublishExtracted, PublishMerge,
    PublishQuarantine, PublishRename, PublishStep, PublishedStep, StagedDirectory, StagedEntry,
    StagedInspect, TopLevelError, TopLevelWanted,
};
use crate::fsops::journal::{CommittedOperation, OperationRecord, PathSnapshot, ReplacedItem};
use crate::fsops::local::{Lookup, Name};
use crate::fsops::merge::MergeOutcome;
use crate::fsops::mutations::{is_blank, name_refusal, working_name_prefix};
use crate::fsops::plan::SourcePlan;
use crate::path::{PathBuf, PathModel};
use crate::text::{
    all_spaces, ascii_lower, is_printed, lemma_ascii_text, lemma_trimming_keeps_the_text, utf8_lossy,
};

verus! {

/// The words that follow the last dot in the names of archives, byte by byte.
#[verifier::opaque]
pub open spec fn archive_words() -> Seq<Seq<u8>> {
    seq![
        seq![55u8, 122],
        seq![97u8, 112, 107],
        seq![98u8, 122, 50],
        seq![98u8, 122, 105, 112, 50],
        seq![99u8, 97, 98],
        seq![99u8, 98, 55],
        seq![99u8, 98, 122],
        seq![99u8, 112, 105, 111],
        seq![100u8, 101, 98],
        seq![100u8, 109, 103],
        seq![103u8, 122],
        seq![103u8, 122, 105, 112],
        seq![105u8, 109, 103],
        seq![105u8, 115, 111],
        seq![106u8, 97, 114],
        seq![108u8, 122, 109, 97],
        seq![114u8, 112, 109],
        seq![115u8, 113, 117, 97, 115, 104, 102, 115],
        seq![116u8, 97, 114],
        seq![116u8, 98, 122],
        seq![116u8, 98, 122, 50],
        seq![116u8, 103, 122],
        seq![116u8, 120, 122],
        seq![118u8, 104, 100],
        seq![118u8, 104, 100, 120],
        seq![119u8, 105, 109],
        seq![120u8, 97, 114],
        seq![120u8, 122],
        seq![122u8, 105, 112],
        seq![122u8, 115, 116],
    ]
}

/// The words of the archives whose decoder may be left out.
#[verifier::opaque]
pub open spec fn rar_words() -> Seq<Seq<u8>> {
    seq![seq![114u8, 97, 114], seq![99u8, 98, 114]]
}

/// How the names of compressed tars end.
#[verifier::opaque]
pub open spec fn tar_endings() -> Seq<Seq<u8>> {
    seq![
        seq![46u8, 116, 97, 114, 46, 98, 122, 50],
        seq![46u8, 116, 97, 114, 46, 103, 122],
        seq![46u8, 116, 97, 114, 46, 120, 122],
        seq![46u8, 116, 97, 114, 46, 122, 115, 116],
        seq![46u8, 116, 98, 122],
        seq![46u8, 116, 98, 122, 50],
        seq![46u8, 116, 103, 122],
        seq![46u8, 116, 120, 122],
    ]
}

/// Whether a byte string has another at its end.
pub open spec fn closes_with(bytes: Seq<u8>, tail: Seq<u8>) -> bool {
    exists|stem: Seq<u8>| bytes == #[trigger] (stem + tail)
}

/// Whether a byte string has one of some endings, after a dot.
pub open spec fn closes_with_word(bytes: Seq<u8>, words: Seq<Seq<u8>>) -> bool {
    exists|i: int| 0 <= i < words.len() && closes_with(bytes, seq![46u8] + #[trigger] words[i])
}

/// Whether a byte string is another with its letters made small.
pub open spec fn lowered(bytes: Seq<u8>, lower: Seq<u8>) -> bool {
    lower.len() == bytes.len() && forall|i: int| #![trigger lower[i]]
        0 <= i < bytes.len() ==> lower[i] == (if 65 <= bytes[i] <= 90 {
            bytes[i] + 32
        } else {
            bytes[i] as int
        })
}

proof fn lemma_words_before_the_middle()
    ensures
        supported_extensions().len() == archive_words().len(),
        forall|i: int| 0 <= i < 15 ==> encode_utf8(#[trigger] supported_extensions()[i])
            == archive_words()[i],
{
    reveal(supported_extensions);
    reveal(archive_words);
    assert(encode_utf8(supported_extensions()[0]) == archive_words()[0]) by {
        reveal_strlit("7z");
        lemma_ascii_text("7z"@, seq![55u8, 122]);
    }
    assert(encode_utf8(supported_extensions()[1]) == archive_words()[1]) by {
        reveal_strlit("apk");
        lemma_ascii_text("apk"@, seq![97u8, 112, 107]);
    }
    assert(encode_utf8(supported_extensions()[2]) == archive_words()[2]) by {
        reveal_strlit("bz2");
        lemma_ascii_text("bz2"@, seq![98u8, 122, 50]);
    }
    assert(encode_utf8(supported_extensions()[3]) == archive_words()[3]) by {
        reveal_strlit("bzip2");
        lemma_ascii_text("bzip2"@, seq![98u8, 122, 105, 112, 50]);
    }
    assert(encode_utf8(supported_extensions()[4]) == archive_words()[4]) by {
        reveal_strlit("cab");
        lemma_ascii_text("cab"@, seq![99u8, 97, 98]);
    }
    assert(encode_utf8(supported_extensions()[5]) == archive_words()[5]) by {
        reveal_strlit("cb7");
        lemma_ascii_text("cb7"@, seq![99u8, 98, 55]);
    }
    assert(encode_utf8(supported_extensions()[6]) == archive_words()[6]) by {
        reveal_strlit("cbz");
        lemma_ascii_text("cbz"@, seq![99u8, 98, 122]);
    }
    assert(encode_utf8(supported_extensions()[7]) == archive_words()[7]) by {
        reveal_strlit("cpio");
        lemma_ascii_text("cpio"@, seq![99u8, 112, 105, 111]);
    }
    assert(encode_utf8(supported_extensions()[8]) == archive_words()[8]) by {
        reveal_strlit("deb");
        lemma_ascii_text("deb"@, seq![100u8, 101, 98]);
    }
    assert(encode_utf8(supported_extensions()[9]) == archive_words()[9]) by {
        reveal_strlit("dmg");
        lemma_ascii_text("dmg"@, seq![100u8, 109, 103]);
    }
    assert(encode_utf8(supported_extensions()[10]) == archive_words()[10]) by {
        reveal_strlit("gz");
        lemma_ascii_text("gz"@, seq![103u8, 122]);
    }
    assert(encode_utf8(supported_extensions()[11]) == archive_words()[11]) by {
        reveal_strlit("gzip");
        lemma_ascii_text("gzip"@, seq![103u8, 122, 105, 112]);
    }
    assert(encode_utf8(supported_extensions()[12]) == archive_words()[12]) by {
        reveal_strlit("img");
        lemma_ascii_text("img"@, seq![105u8, 109, 103]);
    }
    assert(encode_utf8(supported_extensions()[13]) == archive_words()[13]) by {
        reveal_strlit("iso");
        lemma_ascii_text("iso"@, seq![105u8, 115, 111]);
    }
    assert(encode_utf8(supported_extensions()[14]) == archive_words()[14]) by {
        reveal_strlit("jar");
        lemma_ascii_text("jar"@, seq![106u8, 97, 114]);
    }
}

proof fn lemma_words_after_the_middle()
    ensures
        forall|i: int| 15 <= i < archive_words().len() ==> encode_utf8(
            #[trigger] supported_extensions()[i],
        ) == archive_words()[i],
{
    reveal(supported_extensions);
    reveal(archive_words);
    assert(encode_utf8(supported_extensions()[15]) == archive_words()[15]) by {
        reveal_strlit("lzma");
        lemma_ascii_text("lzma"@, seq![108u8, 122, 109, 97]);
    }
    assert(encode_utf8(supported_extensions()[16]) == archive_words()[16]) by {
        reveal_strlit("rpm");
        lemma_ascii_text("rpm"@, seq![114u8, 112, 109]);
    }
    assert(encode_utf8(supported_extensions()[17]) == archive_words()[17]) by {
        reveal_strlit("squashfs");
        lemma_ascii_text("squashfs"@, seq![115u8, 113, 117, 97, 115, 104, 102, 115]);
    }
    assert(encode_utf8(supported_extensions()[18]) == archive_words()[18]) by {
        reveal_strlit("tar");
        lemma_ascii_text("tar"@, seq![116u8, 97, 114]);
    }
    assert(encode_utf8(supported_extensions()[19]) == archive_words()[19]) by {
        reveal_strlit("tbz");
        lemma_ascii_text("tbz"@, seq![116u8, 98, 122]);
    }
    assert(encode_utf8(supported_extensions()[20]) == archive_words()[20]) by {
        reveal_strlit("tbz2");
        lemma_ascii_text("tbz2"@, seq![116u8, 98, 122, 50]);
    }
    assert(encode_utf8(supported_extensions()[21]) == archive_words()[21]) by {
        reveal_strlit("tgz");
        lemma_ascii_text("tgz"@, seq![116u8, 103, 122]);
    }
    assert(encode_utf8(supported_extensions()[22]) == archive_words()[22]) by {
        reveal_strlit("txz");
        lemma_ascii_text("txz"@, seq![116u8, 120, 122]);
    }
    assert(encode_utf8(supported_extensions()[23]) == archive_words()[23]) by {
        reveal_strlit("vhd");
        lemma_ascii_text("vhd"@, seq![118u8, 104, 100]);
    }
    assert(encode_utf8(supported_extensions()[24]) == archive_words()[24]) by {
        reveal_strlit("vhdx");
        lemma_ascii_text("vhdx"@, seq![118u8, 104, 100, 120]);
    }
    assert(encode_utf8(supported_extensions()[25]) == archive_words()[25]) by {
        reveal_strlit("wim");
        lemma_ascii_text("wim"@, seq![119u8, 105, 109]);
    }
    assert(encode_utf8(supported_extensions()[26]) == archive_words()[26]) by {
        reveal_strlit("xar");
        lemma_ascii_text("xar"@, seq![120u8, 97, 114]);
    }
    assert(encode_utf8(supported_extensions()[27]) == archive_words()[27]) by {
        reveal_strlit("xz");
        lemma_ascii_text("xz"@, seq![120u8, 122]);
    }
    assert(encode_utf8(supported_extensions()[28]) == archive_words()[28]) by {
        reveal_strlit("zip");
        lemma_ascii_text("zip"@, seq![122u8, 105, 112]);
    }
    assert(encode_utf8(supported_extensions()[29]) == archive_words()[29]) by {
        reveal_strlit("zst");
        lemma_ascii_text("zst"@, seq![122u8, 115, 116]);
    }
}

proof fn lemma_rar_words()
    ensures
        rar_extensions().len() == rar_words().len(),
        forall|i: int| 0 <= i < rar_words().len() ==> encode_utf8(#[trigger] rar_extensions()[i])
            == rar_words()[i],
{
    reveal(rar_words);
    assert(encode_utf8(rar_extensions()[0]) == rar_words()[0]) by {
        reveal_strlit("rar");
        lemma_ascii_text("rar"@, seq![114u8, 97, 114]);
    }
    assert(encode_utf8(rar_extensions()[1]) == rar_words()[1]) by {
        reveal_strlit("cbr");
        lemma_ascii_text("cbr"@, seq![99u8, 98, 114]);
    }
}

proof fn lemma_tar_endings()
    ensures
        compound_tar_extensions().len() == tar_endings().len(),
        forall|i: int| 0 <= i < tar_endings().len() ==> encode_utf8(
            #[trigger] compound_tar_extensions()[i],
        ) == tar_endings()[i],
{
    reveal(tar_endings);
    assert(encode_utf8(compound_tar_extensions()[0]) == tar_endings()[0]) by {
        reveal_strlit(".tar.bz2");
        lemma_ascii_text(".tar.bz2"@, seq![46u8, 116, 97, 114, 46, 98, 122, 50]);
    }
    assert(encode_utf8(compound_tar_extensions()[1]) == tar_endings()[1]) by {
        reveal_strlit(".tar.gz");
        lemma_ascii_text(".tar.gz"@, seq![46u8, 116, 97, 114, 46, 103, 122]);
    }
    assert(encode_utf8(compound_tar_extensions()[2]) == tar_endings()[2]) by {
        reveal_strlit(".tar.xz");
        lemma_ascii_text(".tar.xz"@, seq![46u8, 116, 97, 114, 46, 120, 122]);
    }
    assert(encode_utf8(compound_tar_extensions()[3]) == tar_endings()[3]) by {
        reveal_strlit(".tar.zst");
        lemma_ascii_text(".tar.zst"@, seq![46u8, 116, 97, 114, 46, 122, 115, 116]);
    }
    assert(encode_utf8(compound_tar_extensions()[4]) == tar_endings()[4]) by {
        reveal_strlit(".tbz");
        lemma_ascii_text(".tbz"@, seq![46u8, 116, 98, 122]);
    }
    assert(encode_utf8(compound_tar_extensions()[5]) == tar_endings()[5]) by {
        reveal_strlit(".tbz2");
        lemma_ascii_text(".tbz2"@, seq![46u8, 116, 98, 122, 50]);
    }
    assert(encode_utf8(compound_tar_extensions()[6]) == tar_endings()[6]) by {
        reveal_strlit(".tgz");
        lemma_ascii_text(".tgz"@, seq![46u8, 116, 103, 122]);
    }
    assert(encode_utf8(compound_tar_extensions()[7]) == tar_endings()[7]) by {
        reveal_strlit(".txz");
        lemma_ascii_text(".txz"@, seq![46u8, 116, 120, 122]);
    }
}

proof fn lemma_closes_with(bytes: Seq<u8>, tail: Seq<u8>)
    ensures
        closes_with(bytes, tail) <==> crate::fsops::archive::ends_with(bytes, tail),
{
    if crate::fsops::archive::ends_with(bytes, tail) {
        let stem = bytes.take(bytes.len() - tail.len());
        assert(bytes =~= stem + tail);
    }
    if closes_with(bytes, tail) {
        let stem = choose|stem: Seq<u8>| bytes == #[trigger] (stem + tail);
        assert((stem + tail).skip(stem.len() as int) =~= tail);
    }
}

proof fn lemma_closes_with_word(name: Seq<u8>, texts: Seq<Seq<char>>, words: Seq<Seq<u8>>)
    requires
        texts.len() == words.len(),
        forall|i: int| 0 <= i < words.len() ==> encode_utf8(#[trigger] texts[i]) == words[i],
    ensures
        closes_with_word(name, words) <==> crate::fsops::archive::ends_with_any(
            name,
            seq![46u8],
            texts,
        ),
{
    assert forall|i: int| 0 <= i < words.len() implies (closes_with(
        name,
        seq![46u8] + #[trigger] words[i],
    ) <==> crate::fsops::archive::ends_with(name, seq![46u8] + encode_utf8(texts[i]))) by {
        lemma_closes_with(name, seq![46u8] + words[i]);
    }
    if closes_with_word(name, words) {
        let i = choose|i: int|
            0 <= i < words.len() && closes_with(name, seq![46u8] + #[trigger] words[i]);
        assert(crate::fsops::archive::ends_with(name, seq![46u8] + encode_utf8(texts[i])));
    }
    if crate::fsops::archive::ends_with_any(name, seq![46u8], texts) {
        let i = choose|i: int|
            0 <= i < texts.len() && crate::fsops::archive::ends_with(
                name,
                seq![46u8] + encode_utf8(#[trigger] texts[i]),
            );
        assert(closes_with(name, seq![46u8] + words[i]));
    }
}

/// A file can be extracted exactly where its name, letters made small, ends
/// with a dot and a word of an archive; RAR only where it is supported.
pub proof fn lemma_archives_are_told_by_their_names(path: PathModel, rar_supported: bool)
    ensures
        names_archive(path, rar_supported) <==> (closes_with_word(
            lower_name(path),
            archive_words(),
        ) || (rar_supported && closes_with_word(lower_name(path), rar_words()))),
        path.file_name() matches Some(name) ==> lowered(
            encode_utf8(utf8_lossy(name)),
            lower_name(path),
        ),
{
    lemma_words_before_the_middle();
    lemma_words_after_the_middle();
    lemma_rar_words();
    lemma_closes_with_word(lower_name(path), supported_extensions(), archive_words());
    lemma_closes_with_word(lower_name(path), rar_extensions(), rar_words());
    assert(seq![crate::path::DOT] =~= seq![46u8]);
}

/// A compressed tar is told by how its name, letters made small, ends.
pub proof fn lemma_compressed_tars_are_told_by_their_names(path: PathModel)
    ensures
        names_compound_tar(path) <==> exists|i: int|
            0 <= i < tar_endings().len() && closes_with(
                lower_name(path),
                #[trigger] tar_endings()[i],
            ),
{
    lemma_tar_endings();
    let name = lower_name(path);
    let texts = compound_tar_extensions();
    assert forall|i: int| 0 <= i < texts.len() implies (closes_with(
        name,
        #[trigger] tar_endings()[i],
    ) <==> crate::fsops::archive::ends_with(name, Seq::empty() + encode_utf8(texts[i]))) by {
        lemma_closes_with(name, tar_endings()[i]);
        assert(Seq::empty() + encode_utf8(texts[i]) =~= tar_endings()[i]);
    }
    if names_compound_tar(path) {
        let i = choose|i: int|
            0 <= i < texts.len() && crate::fsops::archive::ends_with(
                name,
                Seq::empty() + encode_utf8(#[trigger] texts[i]),
            );
        assert(closes_with(name, tar_endings()[i]));
    }
    if exists|i: int|
        0 <= i < tar_endings().len() && closes_with(name, #[trigger] tar_endings()[i]) {
        let i = choose|i: int|
            0 <= i < tar_endings().len() && closes_with(name, #[trigger] tar_endings()[i]);
        assert(crate::fsops::archive::ends_with(name, Seq::empty() + encode_utf8(texts[i])));
    }
}

/// Whether a word, its letters made small, is one of an archive.
pub open spec fn is_archive_word(word: Seq<u8>) -> bool {
    archive_words().contains(ascii_lower(word)) || rar_words().contains(ascii_lower(word))
}

proof fn lemma_known_words(word: Seq<u8>)
    ensures
        known_extension(word) <==> is_archive_word(word),
{
    lemma_words_before_the_middle();
    lemma_words_after_the_middle();
    lemma_rar_words();
    let lower = ascii_lower(word);
    if archive_words().contains(lower) {
        let i = choose|i: int| 0 <= i < archive_words().len() && archive_words()[i] == lower;
        assert(lower == encode_utf8(supported_extensions()[i]));
    }
    if rar_words().contains(lower) {
        let i = choose|i: int| 0 <= i < rar_words().len() && rar_words()[i] == lower;
        assert(lower == encode_utf8(rar_extensions()[i]));
    }
    if is_one_of(lower, supported_extensions()) {
        let i = choose|i: int|
            0 <= i < supported_extensions().len() && lower == encode_utf8(
                #[trigger] supported_extensions()[i],
            );
        assert(archive_words()[i] == lower);
    }
    if is_one_of(lower, rar_extensions()) {
        let i = choose|i: int|
            0 <= i < rar_extensions().len() && lower == encode_utf8(#[trigger] rar_extensions()[i]);
        assert(rar_words()[i] == lower);
    }
}

proof fn lemma_last_dot_is_before(stem: Seq<u8>, word: Seq<u8>)
    requires
        forall|i: int| 0 <= i < word.len() ==> #[trigger] word[i] != 46,
    ensures
        last_dot(stem + seq![46u8] + word) == Some(stem.len() as int),
    decreases word.len(),
{
    let name = stem + seq![46u8] + word;
    if word.len() == 0 {
        assert(name.last() == 46);
    } else {
        assert(name.last() == word.last());
        assert(name.drop_last() =~= stem + seq![46u8] + word.drop_last());
        lemma_last_dot_is_before(stem, word.drop_last());
    }
}

proof fn lemma_no_last_dot(name: Seq<u8>)
    requires
        forall|i: int| 0 <= i < name.len() ==> #[trigger] name[i] != 46,
    ensures
        last_dot(name) is None,
    decreases name.len(),
{
    if name.len() > 0 {
        lemma_no_last_dot(name.drop_last());
    }
}

/// What an archive is extracted into has the archive's name without the words
/// of archives at its end, however many there are; a name without dots, or
/// with another word at its end, is kept.
pub proof fn lemma_archive_words_are_peeled_off(stem: Seq<u8>, word: Seq<u8>)
    requires
        stem.len() > 0,
        forall|i: int| 0 <= i < word.len() ==> #[trigger] word[i] != 46,
    ensures
        is_archive_word(word) ==> peeled(stem + seq![46u8] + word) == peeled(stem),
        !is_archive_word(word) ==> peeled(stem + seq![46u8] + word) == stem + seq![46u8] + word,
        peeled(word) == word,
{
    let name = stem + seq![46u8] + word;
    lemma_last_dot_is_before(stem, word);
    lemma_no_last_dot(word);
    lemma_known_words(word);
    assert(name.skip(stem.len() as int + 1) =~= word);
    assert(name.take(stem.len() as int) =~= stem);
}

/// A setting says yes by one of four words, in any case and whatever blanks are
/// around it.
pub proof fn lemma_settings_say_yes(before: Seq<u8>, word: Seq<u8>, after: Seq<u8>)
    requires
        word.len() > 0,
        is_printed(word[0]),
        is_printed(word.last()),
        all_spaces(before),
        all_spaces(after),
    ensures
        says_yes(Some(before + word + after)) <==> {
            ||| word == seq![49u8]
            ||| lowered(word, seq![116u8, 114, 117, 101])
            ||| lowered(word, seq![121u8, 101, 115])
            ||| lowered(word, seq![111u8, 110])
        },
        !says_yes(None),
{
    lemma_trimming_keeps_the_text(before, word, after);
    reveal_strlit("1");
    reveal_strlit("true");
    reveal_strlit("yes");
    reveal_strlit("on");
    lemma_ascii_text("1"@, seq![49u8]);
    lemma_ascii_text("true"@, seq![116u8, 114, 117, 101]);
    lemma_ascii_text("yes"@, seq![121u8, 101, 115]);
    lemma_ascii_text("on"@, seq![111u8, 110]);
    let lower = ascii_lower(word);
    assert(lowered(word, lower));
    if word == seq![49u8] {
        assert(lower =~= seq![49u8]);
    }
    if lower == seq![49u8] {
        assert(lower[0] == 49);
        assert(word =~= seq![49u8]);
    }
    if lowered(word, seq![116u8, 114, 117, 101]) {
        assert(lower =~= seq![116u8, 114, 117, 101]);
    }
    if lowered(word, seq![121u8, 101, 115]) {
        assert(lower =~= seq![121u8, 101, 115]);
    }
    if lowered(word, seq![111u8, 110]) {
        assert(lower =~= seq![111u8, 110]);
    }
}

/// Whether an archive goes on being read: no more than a hundred thousand
/// entries, and no more than a hundred gibibytes in all of them.
pub proof fn lemma_archives_are_bounded(budget: Budget, bytes: u64)
    ensures
        budget.after(bytes) is Ok <==> budget.entries < 100_000 && budget.bytes + bytes
            <= 100 * 1024 * 1024 * 1024,
        budget.after(bytes) matches Ok(next) ==> next.entries == budget.entries + 1 && next.bytes
            == budget.bytes + bytes,
{
}

/// A name can be given exactly where it says something, is neither this
/// directory nor the one above, holds neither a slash nor a zero, and does not
/// begin as the names of working files do.
pub proof fn lemma_names_that_can_be_given(name: Seq<u8>)
    ensures
        name_refusal(name) is None <==> {
            &&& exists|i: int| 0 <= i < name.len() && !is_blank(#[trigger] name[i])
            &&& name != seq![46u8]
            &&& name != seq![46u8, 46]
            &&& !name.contains(47)
            &&& !name.contains(0)
            &&& !(seq![46u8, 109, 97, 114, 99, 101, 108, 45].is_prefix_of(name))
        },
{
    assert(working_name_prefix() =~= seq![46u8, 109, 97, 114, 99, 101, 108, 45]);
    assert(crate::path::this_directory() =~= seq![46u8]);
    assert(crate::path::parent_directory() =~= seq![46u8, 46]);
}

proof fn lemma_stem_ends_at_the_last_dot(stem: Seq<u8>, word: Seq<u8>, end: int)
    requires
        stem.len() > 0,
        forall|i: int| 0 <= i < word.len() ==> #[trigger] word[i] != 46,
        stem.len() < end <= stem.len() + 1 + word.len(),
    ensures
        extension_start(stem + seq![46u8] + word, end) == stem.len(),
    decreases end,
{
    let name = stem + seq![46u8] + word;
    if end - 1 > stem.len() {
        assert(name[end - 1] == word[end - 2 - stem.len()]);
        lemma_stem_ends_at_the_last_dot(stem, word, end - 1);
    } else {
        assert(name[end - 1] == 46);
    }
}

/// A ZIP file made of one folder has the folder's name, one made of one file
/// the file's name without what follows its last dot, and one made of anything
/// else a name of its own.
pub proof fn lemma_zip_files_are_called_after_what_is_in_them(
    sources: Seq<PathBuf>,
    stem: Seq<u8>,
    word: Seq<u8>,
)
    requires
        stem.len() > 0,
        forall|i: int| 0 <= i < word.len() ==> #[trigger] word[i] != 46,
    ensures
        sources.len() == 1 && sources[0]@.file_name() == Some(stem + seq![46u8] + word)
            ==> zip_name(sources, false) == utf8_lossy(stem) + seq!['.', 'z', 'i', 'p'],
        sources.len() == 1 ==> (sources[0]@.file_name() matches Some(name) ==> zip_name(
            sources,
            true,
        ) == utf8_lossy(name) + seq!['.', 'z', 'i', 'p']),
        sources.len() != 1 ==> zip_name(sources, true) == seq![
            'A',
            'r',
            'c',
            'h',
            'i',
            'v',
            'e',
            '.',
            'z',
            'i',
            'p',
        ] && zip_name(sources, false) == zip_name(sources, true),
{
    reveal_strlit(".zip");
    reveal_strlit("Archive.zip");
    let name = stem + seq![46u8] + word;
    lemma_stem_ends_at_the_last_dot(stem, word, name.len() as int);
    assert(name.take(stem.len() as int) =~= stem);
    assert(".zip"@ =~= seq!['.', 'z', 'i', 'p']);
}

/// Only folders and files come out of an archive: each is taken in with its
/// bytes counted, a folder is looked into, and a link or anything else ends the
/// extraction.
pub proof fn lemma_only_files_and_folders_come_out(
    inspect: StagedInspect,
    found: Lookup,
    result: Result<StagedDirectory, String>,
)
    requires
        inspect.comes_to(found, result),
    ensures
        found matches Lookup::Found(metadata) ==> {
            let plain = metadata.kind is File || metadata.kind is Directory;
            let budget = inspect.rest.walk.budget;
            let bytes: int = if metadata.kind is File {
                metadata.len as int
            } else {
                0
            };
            &&& result is Ok <==> plain && budget.entries < 100_000 && budget.bytes + bytes
                <= 100 * 1024 * 1024 * 1024
            &&& result matches Ok(rest) ==> {
                &&& rest.walk.entries@ == inspect.rest.walk.entries@.push(
                    StagedEntry { path: inspect.path, is_file: metadata.kind is File },
                )
                &&& rest.walk.budget.entries == budget.entries + 1
                &&& rest.walk.budget.bytes == budget.bytes + bytes
                &&& metadata.kind is Directory ==> rest.walk.pending@
                    == inspect.rest.walk.pending@.push(inspect.path)
                &&& metadata.kind is File ==> rest.walk.pending@ == inspect.rest.walk.pending@
            }
        },
        found is Failed ==> result is Err,
        found is Missing ==> (result is Ok <==> inspect.rest.walk.tolerate_missing),
{
}

/// What came out is opened once more only where it is one tar out of a
/// compressed tar, and only once.
pub proof fn lemma_only_a_wrapped_tar_is_opened_again(
    walk: ExtractedWalk,
    staged: Vec<StagedEntry>,
    result: Result<ExtractedStep, String>,
)
    requires
        walk.follows(Ok(staged), result),
    ensures
        result is Ok,
        result matches Ok(ExtractedStep::Unwrap(inner)) ==> !walk.extraction.nested && inner.nested
            && staged@.len() == 1 && staged@[0].is_file && inner.current == staged@[0].path
            && inner.archive == walk.extraction.archive && inner.parent == walk.extraction.parent,
        walk.extraction.nested || staged@.len() != 1 ==> (result matches Ok(
            ExtractedStep::TopLevel(wanted),
        ) && wanted.root == walk.root && wanted.parent == walk.extraction.parent && wanted.archive
            == walk.extraction.archive),
{
}

/// An archive that a failure, or somebody, stopped is not published.
pub proof fn lemma_a_stopped_extraction_goes_no_further(
    wanted: ExtractWanted,
    result: Result<(), String>,
    cancelled: bool,
    next: Result<ExtractedWalk, String>,
)
    requires
        wanted.passes(result, cancelled, next),
    ensures
        next is Ok <==> result is Ok && !cancelled,
        next matches Ok(walk) ==> walk.root == wanted.root && walk.extraction == wanted.extraction,
{
}

/// What comes out of an archive lands beside it: a single entry under its own
/// name, which can be given to an entry, and several in one folder.
pub proof fn lemma_what_comes_out_lands_beside_the_archive(
    wanted: TopLevelWanted,
    names: Result<Vec<Name>, TopLevelError>,
    result: Result<PublishExtracted, String>,
)
    requires
        wanted.follows(names, result),
    ensures
        result matches Ok(publish) ==> publish.destination@.parent() == Some(wanted.parent@)
            && publish.parent == wanted.parent,
        names matches Ok(all) ==> {
            &&& all@.len() == 0 ==> result is Err
            &&& all@.len() == 1 ==> (result is Ok <==> name_refusal(all@[0]@) is None)
            &&& all@.len() == 1 ==> (result matches Ok(publish) ==> publish.destination@
                == wanted.parent@.join(all@[0]@) && publish.source@ == wanted.root@.join(all@[0]@))
            &&& all@.len() > 1 ==> (result matches Ok(publish) && publish.source == wanted.root)
        },
        names is Err ==> result is Err,
{
}

/// What came out is put where the plan says, and nothing is written where it
/// says that nothing should be.
pub proof fn lemma_output_goes_where_it_was_planned(
    publish: PublishExtracted,
    plan: SourcePlan,
    step: PublishStep,
)
    requires
        publish.follows(plan, step),
    ensures
        plan matches SourcePlan::Transfer(target) ==> (step matches PublishStep::Rename(rename)
            && rename.source == publish.source && rename.target == target && rename.displaced
            is None),
        plan matches SourcePlan::Replace(target) ==> (step matches PublishStep::Quarantine(aside)
            && aside.source == publish.source && aside.target == target),
        plan matches SourcePlan::Merge(target) ==> (step matches PublishStep::Merge(merge)
            && merge.source == publish.source && merge.target == target),
        plan is Skip || plan is Cancel || plan is AlreadyInPlace || plan is Failed
            ==> step is Failed,
{
}

/// What was in the way of the output is held for as long as the output is
/// there, and goes back where it is not.
pub proof fn lemma_output_gives_back_what_it_displaced(
    aside: PublishQuarantine,
    item: ReplacedItem,
    next: Result<PublishRename, String>,
    renamed: bool,
    step: PublishedStep,
)
    requires
        aside.passes(Ok(item), next),
        next matches Ok(rename) && rename.settles(renamed, step),
    ensures
        renamed ==> (step matches PublishedStep::Published(outcome) && outcome.published
            == aside.target && outcome.replaced@ == seq![item]),
        !renamed ==> (step matches PublishedStep::Restore(restoring, _) && restoring.left@
            == seq![item]),
{
}

/// Output whose target was not moved aside is not put there.
pub proof fn lemma_output_waits_for_its_target(
    aside: PublishQuarantine,
    why: String,
    next: Result<PublishRename, String>,
)
    requires
        aside.passes(Err(why), next),
    ensures
        next is Err,
{
}

/// A merge that stopped is not reported as an extraction.
pub proof fn lemma_only_a_whole_merge_is_published(
    merge: PublishMerge,
    outcome: MergeOutcome,
    result: Result<ArchiveOutcome, String>,
)
    requires
        merge.settles(outcome, result),
    ensures
        result is Ok <==> outcome.stopped is None,
        result matches Ok(published) ==> published.published == merge.target
            && published.replaced@.len() == 0 && (published.merged matches Some(added)
            && added.added == outcome.created && added.undoable == outcome.undoable),
{
}

/// What an extraction displaced is either recorded, to be put back, or
/// released, never both; and no more than a gibibyte of it is held.
pub proof fn lemma_nothing_displaced_by_output_is_lost(
    measure: ExtractMeasure,
    held: Seq<u64>,
    walked: Result<Vec<PathSnapshot>, String>,
    committed: CommittedOperation,
    released: Vec<ReplacedItem>,
)
    requires
        measure.settles(held, walked, committed, released),
    ensures
        committed.record is None ==> released@ == measure.replaced@,
        committed.record is Some ==> released@.len() == 0,
        committed.record matches Some(record) ==> (record matches OperationRecord::ArchiveExtract {
            source,
            output,
            replaced,
            ..
        } && replaced == measure.replaced && output == measure.published && source
            == measure.source),
        crate::fsops::extract::sum_of(held) > 1024 * 1024 * 1024 ==> committed.record is None,
        committed.path == measure.published,
{
}

/// A ZIP file is only begun where it will be one by name, nothing is in its
/// place, and everything in it is of one directory.
pub proof fn lemma_only_a_free_zip_is_begun(
    sources: Vec<PathBuf>,
    destination: PathBuf,
    found: Lookup,
    result: Result<SelectionWalk, String>,
)
    requires
        begins_compression(sources, destination, found, result),
    ensures
        result is Ok ==> found is Missing && sources@.len() > 0 && has_extension(
            destination@,
            "zip"@,
        ) && forall|i: int|
            0 <= i < sources@.len() ==> (#[trigger] sources@[i])@.parent()
                == sources@[0]@.parent(),
        result matches Ok(walk) ==> walk.pending@ == sources@ && walk.compression.sources == sources
            && walk.compression.destination == destination,
        found is Missing && sources@.len() > 0 && sources@[0]@.parent() is Some && has_extension(
            destination@,
            "zip"@,
        ) && (forall|i: int|
            0 <= i < sources@.len() ==> (#[trigger] sources@[i])@.parent()
                == sources@[0]@.parent()) ==> result is Ok,
{
}

/// Everything that goes into a ZIP file is a folder or a file, of which there
/// are no more than a hundred thousand; every folder is looked into.
pub proof fn lemma_only_files_and_folders_go_in(
    inspect: SelectionInspect,
    found: Lookup,
    result: Result<SelectionEntryStep, String>,
)
    requires
        inspect.comes_to(found, result),
    ensures
        found matches Lookup::Found(metadata) ==> {
            &&& metadata.kind is Directory ==> (result matches Ok(SelectionEntryStep::List(list))
                && list.path == inspect.path && list.walk == inspect.walk)
            &&& metadata.kind is File ==> (result is Ok <==> inspect.walk.count < 100_000)
            &&& metadata.kind is File ==> (result matches Ok(step) ==> (step matches
                SelectionEntryStep::Walk(walk) && walk.count == inspect.walk.count + 1
                && walk.pending == inspect.walk.pending))
            &&& !(metadata.kind is File || metadata.kind is Directory) ==> result is Err
        },
        !(found is Found) ==> result is Err,
{
}

/// Nothing is staged before everything selected was looked at.
pub proof fn lemma_a_selection_is_looked_through_first(
    walk: SelectionWalk,
    cancelled: bool,
    result: Result<SelectionStep, String>,
)
    requires
        walk.goes_on(cancelled, result),
    ensures
        result matches Ok(SelectionStep::Stage(staging)) ==> walk.pending@.len() == 0
            && staging.compression == walk.compression
            && walk.compression.destination@.parent() == Some(staging.parent@),
        walk.pending@.len() > 0 ==> (result is Ok <==> !cancelled),
{
}

/// What is described for undo is what was found, and no special file.
pub proof fn lemma_sources_are_described_as_found(
    inspect: SourceInspect,
    found: Lookup,
    result: Result<SourceStep, String>,
)
    requires
        inspect.comes_to(found, result),
        inspect.operation.snapshots@.len() < 100_000,
    ensures
        found matches Lookup::Found(metadata) ==> (result is Ok <==> metadata.kind is Directory
            || metadata.kind is File || metadata.kind is Symlink),
        !(found is Found) ==> result is Err,
        result matches Ok(step) ==> {
            let after = match step {
                SourceStep::Next(operation) => operation,
                SourceStep::List(list) => list.operation,
            };
            let last = after.snapshots@.last();
            &&& after.snapshots@.drop_last() == inspect.operation.snapshots@
            &&& found matches Lookup::Found(metadata)
            &&& step is List <==> metadata.kind is Directory
            &&& last.path@ == inspect.path@
            &&& last.kind == metadata.kind
            &&& last.identity.key.device == metadata.device
            &&& last.identity.key.inode == metadata.inode
            &&& last.identity.changed_seconds == metadata.changed_seconds
            &&& last.identity.changed_nanoseconds == metadata.changed_nanoseconds
        },
{
}

/// A ZIP file is published only where the program made it, nobody stopped it,
/// and it is there; and only to a place that is still free.
pub proof fn lemma_only_a_made_zip_is_published(
    wanted: ZipWanted,
    result: Result<(), String>,
    cancelled: bool,
    is_file: bool,
    next: Result<StagedZip, String>,
)
    requires
        wanted.passes(result, cancelled, is_file, next),
    ensures
        next is Ok <==> result is Ok && !cancelled && is_file,
        next matches Ok(zip) ==> zip.staged == wanted.staged && zip.destination
            == wanted.compression.destination,
{
}

/// Whatever has come to be at the destination meanwhile stays.
pub proof fn lemma_a_zip_overwrites_nothing(
    zip: StagedZip,
    listing: Result<Vec<ArchiveEntry>, String>,
    found: Lookup,
    result: Result<ZipPublish, String>,
)
    requires
        zip.passes(listing, found, result),
    ensures
        result is Ok ==> found is Missing && (listing matches Ok(entries) && entries@.len() > 0),
        result matches Ok(publish) ==> publish.staged == zip.staged && publish.destination
            == zip.destination,
        listing is Err ==> result is Err,
{
}

} // verus!
