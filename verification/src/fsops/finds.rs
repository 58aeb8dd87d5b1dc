//! Where the archive program is found, and what of its output is believed.

use vstd::prelude::*;
use vstd::utf8::{encode_utf8, valid_utf8};

use crate::fsops::backend::{
    diagnostics, directories_in, finds, listed_by, looks_for, on_path, private_program, searched,
    stops, CommandOutput, Discovery,
};
use crate::fsops::local::models;
use crate::path::{parsed, PathBuf, PathModel};
use crate::text::{lemma_ascii_text, trimmed, utf8_lossy};

verus! {

proof fn lemma_some_directory(path: Seq<u8>)
    ensures
        directories_in(path).len() > 0,
    decreases path.len(),
{
    if path.len() > 0 {
        lemma_some_directory(path.drop_last());
    }
}

/// A colon separates the directories of a search path.
pub proof fn lemma_colons_separate_directories(left: Seq<u8>, right: Seq<u8>)
    ensures
        directories_in(left + seq![58u8] + right) == directories_in(left) + directories_in(right),
    decreases right.len(),
{
    let whole = left + seq![58u8] + right;
    lemma_some_directory(left);
    lemma_some_directory(right);
    if right.len() == 0 {
        assert(whole.drop_last() =~= left);
        assert(whole.last() == 58);
        assert(directories_in(whole) =~= directories_in(left) + directories_in(right));
    } else {
        lemma_colons_separate_directories(left, right.drop_last());
        lemma_some_directory(right.drop_last());
        assert(whole.drop_last() =~= left + seq![58u8] + right.drop_last());
        assert(whole.last() == right.last());
        assert(directories_in(whole) =~= directories_in(left) + directories_in(right));
    }
}

/// A search path without colons is one directory.
pub proof fn lemma_one_directory(path: Seq<u8>)
    requires
        forall|i: int| 0 <= i < path.len() ==> #[trigger] path[i] != 58,
    ensures
        directories_in(path) == seq![path],
    decreases path.len(),
{
    if path.len() > 0 {
        lemma_one_directory(path.drop_last());
        assert(path.drop_last().push(path.last()) =~= path);
        assert(directories_in(path) =~= seq![path]);
    } else {
        assert(path =~= Seq::empty());
    }
}

/// The program is looked for beside the executable first, then as `7zz` in each
/// directory of the search path, then as `7z` in each.
pub proof fn lemma_where_the_program_is_looked_for(executable: PathModel, path: Seq<u8>)
    ensures
        ({
            let places = searched(executable, Some(path));
            let directories = directories_in(path);
            let beside: int = if private_program(executable) is Some {
                1
            } else {
                0
            };
            &&& places.len() == beside + 2 * directories.len()
            &&& beside == 1 ==> Some(places[0]) == private_program(executable)
            &&& forall|i: int| #![trigger directories[i]]
                0 <= i < directories.len() ==> places[beside + i] == parsed(directories[i]).join(
                    seq![55u8, 122, 122],
                ) && places[beside + directories.len() + i] == parsed(directories[i]).join(
                    seq![55u8, 122],
                )
        }),
        executable.parent() matches Some(directory) ==> (directory.parent() matches Some(prefix)
            ==> private_program(executable) == Some(
            prefix.join(
                seq![
                    108u8,
                    105,
                    98,
                    101,
                    120,
                    101,
                    99,
                    47,
                    109,
                    97,
                    114,
                    99,
                    101,
                    108,
                    47,
                    55,
                    122,
                    122,
                ],
            ),
        )),
{
    reveal_strlit("7zz");
    reveal_strlit("7z");
    reveal_strlit("libexec/marcel/7zz");
    lemma_ascii_text("7zz"@, seq![55u8, 122, 122]);
    lemma_ascii_text("7z"@, seq![55u8, 122]);
    lemma_ascii_text(
        "libexec/marcel/7zz"@,
        seq![
            108u8,
            105,
            98,
            101,
            120,
            101,
            99,
            47,
            109,
            97,
            114,
            99,
            101,
            108,
            47,
            55,
            122,
            122,
        ],
    );
    let directories = directories_in(path);
    let places = searched(executable, Some(path));
    assert(on_path("7zz"@, Some(path)).len() == directories.len());
    assert(on_path("7z"@, Some(path)).len() == directories.len());
}

/// A program that somebody named is the only one that is used.
pub proof fn lemma_a_named_program_is_used(
    program: &[u8],
    executable: PathModel,
    path: Option<&[u8]>,
    discovery: Discovery,
    runnable: Seq<bool>,
    result: Result<PathBuf, String>,
)
    requires
        looks_for(Some(program), executable, path, discovery),
        program@.len() > 0,
        finds(discovery, runnable, result),
        runnable.len() == 1,
    ensures
        result is Ok <==> runnable[0],
        result matches Ok(used) ==> used@ == parsed(program@),
{
}

/// Otherwise it is the first that can be run; where none can, there is none.
pub proof fn lemma_the_first_that_runs_is_used(
    executable: PathModel,
    path: &[u8],
    discovery: Discovery,
    runnable: Seq<bool>,
    result: Result<PathBuf, String>,
)
    requires
        looks_for(None, executable, Some(path), discovery),
        finds(discovery, runnable, result),
        runnable.len() == searched(executable, Some(path@)).len(),
    ensures
        result is Ok <==> exists|i: int| 0 <= i < runnable.len() && #[trigger] runnable[i],
        result matches Ok(used) ==> exists|i: int|
            0 <= i < runnable.len() && #[trigger] runnable[i] && used@ == searched(
                executable,
                Some(path@),
            )[i] && forall|j: int| 0 <= j < i ==> !#[trigger] runnable[j],
{
    let candidates = discovery->Search_0;
    let places = searched(executable, Some(path@));
    assert(models(candidates@) == places);
    if exists|i: int| 0 <= i < runnable.len() && #[trigger] runnable[i] {
        let i = choose|i: int| 0 <= i < runnable.len() && #[trigger] runnable[i];
        lemma_first_of_these(runnable, i);
        let first = choose|first: int|
            0 <= first < runnable.len() && #[trigger] runnable[first] && forall|j: int|
                0 <= j < first ==> !#[trigger] runnable[j];
        assert(crate::fsops::backend::first_runnable(candidates@, runnable, first));
    }
    if let Ok(used) = result {
        let i = choose|i: int| #[trigger]
            crate::fsops::backend::first_runnable(candidates@, runnable, i) && candidates@[i]
                == used;
        assert(models(candidates@)[i] == used@);
        assert(runnable[i]);
    }
}

proof fn lemma_first_of_these(runnable: Seq<bool>, i: int)
    requires
        0 <= i < runnable.len(),
        runnable[i],
    ensures
        exists|first: int|
            0 <= first < runnable.len() && #[trigger] runnable[first] && forall|j: int|
                0 <= j < first ==> !#[trigger] runnable[j],
    decreases i,
{
    if exists|j: int| 0 <= j < i && #[trigger] runnable[j] {
        let j = choose|j: int| 0 <= j < i && #[trigger] runnable[j];
        lemma_first_of_these(runnable, j);
    } else {
        assert(runnable[i]);
    }
}

/// A listing is read only where the program succeeded, all of it was kept, and
/// it is text.
pub proof fn lemma_only_whole_listings_are_read(output: CommandOutput, archive: Seq<u8>)
    ensures
        listed_by(output, archive) is Ok ==> output.success && !output.stdout_truncated
            && valid_utf8(output.stdout@),
{
}

/// What a program that failed said is quoted from where it complains, or, where
/// it did not, from where it prints.
pub proof fn lemma_complaints_are_quoted(stdout: Seq<u8>, stderr: Seq<u8>)
    ensures
        stderr.len() > 0 && trimmed(encode_utf8(utf8_lossy(stderr))).len() > 0 ==> diagnostics(
            stdout,
            stderr,
        ) == utf8_lossy(trimmed(encode_utf8(utf8_lossy(stderr)))),
        stderr.len() == 0 && trimmed(encode_utf8(utf8_lossy(stdout))).len() > 0 ==> diagnostics(
            stdout,
            stderr,
        ) == utf8_lossy(trimmed(encode_utf8(utf8_lossy(stdout)))),
{
}

/// The program is stopped where the operation was abandoned or what it has
/// written is refused, and goes on otherwise.
pub proof fn lemma_the_program_is_stopped(
    cancelled: bool,
    monitored: Option<Result<(), String>>,
    stop: Option<String>,
)
    requires
        stops(cancelled, monitored, stop),
    ensures
        stop is Some <==> cancelled || (monitored matches Some(verdict) && verdict is Err),
{
}

} // verus!
