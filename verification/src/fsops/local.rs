//! The primitives every mutation is built from.

use vstd::prelude::*;

use crate::fsops::identity::{message_about, about, Metadata, SnapshotKind};
use crate::order::{in_order, sort, sorted, Ranked};
use crate::path::{
    joined_text, parent_directory, push_bytes, this_directory, PathBuf, PathModel, DOT, SLASH,
};
use crate::text::{decimal_bytes, decimal_digits};

verus! {

/// What asking the filesystem about one path gave back.
#[derive(Debug)]
pub enum Lookup {
    Found(Metadata),
    /// Nothing is there.
    Missing,
    /// The question itself failed, with what the system said.
    Failed(String),
}

/// `{message} “{path}”`
pub open spec fn located(message: Seq<char>, path: Seq<u8>) -> Seq<char> {
    about(message + " "@, path, ""@)
}

/// Names the path a failure is about: `Could not create “/home/me/photos”`.
pub fn at(message: &str, path: &PathBuf) -> (text: String)
    ensures
        text@ == located(message@, path.text()),
{
    let mut before = message.to_owned();
    before.append(" ");
    message_about(before.as_str(), path, "")
}

/// Name the path an error is about, the way every message in this layer
/// does: `Could not create “/home/me/photos”`.
pub trait PathContext<T>: Sized {
    /// Whether there is nothing to report, and what came back if so.
    spec fn succeeded(self) -> Option<T>;

    fn at(self, message: &str, path: &PathBuf) -> (result: Result<T, String>)
        ensures
            match result {
                Ok(value) => self.succeeded() == Some(value),
                Err(text) => self.succeeded() is None && text@ == located(message@, path.text()),
            },
    ;
}

impl<T, E> PathContext<T> for Result<T, E> {
    open spec fn succeeded(self) -> Option<T> {
        match self {
            Ok(value) => Some(value),
            Err(_) => None,
        }
    }

    fn at(self, message: &str, path: &PathBuf) -> (result: Result<T, String>) {
        match self {
            Ok(value) => Ok(value),
            Err(_) => Err(self::at(message, path)),
        }
    }
}

#[derive(Clone, Copy, Debug, PartialEq, Eq, Structural)]
pub enum PathOccupancy {
    Vacant,
    Occupied,
}

/// Whether a name is taken. A link counts, dangling or not: the question is
/// whether the name is taken, not what it points at.
pub fn path_occupancy(found: &Lookup) -> (occupancy: Result<PathOccupancy, String>)
    ensures
        match found {
            Lookup::Found(_) => occupancy == Ok::<PathOccupancy, String>(PathOccupancy::Occupied),
            Lookup::Missing => occupancy == Ok::<PathOccupancy, String>(PathOccupancy::Vacant),
            Lookup::Failed(error) => occupancy is Err && occupancy->Err_0@ == error@,
        },
{
    match found {
        Lookup::Found(_) => Ok(PathOccupancy::Occupied),
        Lookup::Missing => Ok(PathOccupancy::Vacant),
        Lookup::Failed(error) => Err(error.clone()),
    }
}

/// Why a destination cannot be used, if it cannot.
pub open spec fn occupied(path: Seq<u8>, found: Lookup) -> Option<Seq<char>> {
    match found {
        Lookup::Found(_) => Some(about(""@, path, " already exists; nothing was overwritten"@)),
        Lookup::Missing => None,
        Lookup::Failed(_) => Some(located("Could not inspect destination"@, path)),
    }
}

/// Refuse a destination that something already occupies.
pub fn ensure_unoccupied(path: &PathBuf, found: &Lookup) -> (verdict: Result<(), String>)
    ensures
        match verdict {
            Ok(_) => occupied(path.text(), *found) is None,
            Err(message) => occupied(path.text(), *found) == Some(message@),
        },
{
    match path_occupancy(found) {
        Ok(PathOccupancy::Occupied) => Err(
            message_about("", path, " already exists; nothing was overwritten"),
        ),
        Ok(PathOccupancy::Vacant) => Ok(()),
        Err(_) => Err(at("Could not inspect destination", path)),
    }
}

/// What was found, with the error every caller would otherwise spell out.
pub fn inspect(path: &PathBuf, found: Lookup) -> (result: Result<Metadata, String>)
    ensures
        match result {
            Ok(metadata) => found == Lookup::Found(metadata),
            Err(message) => !(found is Found) && message@ == located("Could not inspect"@, path.text()),
        },
{
    match found {
        Lookup::Found(metadata) => Ok(metadata),
        Lookup::Missing => Err(at("Could not inspect", path)),
        Lookup::Failed(_) => Err(at("Could not inspect", path)),
    }
}

/// Whether one byte string comes before another, byte by byte, a prefix first.
pub open spec fn bytes_precede(left: Seq<u8>, right: Seq<u8>) -> bool
    decreases left.len(),
{
    left.len() == 0 || (right.len() > 0 && (left[0] < right[0] || (left[0] == right[0]
        && bytes_precede(left.drop_first(), right.drop_first()))))
}

/// Of two byte strings one comes first.
pub proof fn lemma_bytes_total(left: Seq<u8>, right: Seq<u8>)
    ensures
        bytes_precede(left, right) || bytes_precede(right, left),
    decreases left.len(),
{
    if left.len() > 0 && right.len() > 0 && left[0] == right[0] {
        lemma_bytes_total(left.drop_first(), right.drop_first());
    }
}

/// The order of byte strings is transitive.
pub proof fn lemma_bytes_transitive(first: Seq<u8>, middle: Seq<u8>, last: Seq<u8>)
    requires
        bytes_precede(first, middle),
        bytes_precede(middle, last),
    ensures
        bytes_precede(first, last),
    decreases first.len(),
{
    if first.len() > 0 && first[0] == middle[0] && middle[0] == last[0] {
        lemma_bytes_transitive(first.drop_first(), middle.drop_first(), last.drop_first());
    }
}

/// Two byte strings that may each stand before the other are the same.
pub proof fn lemma_bytes_antisymmetric(left: Seq<u8>, right: Seq<u8>)
    requires
        bytes_precede(left, right),
        bytes_precede(right, left),
    ensures
        left == right,
    decreases left.len(),
{
    if left.len() > 0 && right.len() > 0 {
        lemma_bytes_antisymmetric(left.drop_first(), right.drop_first());
        assert(left =~= seq![left[0]] + left.drop_first());
        assert(right =~= seq![right[0]] + right.drop_first());
    } else {
        assert(left =~= right);
    }
}

/// Whether one byte string comes before another or is the same.
pub fn precedes(left: &[u8], right: &[u8]) -> (yes: bool)
    ensures
        yes == bytes_precede(left@, right@),
{
    let mut i: usize = 0;
    assert(left@.skip(0) =~= left@);
    assert(right@.skip(0) =~= right@);
    while i < left.len()
        invariant
            i <= left.len(),
            i <= right.len(),
            bytes_precede(left@, right@) == bytes_precede(
                left@.skip(i as int),
                right@.skip(i as int),
            ),
        decreases left.len() - i,
    {
        let ghost left_rest = left@.skip(i as int);
        let ghost right_rest = right@.skip(i as int);
        if i >= right.len() {
            return false;
        }
        assert(left_rest[0] == left@[i as int]);
        assert(right_rest[0] == right@[i as int]);
        if left[i] < right[i] {
            return true;
        }
        if left[i] > right[i] {
            return false;
        }
        assert(left_rest.drop_first() =~= left@.skip(i + 1));
        assert(right_rest.drop_first() =~= right@.skip(i + 1));
        i += 1;
    }
    true
}

/// Whether a directory can list this name.
pub open spec fn is_entry_name(name: Seq<u8>) -> bool {
    name.len() > 0 && !name.contains(SLASH) && name != this_directory() && name
        != parent_directory()
}

/// One name in a directory.
#[derive(Debug)]
pub struct Name {
    bytes: Vec<u8>,
}

impl View for Name {
    type V = Seq<u8>;

    closed spec fn view(&self) -> Seq<u8> {
        self.bytes@
    }
}

impl Name {
    /// Every name is one a directory can list.
    #[verifier::type_invariant]
    pub open spec fn well_formed(self) -> bool {
        is_entry_name(self@)
    }

    /// A name, if a directory can list it.
    pub fn new(bytes: Vec<u8>) -> (name: Option<Name>)
        ensures
            match name {
                Some(name) => is_entry_name(bytes@) && name@ == bytes@,
                None => !is_entry_name(bytes@),
            },
    {
        if bytes.len() == 0 {
            return None;
        }
        if (bytes.len() == 1 && bytes[0] == DOT) || (bytes.len() == 2 && bytes[0] == DOT
            && bytes[1] == DOT) {
            proof {
                if bytes@.len() == 1 {
                    assert(bytes@ =~= this_directory());
                } else {
                    assert(bytes@ =~= parent_directory());
                }
            }
            return None;
        }
        let mut i: usize = 0;
        while i < bytes.len()
            invariant
                i <= bytes.len(),
                forall|j: int| 0 <= j < i ==> bytes@[j] != SLASH,
            decreases bytes.len() - i,
        {
            if bytes[i] == SLASH {
                assert(bytes@.contains(bytes@[i as int]));
                return None;
            }
            i += 1;
        }
        Some(Name { bytes })
    }

    pub fn as_bytes(&self) -> (bytes: &[u8])
        ensures
            bytes@ == self@,
    {
        self.bytes.as_slice()
    }
}

impl Ranked for Name {
    open spec fn ranks(&self, other: &Self) -> bool {
        bytes_precede(self@, other@)
    }

    proof fn ranks_total(&self, other: &Self) {
        lemma_bytes_total(self@, other@);
    }

    proof fn ranks_transitive(&self, middle: &Self, last: &Self) {
        lemma_bytes_transitive(self@, middle@, last@);
    }

    fn may_precede(&self, other: &Self) -> (yes: bool) {
        precedes(self.bytes.as_slice(), other.bytes.as_slice())
    }
}

/// A directory's children in name order.
///
/// Sorting gives every walk a deterministic order, and reading the whole
/// listing first means a directory that changes underneath the walk cannot
/// make it yield an entry twice.
pub fn sorted_children(children: Vec<Name>) -> (ordered: Vec<Name>)
    ensures
        ordered@ == sorted(children@),
        in_order(ordered@),
        ordered@.to_multiset() == children@.to_multiset(),
{
    sort(children)
}

/// How reading a directory failed.
#[derive(Clone, Copy, Debug, PartialEq, Eq, Structural)]
pub enum ListError {
    /// The directory could not be opened for reading.
    Directory,
    /// One of its entries could not be read.
    Entry,
}

/// What a failure to read a directory is reported as.
pub open spec fn list_failure(error: ListError, directory: Seq<u8>) -> Seq<char> {
    match error {
        ListError::Directory => located("Could not read"@, directory),
        ListError::Entry => located("Could not read an entry in"@, directory),
    }
}

/// The message for a directory that could not be read.
pub fn list_error_at(error: ListError, directory: &PathBuf) -> (message: String)
    ensures
        message@ == list_failure(error, directory.text()),
{
    match error {
        ListError::Directory => at("Could not read", directory),
        ListError::Entry => at("Could not read an entry in", directory),
    }
}

/// Where the entries of a directory are, the last one first.
pub open spec fn children_backwards(directory: PathModel, children: Seq<Name>) -> Seq<PathModel> {
    Seq::new(children.len(), |i: int| directory.join(children[children.len() - 1 - i]@))
}

/// How the entries of a directory are spelled, the last one first.
pub open spec fn children_texts(directory: Seq<u8>, children: Seq<Name>) -> Seq<Seq<u8>> {
    Seq::new(children.len(), |i: int| joined_text(directory, children[children.len() - 1 - i]@))
}

/// How a list of paths is spelled.
pub open spec fn texts(paths: Seq<PathBuf>) -> Seq<Seq<u8>> {
    paths.map_values(|path: PathBuf| path.text())
}

/// What a list of paths says.
pub open spec fn models(paths: Seq<PathBuf>) -> Seq<PathModel> {
    paths.map_values(|path: PathBuf| path@)
}

/// Adds the entries of a directory to a stack of things to visit, so that they
/// come off in the order given.
pub fn push_children(pending: &mut Vec<PathBuf>, directory: &PathBuf, children: &Vec<Name>)
    ensures
        models(final(pending)@) == models(old(pending)@) + children_backwards(
            directory@,
            children@,
        ),
        texts(final(pending)@) == texts(old(pending)@) + children_texts(
            directory.text(),
            children@,
        ),
{
    let ghost all = children_backwards(directory@, children@);
    let ghost spelled = children_texts(directory.text(), children@);
    let mut left: usize = children.len();
    proof {
        assert(models(pending@) =~= models(pending@) + all.take(0));
        assert(texts(pending@) =~= texts(pending@) + spelled.take(0));
    }
    while left > 0
        invariant
            left <= children.len(),
            all == children_backwards(directory@, children@),
            models(pending@) == models(old(pending)@) + all.take(children.len() - left),
            spelled == children_texts(directory.text(), children@),
            texts(pending@) == texts(old(pending)@) + spelled.take(children.len() - left),
        decreases left,
    {
        left -= 1;
        let ghost before = pending@;
        pending.push(directory.join(children[left].as_bytes()));
        proof {
            let at = children.len() - left - 1;
            assert(models(pending@) =~= models(before).push(directory@.join(children@[left as int]@)));
            assert(all[at] == directory@.join(children@[left as int]@));
            assert(all.take(at + 1) =~= all.take(at as int).push(all[at]));
            let name = children@[left as int]@;
            assert(texts(pending@) =~= texts(before).push(joined_text(directory.text(), name)));
            assert(spelled.take(at + 1) =~= spelled.take(at as int).push(spelled[at]));
        }
    }
    assert(all.take(children.len() as int) =~= all);
    assert(spelled.take(children.len() as int) =~= spelled);
}

/// Why a rename did not happen, as far as it matters here.
#[derive(Clone, Copy, Debug, PartialEq, Eq, Structural)]
pub enum RenameErrorKind {
    /// Something is at the destination already.
    AlreadyExists,
    /// The destination is on another filesystem.
    CrossesDevices,
    /// The filesystem may not implement a rename that never replaces: the
    /// system answered that it does not know the call or its argument.
    Unsupported,
    Other,
}

/// A rename that did not happen.
#[derive(Debug)]
pub struct RenameError {
    pub kind: RenameErrorKind,
    /// What the system said.
    pub text: String,
}

/// What a failed rename is reported as.
pub open spec fn rename_diagnosis(error: RenameError, destination: Seq<u8>) -> Seq<char> {
    if error.kind is Unsupported {
        error.text@ + "; "@ + about(
            ""@,
            destination,
            " may be on a filesystem without RENAME_NOREPLACE, which Marcel needs to publish a file without overwriting one"@,
        )
    } else {
        error.text@
    }
}

/// Name the filesystem, rather than the request, when it is the obstacle.
///
/// Everything is published through a rename that never replaces, so a
/// filesystem that does not implement it fails every rename, move,
/// publication, restore, and quarantine with an error that mentions none of
/// that.
pub fn diagnose_rename(error: &RenameError, destination: &PathBuf) -> (text: String)
    ensures
        text@ == rename_diagnosis(*error, destination.text()),
{
    if error.kind != RenameErrorKind::Unsupported {
        return error.text.clone();
    }
    let mut text = error.text.clone();
    text.append("; ");
    let rest = message_about(
        "",
        destination,
        " may be on a filesystem without RENAME_NOREPLACE, which Marcel needs to publish a file without overwriting one",
    );
    text.append(rest.as_str());
    text
}

/// Refuse an opened object unless it is a regular file.
pub fn require_regular_file(path: &PathBuf, opened: &Metadata) -> (verdict: Result<(), String>)
    ensures
        verdict is Ok <==> opened.kind is File,
        verdict matches Err(message) ==> message@ == about(""@, path.text(), " is not a regular file"@),
{
    if opened.kind == SnapshotKind::File {
        Ok(())
    } else {
        Err(message_about("", path, " is not a regular file"))
    }
}

/// The longest single path component most Linux filesystems accept, in bytes.
pub const MAX_NAME_BYTES: usize = 255;

/// Whether a byte continues a UTF-8 character begun before it.
pub open spec fn continues(byte: u8) -> bool {
    0x80 <= byte <= 0xBF
}

/// The last character boundary at or before `limit`.
pub open spec fn char_floor(bytes: Seq<u8>, limit: int) -> int
    decreases limit,
{
    if limit >= bytes.len() {
        bytes.len() as int
    } else if limit <= 0 {
        0
    } else if continues(bytes[limit]) {
        char_floor(bytes, limit - 1)
    } else {
        limit
    }
}

/// The cut is never past the limit or the end, and never inside a character
/// unless the byte string starts inside one.
pub proof fn lemma_char_floor(bytes: Seq<u8>, limit: int)
    requires
        0 <= limit,
    ensures
        0 <= char_floor(bytes, limit) <= limit,
        char_floor(bytes, limit) <= bytes.len(),
        0 < char_floor(bytes, limit) < bytes.len() ==> !continues(
            bytes[char_floor(bytes, limit)],
        ),
    decreases limit,
{
    if 0 < limit < bytes.len() && continues(bytes[limit]) {
        lemma_char_floor(bytes, limit - 1);
    }
}

/// Trim to `limit` without splitting a UTF-8 character.
///
/// Cutting inside a multi-byte character turns a readable name into a mojibake
/// one, so step back to a character boundary. Raw non-UTF-8 names are carried
/// through byte for byte, which lossy conversion would not do.
pub fn floor_char_boundary(bytes: &[u8], limit: usize) -> (end: usize)
    ensures
        end as int == char_floor(bytes@, limit as int),
        end <= bytes@.len(),
        end <= limit,
{
    let mut end: usize = if limit < bytes.len() { limit } else { bytes.len() };
    while end > 0 && end < bytes.len() && bytes[end] >= 0x80 && bytes[end] <= 0xBF
        invariant
            end <= bytes@.len(),
            end <= limit,
            char_floor(bytes@, end as int) == char_floor(bytes@, limit as int),
        decreases end,
    {
        end -= 1;
    }
    end
}

/// `{prefix}{sequence}-`, followed by as much of `original` as keeps the whole
/// within the limit of one name.
pub open spec fn carried_name(prefix: Seq<u8>, sequence: nat, original: Seq<u8>) -> Seq<u8> {
    let head = prefix + decimal_bytes(sequence) + seq![45u8];
    let room = if head.len() < MAX_NAME_BYTES {
        MAX_NAME_BYTES - head.len()
    } else {
        0
    };
    head + original.take(char_floor(original, room))
}

/// A carried name keeps within the limit of one name as long as what stands
/// before the original does.
pub proof fn lemma_carried_name_fits(prefix: Seq<u8>, sequence: nat, original: Seq<u8>)
    requires
        prefix.len() + decimal_bytes(sequence).len() + 1 <= MAX_NAME_BYTES,
    ensures
        carried_name(prefix, sequence, original).len() <= MAX_NAME_BYTES,
{
    let head = prefix + decimal_bytes(sequence) + seq![45u8];
    lemma_char_floor(original, MAX_NAME_BYTES - head.len());
}

/// Compose a hidden name carrying an original name, without exceeding the
/// limit of one name.
///
/// Bookkeeping must never be the reason an operation the filesystem would have
/// allowed fails, and prepending a prefix to a name already near the limit is
/// exactly that. The tail of the original is dropped instead: uniqueness comes
/// from the sequence number, and the real path is in the record, so the
/// copied-in name only has to stay recognizable.
pub fn quarantined_name(prefix: &[u8], sequence: u64, original: &[u8]) -> (name: Vec<u8>)
    ensures
        name@ == carried_name(prefix@, sequence as nat, original@),
{
    let mut name: Vec<u8> = Vec::new();
    push_bytes(&mut name, prefix);
    let digits = decimal_digits(sequence);
    push_bytes(&mut name, digits.as_slice());
    name.push(45u8);
    let ghost head = prefix@ + decimal_bytes(sequence as nat) + seq![45u8];
    assert(name@ =~= head);
    let room: usize = if name.len() < MAX_NAME_BYTES { MAX_NAME_BYTES - name.len() } else { 0 };
    let keep = floor_char_boundary(original, room);
    let kept = vstd::slice::slice_subrange(original, 0, keep);
    push_bytes(&mut name, kept);
    assert(name@ =~= carried_name(prefix@, sequence as nat, original@)) by {
        assert(kept@ =~= original@.take(char_floor(original@, room as int)));
    }
    name
}

} // verus!
