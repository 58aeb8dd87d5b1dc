//! Paths, as the list of names they are made of.
//!
//! A path is read once: repeated slashes and `.` in the middle say nothing, and
//! what is left is compared name by name. How a path was spelled is kept beside
//! that, and is what is shown and handed on. Paths are never changed in place,
//! so a copy shares the names and the spelling of the original.

use std::sync::Arc;
use vstd::prelude::*;

use crate::text::{lossy, utf8_lossy};

verus! {

/// The byte that separates names.
pub const SLASH: u8 = 47;

/// The byte an extension begins with.
pub const DOT: u8 = 46;

/// What a path says: whether it begins at the root, and the names after that.
#[verifier::ext_equal]
pub struct PathModel {
    pub absolute: bool,
    pub names: Seq<Seq<u8>>,
}

/// `.`
pub open spec fn this_directory() -> Seq<u8> {
    seq![DOT]
}

/// `..`
pub open spec fn parent_directory() -> Seq<u8> {
    seq![DOT, DOT]
}

/// The stretches of `text` between slashes.
pub open spec fn pieces(text: Seq<u8>) -> Seq<Seq<u8>>
    decreases text.len(),
{
    if text.len() == 0 {
        seq![Seq::<u8>::empty()]
    } else {
        let before = pieces(text.drop_last());
        if text.last() == SLASH {
            before.push(Seq::<u8>::empty())
        } else {
            before.drop_last().push(before.last().push(text.last()))
        }
    }
}

/// Whether a piece names something: it is not empty, and it is not a `.`
/// anywhere but at the front of a relative path.
pub open spec fn is_name(piece: Seq<u8>, leading: bool) -> bool {
    piece.len() > 0 && (piece != this_directory() || leading)
}

/// The pieces that name something.
pub open spec fn named(all: Seq<Seq<u8>>, absolute: bool) -> Seq<Seq<u8>>
    decreases all.len(),
{
    if all.len() == 0 {
        Seq::empty()
    } else {
        let before = named(all.drop_last(), absolute);
        if is_name(all.last(), all.len() == 1 && !absolute) {
            before.push(all.last())
        } else {
            before
        }
    }
}

/// What `text` says as a path.
pub open spec fn parsed(text: Seq<u8>) -> PathModel {
    let absolute = text.len() > 0 && text[0] == SLASH;
    PathModel { absolute, names: named(pieces(text), absolute) }
}

/// `names` with slashes between them.
pub open spec fn joined_names(names: Seq<Seq<u8>>) -> Seq<u8>
    decreases names.len(),
{
    if names.len() == 0 {
        Seq::empty()
    } else if names.len() == 1 {
        names[0]
    } else {
        joined_names(names.drop_last()).push(SLASH) + names.last()
    }
}

/// The plain text of a path.
pub open spec fn rendered(path: PathModel) -> Seq<u8> {
    if path.absolute {
        seq![SLASH] + joined_names(path.names)
    } else {
        joined_names(path.names)
    }
}

/// The text of a path with more text read from inside it: text that begins at
/// the root stands alone, and a slash goes between where there is none.
pub open spec fn joined_text(base: Seq<u8>, text: Seq<u8>) -> Seq<u8> {
    if base.len() == 0 || (text.len() > 0 && text[0] == SLASH) {
        text
    } else if base.last() == SLASH {
        base + text
    } else {
        base.push(SLASH) + text
    }
}

/// Text without what says nothing at its end: slashes, and a `.` after one.
pub open spec fn without_tail(text: Seq<u8>) -> Seq<u8>
    decreases text.len(),
{
    if text.len() > 1 && (text.last() == SLASH || (text.last() == DOT && text[text.len() - 2]
        == SLASH)) {
        without_tail(text.drop_last())
    } else {
        text
    }
}

/// The text of the directory a path is in: what is left without its last name.
pub open spec fn parent_text(text: Seq<u8>) -> Seq<u8> {
    let whole = without_tail(text);
    without_tail(whole.take(whole.len() - pieces(whole).last().len()))
}

impl PathModel {
    /// Whether this is something a text can say.
    pub open spec fn valid(self) -> bool {
        forall|i: int|
            0 <= i < self.names.len() ==> is_name(
                #[trigger] self.names[i],
                i == 0 && !self.absolute,
            ) && !self.names[i].contains(SLASH)
    }

    /// Whether this path says nothing at all.
    pub open spec fn is_empty(self) -> bool {
        !self.absolute && self.names.len() == 0
    }

    /// The path of the directory this one is in.
    pub open spec fn parent(self) -> Option<PathModel> {
        if self.names.len() == 0 {
            None
        } else {
            Some(PathModel { absolute: self.absolute, names: self.names.drop_last() })
        }
    }

    /// The last name, unless it is `.` or `..`.
    pub open spec fn file_name(self) -> Option<Seq<u8>> {
        if self.names.len() == 0 || self.names.last() == this_directory() || self.names.last()
            == parent_directory() {
            None
        } else {
            Some(self.names.last())
        }
    }

    /// This path with `text` read from inside it.
    pub open spec fn join(self, text: Seq<u8>) -> PathModel {
        if parsed(text).absolute || self.is_empty() {
            parsed(text)
        } else {
            PathModel { absolute: self.absolute, names: self.names + named(pieces(text), true) }
        }
    }

    /// Whether `prefix` is this path or one of the directories it is in.
    pub open spec fn starts_with(self, prefix: PathModel) -> bool {
        prefix.is_empty() || (self.absolute == prefix.absolute && prefix.names.is_prefix_of(
            self.names,
        ))
    }

    /// What this path says after `prefix`.
    pub open spec fn strip_prefix(self, prefix: PathModel) -> Option<PathModel> {
        if prefix.is_empty() {
            Some(self)
        } else if self.starts_with(prefix) {
            Some(PathModel { absolute: false, names: self.names.skip(prefix.names.len() as int) })
        } else {
            None
        }
    }

    /// This path with everything `relative` says after it.
    pub open spec fn extended(self, relative: PathModel) -> PathModel {
        if relative.absolute || self.is_empty() {
            relative
        } else {
            PathModel {
                absolute: self.absolute,
                names: self.names + (if relative.names.len() > 0 && relative.names[0]
                    == this_directory() {
                    relative.names.drop_first()
                } else {
                    relative.names
                }),
            }
        }
    }
}

/// The names a vector of byte strings holds.
pub open spec fn byte_names(names: Seq<Vec<u8>>) -> Seq<Seq<u8>> {
    names.map_values(|name: Vec<u8>| name@)
}

/// `Arc::clone`: another handle on the same value.
#[verifier::external_body]
fn share<T>(value: &Arc<T>) -> (shared: Arc<T>)
    ensures
        shared == *value,
{
    Arc::clone(value)
}

/// Whether two byte strings are the same.
pub fn same_bytes(left: &[u8], right: &[u8]) -> (same: bool)
    ensures
        same == (left@ == right@),
{
    if left.len() != right.len() {
        return false;
    }
    let mut i: usize = 0;
    while i < left.len()
        invariant
            i <= left.len(),
            left@.len() == right@.len(),
            forall|j: int| 0 <= j < i ==> left@[j] == right@[j],
        decreases left.len() - i,
    {
        if left[i] != right[i] {
            return false;
        }
        i += 1;
    }
    assert(left@ =~= right@);
    true
}

/// A copy of a byte string.
pub fn copy_bytes(bytes: &[u8]) -> (copy: Vec<u8>)
    ensures
        copy@ == bytes@,
{
    let mut copy: Vec<u8> = Vec::new();
    push_bytes(&mut copy, bytes);
    assert(copy@ =~= bytes@);
    copy
}

/// Appends a byte string.
pub fn push_bytes(target: &mut Vec<u8>, bytes: &[u8])
    ensures
        final(target)@ == old(target)@ + bytes@,
{
    let mut i: usize = 0;
    while i < bytes.len()
        invariant
            i <= bytes.len(),
            target@ == old(target)@ + bytes@.take(i as int),
        decreases bytes.len() - i,
    {
        target.push(bytes[i]);
        assert(bytes@.take(i + 1) =~= bytes@.take(i as int).push(bytes@[i as int]));
        i += 1;
    }
    assert(bytes@.take(i as int) =~= bytes@);
}

/// A path.
#[derive(Debug)]
pub struct PathBuf {
    absolute: bool,
    names: Arc<Vec<Vec<u8>>>,
    text: Arc<Vec<u8>>,
}

impl View for PathBuf {
    type V = PathModel;

    closed spec fn view(&self) -> PathModel {
        PathModel { absolute: self.absolute, names: byte_names((*self.names)@) }
    }
}

impl Clone for PathBuf {
    fn clone(&self) -> (copy: Self)
        ensures
            copy == *self,
    {
        proof {
            use_type_invariant(self);
        }
        PathBuf {
            absolute: self.absolute,
            names: share(&self.names),
            text: share(&self.text),
        }
    }
}

/// Adds `piece` to `names` when it names something.
fn push_name(names: &mut Vec<Vec<u8>>, piece: Vec<u8>, leading: bool)
    ensures
        byte_names(final(names)@) == if is_name(piece@, leading) {
            byte_names(old(names)@).push(piece@)
        } else {
            byte_names(old(names)@)
        },
{
    let keep = piece.len() > 0 && (!(piece.len() == 1 && piece[0] == DOT) || leading);
    proof {
        if piece@.len() == 1 && piece@[0] == DOT {
            assert(piece@ =~= this_directory());
        }
    }
    if keep {
        let ghost before = names@;
        names.push(piece);
        assert(byte_names(names@) =~= byte_names(before).push(piece@));
    }
}

/// The names `text` holds.
fn split_names(text: &[u8], absolute: bool) -> (names: Vec<Vec<u8>>)
    ensures
        byte_names(names@) == named(pieces(text@), absolute),
{
    let mut names: Vec<Vec<u8>> = Vec::new();
    let mut piece: Vec<u8> = Vec::new();
    let mut leading: bool = !absolute;
    let mut i: usize = 0;
    proof {
        assert(text@.take(0) =~= Seq::empty());
        assert(pieces(text@.take(0)).drop_last() =~= Seq::empty());
        assert(byte_names(names@) =~= Seq::empty());
    }
    while i < text.len()
        invariant
            i <= text.len(),
            pieces(text@.take(i as int)).len() > 0,
            piece@ == pieces(text@.take(i as int)).last(),
            byte_names(names@) == named(pieces(text@.take(i as int)).drop_last(), absolute),
            leading == (pieces(text@.take(i as int)).len() == 1 && !absolute),
        decreases text.len() - i,
    {
        let ghost before = pieces(text@.take(i as int));
        proof {
            assert(text@.take(i + 1).drop_last() =~= text@.take(i as int));
            assert(text@.take(i + 1).last() == text@[i as int]);
        }
        if text[i] == SLASH {
            proof {
                assert(pieces(text@.take(i + 1)).drop_last() =~= before);
            }
            push_name(&mut names, piece, leading);
            piece = Vec::new();
            leading = false;
            proof {
                assert(piece@ =~= Seq::empty());
            }
        } else {
            piece.push(text[i]);
            proof {
                assert(pieces(text@.take(i + 1)).drop_last() =~= before.drop_last());
            }
        }
        i += 1;
    }
    proof {
        assert(text@.take(i as int) =~= text@);
    }
    push_name(&mut names, piece, leading);
    names
}

/// Where what says nothing at the end of a stretch of text begins.
fn tail_start(text: &[u8], end: usize) -> (start: usize)
    requires
        end <= text@.len(),
    ensures
        start <= end,
        text@.take(start as int) == without_tail(text@.take(end as int)),
{
    let mut start: usize = end;
    while start > 1 && (text[start - 1] == SLASH || (text[start - 1] == DOT && text[start - 2]
        == SLASH))
        invariant
            start <= end <= text@.len(),
            without_tail(text@.take(start as int)) == without_tail(text@.take(end as int)),
        decreases start,
    {
        assert(text@.take(start as int).drop_last() =~= text@.take(start - 1));
        start -= 1;
    }
    start
}

/// Where the last piece of a stretch of text begins.
fn last_piece_start(text: &[u8], end: usize) -> (start: usize)
    requires
        end <= text@.len(),
    ensures
        start <= end,
        start == end - pieces(text@.take(end as int)).last().len(),
{
    let mut start: usize = end;
    while start > 0 && text[start - 1] != SLASH
        invariant
            start <= end <= text@.len(),
            pieces(text@.take(start as int)).last().len() + (end - start) == pieces(
                text@.take(end as int),
            ).last().len(),
        decreases start,
    {
        assert(text@.take(start as int).drop_last() =~= text@.take(start - 1));
        start -= 1;
    }
    proof {
        if start > 0 {
            assert(text@.take(start as int).last() == SLASH);
        } else {
            assert(text@.take(0) =~= Seq::<u8>::empty());
        }
    }
    start
}

/// No piece holds a slash, and there is always at least one.
proof fn lemma_pieces_hold_no_slash(text: Seq<u8>)
    ensures
        pieces(text).len() > 0,
        forall|i: int| 0 <= i < pieces(text).len() ==> !(#[trigger] pieces(text)[i]).contains(SLASH),
    decreases text.len(),
{
    if text.len() > 0 {
        let before = pieces(text.drop_last());
        lemma_pieces_hold_no_slash(text.drop_last());
        assert forall|i: int| 0 <= i < pieces(text).len() implies !(
        #[trigger] pieces(text)[i]).contains(SLASH) by {
            if text.last() != SLASH && i == before.len() - 1 {
                let last = before.last();
                assert(!last.contains(SLASH));
                assert forall|k: int| 0 <= k < last.push(text.last()).len() implies last.push(
                    text.last(),
                )[k] != SLASH by {
                    if k < last.len() {
                        assert(last.contains(last[k]));
                    }
                }
            } else if i < before.len() {
                assert(pieces(text)[i] == before[i]);
            }
        }
    }
}

/// Names taken from slash-free pieces are the names of a valid path.
proof fn lemma_named_is_valid(all: Seq<Seq<u8>>, absolute: bool)
    requires
        forall|i: int| 0 <= i < all.len() ==> !(#[trigger] all[i]).contains(SLASH),
    ensures
        (PathModel { absolute, names: named(all, absolute) }).valid(),
        all.len() == 0 ==> named(all, absolute).len() == 0,
        forall|i: int|
            0 <= i < named(all, absolute).len() && absolute ==> #[trigger] named(
                all,
                absolute,
            )[i] != this_directory(),
    decreases all.len(),
{
    if all.len() > 0 {
        let before = all.drop_last();
        assert forall|i: int| 0 <= i < before.len() implies !(#[trigger] before[i]).contains(
            SLASH,
        ) by {
            assert(before[i] == all[i]);
        }
        lemma_named_is_valid(before, absolute);
        assert(!all[all.len() - 1].contains(SLASH));
        let path = PathModel { absolute, names: named(all, absolute) };
        let shorter = PathModel { absolute, names: named(before, absolute) };
        assert forall|i: int| 0 <= i < path.names.len() implies is_name(
            #[trigger] path.names[i],
            i == 0 && !absolute,
        ) && !path.names[i].contains(SLASH) by {
            if i < shorter.names.len() {
                assert(path.names[i] == shorter.names[i]);
            } else {
                assert(path.names[i] == all.last());
            }
        }
    }
}

/// What a text says as a path is a valid path.
pub proof fn lemma_parsed_is_valid(text: Seq<u8>)
    ensures
        parsed(text).valid(),
{
    lemma_pieces_hold_no_slash(text);
    lemma_named_is_valid(pieces(text), parsed(text).absolute);
}

/// Reading further bytes that hold no slash extends the last piece.
proof fn lemma_pieces_extend_last(text: Seq<u8>, tail: Seq<u8>)
    requires
        !tail.contains(SLASH),
    ensures
        pieces(text + tail) == pieces(text).drop_last().push(pieces(text).last() + tail),
    decreases tail.len(),
{
    lemma_pieces_hold_no_slash(text);
    if tail.len() == 0 {
        assert(text + tail =~= text);
        assert(pieces(text).last() + tail =~= pieces(text).last());
        assert(pieces(text).drop_last().push(pieces(text).last()) =~= pieces(text));
    } else {
        let shorter = tail.drop_last();
        assert forall|k: int| 0 <= k < shorter.len() implies shorter[k] != SLASH by {
            assert(tail.contains(tail[k]));
        }
        lemma_pieces_extend_last(text, shorter);
        assert((text + tail).drop_last() =~= text + shorter);
        assert(tail.contains(tail.last()));
        assert((text + tail).last() == tail.last());
        let before = pieces(text + shorter);
        assert(before.drop_last() =~= pieces(text).drop_last());
        assert((pieces(text).last() + shorter).push(tail.last()) =~= pieces(text).last() + tail);
    }
}

/// Writing names with slashes between them and reading them back gives the
/// names, after whatever stood before.
proof fn lemma_pieces_of_joined(front: Seq<u8>, names: Seq<Seq<u8>>)
    requires
        names.len() > 0,
        front.len() == 0 || front =~= seq![SLASH],
        forall|i: int| 0 <= i < names.len() ==> !(#[trigger] names[i]).contains(SLASH),
    ensures
        pieces(front + joined_names(names)) == (if front.len() == 0 {
            names
        } else {
            seq![Seq::<u8>::empty()] + names
        }),
    decreases names.len(),
{
    reveal_with_fuel(pieces, 3);
    let start: Seq<Seq<u8>> = if front.len() == 0 {
        Seq::empty()
    } else {
        seq![Seq::<u8>::empty()]
    };
    if names.len() == 1 {
        lemma_pieces_extend_last(front, names[0]);
        assert(pieces(Seq::<u8>::empty()) =~= seq![Seq::<u8>::empty()]);
        if front.len() == 1 {
            assert(front.drop_last() =~= Seq::<u8>::empty());
            assert(pieces(front) =~= seq![Seq::<u8>::empty(), Seq::<u8>::empty()]);
        } else {
            assert(front =~= Seq::<u8>::empty());
        }
        assert(Seq::<u8>::empty() + names[0] =~= names[0]);
        assert(pieces(front + names[0]) =~= start + names);
        assert(start + names =~= (if front.len() == 0 { names } else { start + names }));
    } else {
        let shorter = names.drop_last();
        lemma_pieces_of_joined(front, shorter);
        let text = front + joined_names(shorter);
        assert((front + joined_names(shorter).push(SLASH)) =~= text.push(SLASH));
        assert(text.push(SLASH).drop_last() =~= text);
        lemma_pieces_extend_last(text.push(SLASH), names.last());
        assert(front + joined_names(names) =~= text.push(SLASH) + names.last());
        assert(pieces(text.push(SLASH)).drop_last() =~= pieces(text));
        assert(Seq::<u8>::empty() + names.last() =~= names.last());
        assert(pieces(front + joined_names(names)) =~= start + names);
        assert(start + names =~= (if front.len() == 0 { names } else { start + names }));
    }
}

/// Taking names out of names changes nothing.
proof fn lemma_named_of_names(path: PathModel)
    requires
        path.valid(),
    ensures
        named(path.names, path.absolute) == path.names,
    decreases path.names.len(),
{
    if path.names.len() > 0 {
        let shorter = PathModel { absolute: path.absolute, names: path.names.drop_last() };
        assert forall|i: int| 0 <= i < shorter.names.len() implies is_name(
            #[trigger] shorter.names[i],
            i == 0 && !path.absolute,
        ) && !shorter.names[i].contains(SLASH) by {
            assert(shorter.names[i] == path.names[i]);
        }
        lemma_named_of_names(shorter);
        assert(is_name(path.names[path.names.len() - 1], path.names.len() == 1 && !path.absolute));
        assert(path.names.drop_last().push(path.names.last()) =~= path.names);
    }
}

/// An empty piece in front names nothing.
proof fn lemma_named_after_root(names: Seq<Seq<u8>>)
    ensures
        named(seq![Seq::<u8>::empty()] + names, true) == named(names, true),
    decreases names.len(),
{
    let all = seq![Seq::<u8>::empty()] + names;
    if names.len() == 0 {
        assert(all.drop_last() =~= Seq::<Seq<u8>>::empty());
        assert(named(all.drop_last(), true) =~= Seq::<Seq<u8>>::empty());
        assert(named(names, true) =~= Seq::<Seq<u8>>::empty());
    } else {
        assert(all.drop_last() =~= seq![Seq::<u8>::empty()] + names.drop_last());
        assert(all.last() == names.last());
        lemma_named_after_root(names.drop_last());
    }
}

/// Writing a path out and reading it back gives the same path.
pub proof fn lemma_parse_reverses_render(path: PathModel)
    requires
        path.valid(),
    ensures
        parsed(rendered(path)) == path,
{
    let text = rendered(path);
    if path.names.len() == 0 {
        if path.absolute {
            reveal_with_fuel(pieces, 3);
            reveal_with_fuel(named, 3);
            assert(text =~= seq![SLASH]);
            assert(text.drop_last() =~= Seq::<u8>::empty());
            assert(pieces(text) =~= seq![Seq::<u8>::empty(), Seq::<u8>::empty()]);
            assert(pieces(text).drop_last() =~= seq![Seq::<u8>::empty()]);
            assert(pieces(text).drop_last().drop_last() =~= Seq::<Seq<u8>>::empty());
            assert(named(pieces(text), true) =~= Seq::<Seq<u8>>::empty());
        } else {
            reveal_with_fuel(named, 2);
            assert(text =~= Seq::<u8>::empty());
            assert(pieces(text) =~= seq![Seq::<u8>::empty()]);
            assert(pieces(text).drop_last() =~= Seq::<Seq<u8>>::empty());
            assert(named(pieces(text), false) =~= Seq::<Seq<u8>>::empty());
        }
        assert(parsed(text).names =~= path.names);
    } else {
        lemma_named_of_names(path);
        if path.absolute {
            lemma_pieces_of_joined(seq![SLASH], path.names);
            lemma_named_after_root(path.names);
        } else {
            lemma_pieces_of_joined(Seq::<u8>::empty(), path.names);
            assert(Seq::<u8>::empty() + joined_names(path.names) =~= joined_names(path.names));
            lemma_joined_begins_with_first(path.names);
            assert(path.names[0].contains(path.names[0][0]));
        }
    }
}

/// Joined names begin with the first of them.
proof fn lemma_joined_begins_with_first(names: Seq<Seq<u8>>)
    requires
        names.len() > 0,
        names[0].len() > 0,
    ensures
        joined_names(names).len() > 0,
        joined_names(names)[0] == names[0][0],
    decreases names.len(),
{
    if names.len() > 1 {
        lemma_joined_begins_with_first(names.drop_last());
    }
}

/// Text after a slash is read on its own.
proof fn lemma_pieces_after_slash(front: Seq<u8>, text: Seq<u8>)
    ensures
        pieces(front.push(SLASH) + text) == pieces(front) + pieces(text),
    decreases text.len(),
{
    let whole = front.push(SLASH) + text;
    lemma_pieces_hold_no_slash(front);
    lemma_pieces_hold_no_slash(text);
    if text.len() == 0 {
        assert(whole =~= front.push(SLASH));
        assert(whole.drop_last() =~= front);
        assert(pieces(whole) =~= pieces(front) + pieces(text));
    } else {
        let shorter = text.drop_last();
        lemma_pieces_after_slash(front, shorter);
        lemma_pieces_hold_no_slash(shorter);
        assert(whole.drop_last() =~= front.push(SLASH) + shorter);
        assert(whole.last() == text.last());
        assert(pieces(whole) =~= pieces(front) + pieces(text));
    }
}

/// Names are taken from pieces one after another.
proof fn lemma_named_of_both(front: Seq<Seq<u8>>, back: Seq<Seq<u8>>, absolute: bool)
    requires
        front.len() > 0,
    ensures
        named(front + back, absolute) == named(front, absolute) + named(back, true),
    decreases back.len(),
{
    if back.len() == 0 {
        assert(front + back =~= front);
        assert(named(front + back, absolute) =~= named(front, absolute) + named(back, true));
    } else {
        assert((front + back).drop_last() =~= front + back.drop_last());
        assert((front + back).last() == back.last());
        lemma_named_of_both(front, back.drop_last(), absolute);
        assert(named(front + back, absolute) =~= named(front, absolute) + named(back, true));
    }
}

/// No text says nothing.
proof fn lemma_no_text_says_nothing(text: Seq<u8>)
    requires
        text.len() == 0,
    ensures
        parsed(text).is_empty(),
{
    let nothing = PathModel { absolute: false, names: Seq::empty() };
    lemma_parse_reverses_render(nothing);
    assert(rendered(nothing) =~= text);
}

/// Reading joined text is joining what was read.
pub proof fn lemma_joined_text_says_join(base: Seq<u8>, text: Seq<u8>)
    ensures
        parsed(joined_text(base, text)) == parsed(base).join(text),
{
    if base.len() == 0 {
        lemma_no_text_says_nothing(base);
    } else if text.len() > 0 && text[0] == SLASH {
    } else {
        let front = if base.last() == SLASH {
            base.drop_last()
        } else {
            base
        };
        let absolute = base[0] == SLASH;
        let whole = joined_text(base, text);
        assert(front.push(SLASH) + text =~= whole);
        assert(whole[0] == base[0]);
        lemma_pieces_after_slash(front, text);
        lemma_pieces_hold_no_slash(front);
        lemma_named_of_both(pieces(front), pieces(text), absolute);
        // A slash at the end adds nothing.
        if base.last() == SLASH {
            assert(pieces(base).drop_last() =~= pieces(front));
            assert(named(pieces(base), absolute) == named(pieces(front), absolute));
        }
        if !absolute {
            lemma_relative_text_says_something(base);
        }
        assert(parsed(whole).names =~= parsed(base).join(text).names);
    }
}

/// Text that does not begin at the root says something, if it is any.
proof fn lemma_relative_text_says_something(text: Seq<u8>)
    requires
        text.len() > 0,
        text[0] != SLASH,
    ensures
        pieces(text)[0].len() > 0,
        named(pieces(text), false).len() > 0,
    decreases text.len(),
{
    reveal_with_fuel(named, 2);
    lemma_pieces_hold_no_slash(text);
    if text.len() == 1 {
        assert(text.drop_last() =~= Seq::<u8>::empty());
        assert(pieces(text.drop_last()) =~= seq![Seq::<u8>::empty()]);
        assert(pieces(text) =~= seq![Seq::<u8>::empty().push(text.last())]);
        assert(pieces(text).drop_last() =~= Seq::<Seq<u8>>::empty());
    } else {
        let before = text.drop_last();
        lemma_relative_text_says_something(before);
        lemma_pieces_hold_no_slash(before);
        if text.last() == SLASH {
            assert(pieces(text).drop_last() =~= pieces(before));
        } else if pieces(before).len() == 1 {
            assert(pieces(text).drop_last() =~= Seq::<Seq<u8>>::empty());
        } else {
            assert(pieces(text).drop_last() =~= pieces(before).drop_last());
            lemma_first_piece_is_named(pieces(before).drop_last());
        }
    }
}

/// A first piece that holds something is a name.
proof fn lemma_first_piece_is_named(all: Seq<Seq<u8>>)
    requires
        all.len() > 0,
        all[0].len() > 0,
    ensures
        named(all, false).len() > 0,
    decreases all.len(),
{
    reveal_with_fuel(named, 2);
    if all.len() > 1 {
        lemma_first_piece_is_named(all.drop_last());
    }
}

/// Only a `.` in front is read differently after a slash.
proof fn lemma_named_after_slash(all: Seq<Seq<u8>>)
    ensures
        named(all, true) == (if all.len() > 0 && all[0] == this_directory() {
            named(all, false).skip(1)
        } else {
            named(all, false)
        }),
        all.len() > 0 && all[0] == this_directory() ==> named(all, false).len() > 0 && named(
            all,
            false,
        )[0] == this_directory(),
        named(all, false).len() > 0 && named(all, false)[0] == this_directory() ==> all[0]
            == this_directory(),
    decreases all.len(),
{
    reveal_with_fuel(named, 2);
    if all.len() > 1 {
        lemma_named_after_slash(all.drop_last());
        assert(named(all, true) =~= (if all[0] == this_directory() {
            named(all, false).skip(1)
        } else {
            named(all, false)
        }));
    } else if all.len() == 1 {
        assert(all.drop_last() =~= Seq::<Seq<u8>>::empty());
        assert(named(all, true) =~= (if all[0] == this_directory() {
            named(all, false).skip(1)
        } else {
            named(all, false)
        }));
    }
}

/// What says nothing at the end of a text may go.
proof fn lemma_tail_says_nothing(text: Seq<u8>)
    ensures
        parsed(without_tail(text)) == parsed(text),
        without_tail(text).len() <= text.len(),
        ({
            let left = without_tail(text);
            left.len() <= 1 || (left.last() != SLASH && !(left.last() == DOT && left[left.len()
                - 2] == SLASH))
        }),
        text.len() > 0 ==> without_tail(text).len() > 0 && without_tail(text)[0] == text[0],
    decreases text.len(),
{
    let shorter = text.drop_last();
    if text.len() > 1 && text.last() == SLASH {
        lemma_tail_says_nothing(shorter);
        lemma_slash_adds_nothing(shorter);
        assert(shorter.push(SLASH) =~= text);
    } else if text.len() > 1 && text.last() == DOT && text[text.len() - 2] == SLASH {
        lemma_tail_says_nothing(shorter);
        let front = shorter.drop_last();
        let dot = seq![DOT];
        assert(front.push(SLASH) =~= shorter);
        assert(front.push(SLASH) + dot =~= text);
        lemma_pieces_after_slash(front, dot);
        lemma_pieces_after_slash(front, Seq::empty());
        assert(front.push(SLASH) + Seq::<u8>::empty() =~= shorter);
        lemma_pieces_hold_no_slash(front);
        reveal_with_fuel(pieces, 2);
        reveal_with_fuel(named, 2);
        assert(dot.drop_last() =~= Seq::<u8>::empty());
        assert(pieces(dot) =~= seq![this_directory()]);
        assert(named(pieces(dot), true) =~= Seq::<Seq<u8>>::empty());
        assert(named(pieces(Seq::<u8>::empty()), true) =~= Seq::<Seq<u8>>::empty());
        let absolute = text[0] == SLASH;
        lemma_named_of_both(pieces(front), pieces(dot), absolute);
        lemma_named_of_both(pieces(front), pieces(Seq::<u8>::empty()), absolute);
    }
}

/// A slash at the end of a text adds nothing to it.
proof fn lemma_slash_adds_nothing(text: Seq<u8>)
    requires
        text.len() > 0,
    ensures
        parsed(text.push(SLASH)) == parsed(text),
{
    let longer = text.push(SLASH);
    assert(longer.drop_last() =~= text);
    assert(pieces(longer).drop_last() =~= pieces(text));
    assert(longer[0] == text[0]);
}

/// The last piece of a text ends it, and an empty one takes its place without
/// it.
proof fn lemma_without_last_piece(text: Seq<u8>)
    ensures
        pieces(text).len() > 0,
        pieces(text).last().len() <= text.len(),
        pieces(text.take(text.len() - pieces(text).last().len())) == pieces(text).drop_last().push(
            Seq::<u8>::empty(),
        ),
    decreases text.len(),
{
    lemma_pieces_hold_no_slash(text);
    let last = pieces(text).last();
    let all = pieces(text);
    if text.len() == 0 {
        assert(text.take(0) =~= text);
        assert(all.drop_last().push(Seq::<u8>::empty()) =~= all);
    } else if text.last() == SLASH {
        assert(last =~= Seq::<u8>::empty());
        assert(text.take(text.len() as int) =~= text);
        assert(all.drop_last().push(Seq::<u8>::empty()) =~= all);
    } else {
        let shorter = text.drop_last();
        lemma_without_last_piece(shorter);
        let before = pieces(shorter);
        assert(last == before.last().push(text.last()));
        assert(text.take(text.len() - last.len()) =~= shorter.take(
            shorter.len() - before.last().len(),
        ));
        assert(all.drop_last() =~= before.drop_last());
    }
}

/// A text that ends in something more than a slash ends in a name.
proof fn lemma_last_piece_is_a_name(text: Seq<u8>)
    requires
        text.len() > 0,
        text.last() != SLASH,
        text.len() > 1 ==> !(text.last() == DOT && text[text.len() - 2] == SLASH),
    ensures
        is_name(pieces(text).last(), pieces(text).len() == 1 && text[0] != SLASH),
{
    let shorter = text.drop_last();
    let last = pieces(text).last();
    lemma_pieces_hold_no_slash(shorter);
    lemma_without_last_piece(shorter);
    assert(last == pieces(shorter).last().push(text.last()));
    if last == this_directory() {
        assert(last.len() == 1);
        assert(pieces(shorter).last().len() == 0);
        assert(last.last() == text.last());
        if shorter.len() > 0 && shorter.last() != SLASH {
            assert(pieces(shorter).last().len() > 0);
        }
        assert(shorter.len() == 0);
        assert(pieces(shorter) =~= seq![Seq::<u8>::empty()]);
        assert(text[0] == DOT);
    }
}

/// Reading the text of the directory a path is in gives that directory.
pub proof fn lemma_parent_text_says_parent(text: Seq<u8>)
    requires
        parsed(text).names.len() > 0,
    ensures
        parsed(text).parent() == Some(parsed(parent_text(text))),
{
    let whole = without_tail(text);
    lemma_tail_says_nothing(text);
    let last = pieces(whole).last();
    let front = whole.take(whole.len() - last.len());
    lemma_without_last_piece(whole);
    lemma_tail_says_nothing(front);
    if whole.len() == 0 {
        lemma_no_text_says_nothing(whole);
    } else if whole.last() == SLASH {
        assert(whole =~= seq![SLASH]);
        let root = PathModel { absolute: true, names: Seq::empty() };
        lemma_parse_reverses_render(root);
        assert(rendered(root) =~= whole);
    } else {
        let absolute = whole[0] == SLASH;
        lemma_last_piece_is_a_name(whole);
        lemma_pieces_hold_no_slash(whole);
        if absolute {
            assert(!pieces(whole)[pieces(whole).len() - 1].contains(SLASH));
            if last.len() == whole.len() {
                assert(front =~= Seq::<u8>::empty());
                lemma_pieces_begin_empty(whole);
            }
            assert(front[0] == whole[0]);
        } else if front.len() > 0 {
            assert(front[0] == whole[0]);
        }
        let all = pieces(whole);
        assert(pieces(front).drop_last() =~= all.drop_last());
        assert(named(all, absolute) == named(all.drop_last(), absolute).push(last));
        assert(named(pieces(front), absolute) == named(all.drop_last(), absolute));
        assert(named(all, absolute).drop_last() =~= named(all.drop_last(), absolute));
    }
}

/// What begins with a slash has more than one piece.
proof fn lemma_pieces_begin_empty(text: Seq<u8>)
    requires
        text.len() > 0,
        text[0] == SLASH,
    ensures
        pieces(text).len() > 1,
        pieces(text).last().len() < text.len(),
    decreases text.len(),
{
    reveal_with_fuel(pieces, 2);
    if text.len() > 1 {
        lemma_pieces_begin_empty(text.drop_last());
    } else {
        assert(text.drop_last() =~= Seq::<u8>::empty());
    }
}

/// Joining the text of a path is going on with what it says.
proof fn lemma_join_is_extended(path: PathModel, text: Seq<u8>)
    ensures
        path.join(text) == path.extended(parsed(text)),
{
    if !parsed(text).absolute && !path.is_empty() {
        lemma_named_after_slash(pieces(text));
        assert(path.join(text).names =~= path.extended(parsed(text)).names);
    }
}

impl PathBuf {
    /// How this path is spelled.
    pub closed spec fn text(self) -> Seq<u8> {
        (*self.text)@
    }

    /// Every path is what its text says, and so one a text can say.
    #[verifier::type_invariant]
    pub open spec fn well_formed(self) -> bool {
        &&& self@.valid()
        &&& parsed(self.text()) == self@
    }

    /// A path that says nothing.
    pub fn new() -> (path: PathBuf)
        ensures
            path@.is_empty(),
            path.text().len() == 0,
    {
        let path = PathBuf::from_bytes(&[]);
        proof {
            lemma_no_text_says_nothing(path.text());
        }
        path
    }

    /// Reads a path.
    pub fn from_bytes(text: &[u8]) -> (path: PathBuf)
        ensures
            path@ == parsed(text@),
            path.text() == text@,
    {
        let absolute = text.len() > 0 && text[0] == SLASH;
        proof {
            lemma_parsed_is_valid(text@);
        }
        let names = split_names(text, absolute);
        PathBuf { absolute, names: Arc::new(names), text: Arc::new(copy_bytes(text)) }
    }

    /// Whether this path begins at the root.
    pub fn is_absolute(&self) -> (absolute: bool)
        ensures
            absolute == self@.absolute,
    {
        self.absolute
    }

    /// How many names this path holds.
    pub fn name_count(&self) -> (count: usize)
        ensures
            count == self@.names.len(),
    {
        self.names.len()
    }

    /// One of the names of this path.
    pub fn name_at(&self, i: usize) -> (name: &[u8])
        requires
            i < self@.names.len(),
        ensures
            name@ == self@.names[i as int],
    {
        self.names[i].as_slice()
    }

    /// The text of this path, as it was spelled.
    pub fn to_bytes(&self) -> (text: Vec<u8>)
        ensures
            text@ == self.text(),
    {
        copy_bytes(self.text.as_slice())
    }

    /// A path of these names, spelled plainly.
    fn plain(absolute: bool, names: Vec<Vec<u8>>) -> (path: PathBuf)
        requires
            (PathModel { absolute, names: byte_names(names@) }).valid(),
        ensures
            path@ == (PathModel { absolute, names: byte_names(names@) }),
            path.text() == rendered(path@),
    {
        let mut joined: Vec<u8> = Vec::new();
        let mut i: usize = 0;
        let ghost said = byte_names(names@);
        assert(said.take(0) =~= Seq::empty());
        if absolute {
            joined.push(SLASH);
        }
        let ghost root = joined@;
        assert(root =~= if absolute { seq![SLASH] } else { Seq::empty() });
        while i < names.len()
            invariant
                i <= names.len(),
                said == byte_names(names@),
                joined@ == root + joined_names(said.take(i as int)),
            decreases names.len() - i,
        {
            let ghost sofar = said.take(i as int);
            if i > 0 {
                joined.push(SLASH);
            }
            push_bytes(&mut joined, names[i].as_slice());
            proof {
                let longer = said.take(i + 1);
                assert(longer.drop_last() =~= sofar);
                assert(longer.last() == names@[i as int]@);
                if i == 0 {
                    assert(joined@ =~= root + joined_names(longer));
                } else {
                    assert(joined@ =~= root + (joined_names(sofar).push(SLASH) + longer.last()));
                }
            }
            i += 1;
        }
        proof {
            assert(said.take(i as int) =~= said);
            let model = PathModel { absolute, names: said };
            assert(joined@ =~= rendered(model));
            lemma_parse_reverses_render(model);
        }
        PathBuf { absolute, names: Arc::new(names), text: Arc::new(joined) }
    }

    /// The text of this path as it is shown to the user.
    pub fn display(&self) -> (text: String)
        ensures
            text@ == utf8_lossy(self.text()),
    {
        lossy(self.text.as_slice())
    }

    /// Whether two paths say the same.
    pub fn same(&self, other: &PathBuf) -> (same: bool)
        ensures
            same == (self@ == other@),
    {
        if self.absolute != other.absolute || self.names.len() != other.names.len() {
            assert(self@.names.len() == self.names@.len() && other@.names.len()
                == other.names@.len());
            return false;
        }
        let prefix = self.has_prefix(other);
        proof {
            if prefix {
                assert(self@.names =~= other@.names);
            }
        }
        prefix
    }

    /// Whether the names of `other` come first among the names of `self`.
    fn has_prefix(&self, other: &PathBuf) -> (prefix: bool)
        ensures
            prefix == other@.names.is_prefix_of(self@.names),
    {
        if other.names.len() > self.names.len() {
            assert(other@.names.len() > self@.names.len());
            return false;
        }
        let mut i: usize = 0;
        while i < other.names.len()
            invariant
                i <= other.names.len() <= self.names.len(),
                other.names.len() == other@.names.len(),
                self.names.len() == self@.names.len(),
                forall|j: int| 0 <= j < i ==> self@.names[j] == other@.names[j],
            decreases other.names.len() - i,
        {
            let same = same_bytes(self.names[i].as_slice(), other.names[i].as_slice());
            assert(self@.names[i as int] == self.names@[i as int]@);
            assert(other@.names[i as int] == other.names@[i as int]@);
            if !same {
                assert(self@.names.subrange(0, other@.names.len() as int)[i as int]
                    != other@.names[i as int]);
                return false;
            }
            i += 1;
        }
        assert(self@.names.subrange(0, other@.names.len() as int) =~= other@.names);
        true
    }

    /// The directory this path is in.
    pub fn parent(&self) -> (parent: Option<PathBuf>)
        ensures
            match parent {
                Some(parent) => self@.parent() == Some(parent@) && parent.text() == parent_text(
                    self.text(),
                ),
                None => self@.parent() is None,
            },
    {
        if self.names.len() == 0 {
            return None;
        }
        proof {
            use_type_invariant(self);
            lemma_parent_text_says_parent(self.text());
        }
        let text = self.text.as_slice();
        let end: usize = tail_start(text, text.len());
        let start: usize = last_piece_start(text, end);
        let end: usize = tail_start(text, start);
        proof {
            let whole = without_tail(text@);
            assert(text@.take(text@.len() as int) =~= text@);
            assert(whole.take(start as int) =~= text@.take(start as int));
        }
        Some(PathBuf::from_bytes(vstd::slice::slice_subrange(text, 0, end)))
    }

    /// The last name of this path, unless it is `.` or `..`.
    pub fn file_name(&self) -> (name: Option<&[u8]>)
        ensures
            match name {
                Some(name) => self@.file_name() == Some(name@),
                None => self@.file_name() is None,
            },
    {
        if self.names.len() == 0 {
            return None;
        }
        let name = self.names[self.names.len() - 1].as_slice();
        assert(self@.names.last() == name@);
        let special = (name.len() == 1 && name[0] == DOT) || (name.len() == 2 && name[0] == DOT
            && name[1] == DOT);
        proof {
            if name@.len() == 1 && name@[0] == DOT {
                assert(name@ =~= this_directory());
            }
            if name@.len() == 2 && name@[0] == DOT && name@[1] == DOT {
                assert(name@ =~= parent_directory());
            }
        }
        if special {
            None
        } else {
            Some(name)
        }
    }

    /// This path with `text` read from inside it.
    pub fn join(&self, text: &[u8]) -> (path: PathBuf)
        ensures
            path@ == self@.join(text@),
            path.text() == joined_text(self.text(), text@),
    {
        proof {
            use_type_invariant(self);
            lemma_joined_text_says_join(self.text(), text@);
        }
        if self.text.len() == 0 || (text.len() > 0 && text[0] == SLASH) {
            return PathBuf::from_bytes(text);
        }
        let mut whole = copy_bytes(self.text.as_slice());
        if whole[whole.len() - 1] != SLASH {
            whole.push(SLASH);
        }
        push_bytes(&mut whole, text);
        PathBuf::from_bytes(whole.as_slice())
    }

    /// Whether `prefix` is this path or one of the directories it is in.
    pub fn starts_with(&self, prefix: &PathBuf) -> (inside: bool)
        ensures
            inside == self@.starts_with(prefix@),
    {
        if !prefix.absolute && prefix.names.len() == 0 {
            return true;
        }
        self.absolute == prefix.absolute && self.has_prefix(prefix)
    }

    /// What this path says after `prefix`.
    pub fn strip_prefix(&self, prefix: &PathBuf) -> (rest: Option<PathBuf>)
        ensures
            match rest {
                Some(rest) => self@.strip_prefix(prefix@) == Some(rest@) && rest.text() == (
                if prefix@.is_empty() {
                    self.text()
                } else {
                    rendered(rest@)
                }),
                None => self@.strip_prefix(prefix@) is None,
            },
    {
        if !prefix.absolute && prefix.names.len() == 0 {
            return Some(self.clone());
        }
        if !self.starts_with(prefix) {
            return None;
        }
        let mut names: Vec<Vec<u8>> = Vec::new();
        let start: usize = prefix.names.len();
        proof {
            assert(prefix@.names.len() <= self@.names.len());
        }
        let mut i: usize = start;
        while i < self.names.len()
            invariant
                start <= i <= self.names.len(),
                byte_names(names@) == self@.names.subrange(start as int, i as int),
            decreases self.names.len() - i,
        {
            let ghost before = names@;
            let name = copy_bytes(self.names[i].as_slice());
            names.push(name);
            proof {
                assert(byte_names(names@) =~= byte_names(before).push(name@));
                assert(self@.names.subrange(start as int, i + 1) =~= self@.names.subrange(
                    start as int,
                    i as int,
                ).push(self@.names[i as int]));
            }
            i += 1;
        }
        proof {
            use_type_invariant(self);
            let rest = self@.strip_prefix(prefix@).unwrap();
            assert(byte_names(names@) =~= rest.names);
            assert forall|j: int| 0 <= j < rest.names.len() implies is_name(
                #[trigger] rest.names[j],
                j == 0 && !rest.absolute,
            ) && !rest.names[j].contains(SLASH) by {
                assert(rest.names[j] == self@.names[j + start]);
            }
        }
        Some(PathBuf::plain(false, names))
    }

    /// This path with everything `relative` says after it.
    pub fn extended(&self, relative: &PathBuf) -> (path: PathBuf)
        ensures
            path@ == self@.extended(relative@),
            path.text() == joined_text(self.text(), relative.text()),
    {
        proof {
            use_type_invariant(relative);
            lemma_join_is_extended(self@, relative.text());
        }
        self.join(relative.text.as_slice())
    }
}

impl Default for PathBuf {
    fn default() -> (path: PathBuf)
        ensures
            path@.is_empty(),
    {
        PathBuf::new()
    }
}

/// Joining one name and asking for the last name gives that name back.
pub proof fn lemma_join_then_file_name(path: PathModel, name: Seq<u8>)
    requires
        name.len() > 0,
        !name.contains(SLASH),
        name != this_directory(),
        name != parent_directory(),
    ensures
        path.join(name).file_name() == Some(name),
        path.join(name).parent() == Some(path),
        path.join(name).names == path.names.push(name),
{
    lemma_pieces_extend_last(Seq::empty(), name);
    assert(Seq::<u8>::empty() + name =~= name);
    assert(pieces(Seq::<u8>::empty()) =~= seq![Seq::<u8>::empty()]);
    assert(pieces(name) =~= seq![name]);
    assert(pieces(name).drop_last() =~= Seq::<Seq<u8>>::empty());
    assert(name.contains(name[0]));
    assert(named(pieces(name).drop_last(), true) =~= Seq::<Seq<u8>>::empty());
    assert(named(pieces(name).drop_last(), false) =~= Seq::<Seq<u8>>::empty());
    assert(named(pieces(name), true) =~= seq![name]);
    assert(named(pieces(name), false) =~= seq![name]);
    assert(path.join(name).names =~= path.names.push(name));
    assert(path.join(name).names.drop_last() =~= path.names);
}

/// What follows a prefix, put after that prefix again, is the whole path.
pub proof fn lemma_strip_then_extend(path: PathModel, prefix: PathModel)
    requires
        path.valid(),
        path.starts_with(prefix),
        !prefix.is_empty(),
    ensures
        prefix.extended(path.strip_prefix(prefix).unwrap()) == path,
{
    let rest = path.strip_prefix(prefix).unwrap();
    if rest.names.len() > 0 {
        let at = prefix.names.len() as int;
        assert(rest.names[0] == path.names[at]);
        assert(is_name(path.names[at], at == 0 && !path.absolute));
    }
    assert(prefix.extended(rest).names =~= path.names);
}

} // verus!
