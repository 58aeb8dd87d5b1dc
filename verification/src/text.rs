//! Text: the messages shown to the user and the byte strings file names are
//! made of.

use vstd::prelude::*;
use vstd::utf8::*;

verus! {

/// `String::push`: appends one character to the end.
pub assume_specification[ String::push ](s: &mut String, c: char)
    ensures
        final(s)@ == old(s)@.push(c),
;

/// What `String::from_utf8_lossy` makes of a byte string.
pub uninterp spec fn utf8_lossy(bytes: Seq<u8>) -> Seq<char>;

/// `String::from_utf8_lossy`: the text of `bytes`, with whatever is not UTF-8
/// replaced. Valid UTF-8 comes through as it is; which replacement stands for
/// which bytes is left unsaid.
#[verifier::external_body]
pub(crate) fn lossy(bytes: &[u8]) -> (text: String)
    ensures
        text@ == utf8_lossy(bytes@),
        valid_utf8(bytes@) ==> text@ == decode_utf8(bytes@),
{
    String::from_utf8_lossy(bytes).into_owned()
}

/// `str::from_utf8`: the text of `bytes` when they are UTF-8, and nothing
/// otherwise.
#[verifier::external_body]
pub(crate) fn strict(bytes: &[u8]) -> (text: Option<String>)
    ensures
        match text {
            Some(text) => valid_utf8(bytes@) && text@ == decode_utf8(bytes@),
            None => !valid_utf8(bytes@),
        },
{
    std::str::from_utf8(bytes).ok().map(|text| text.to_owned())
}

/// What `str::to_lowercase` makes of a text.
pub uninterp spec fn lowercased(text: Seq<char>) -> Seq<char>;

/// `str::to_lowercase`: the text with every character in lower case by
/// Unicode's rules.
#[verifier::external_body]
pub(crate) fn lowercase(text: &str) -> (lower: String)
    ensures
        lower@ == lowercased(text@),
{
    text.to_lowercase()
}

/// The characters of a text.
pub fn chars_of(text: &str) -> (chars: Vec<char>)
    ensures
        chars@ == text@,
{
    let mut chars: Vec<char> = Vec::new();
    for c in iter: text.chars()
        invariant
            chars@ == iter.seq().take(iter.index()),
            iter.seq() == text@,
    {
        assert(iter.seq().take(iter.index() + 1) =~= iter.seq().take(iter.index()).push(c));
        chars.push(c);
    }
    assert(text@.take(text@.len() as int) =~= text@);
    chars
}

/// The decimal digits of a number, most significant first.
pub open spec fn decimal_bytes(n: nat) -> Seq<u8>
    decreases n,
{
    if n < 10 {
        seq![(48 + n) as u8]
    } else {
        decimal_bytes(n / 10).push((48 + n % 10) as u8)
    }
}

/// The decimal digits of a number as characters.
pub open spec fn decimal(n: nat) -> Seq<char> {
    decimal_bytes(n).map_values(|b: u8| b as char)
}

/// Writes a number in decimal.
pub fn decimal_digits(n: u64) -> (digits: Vec<u8>)
    ensures
        digits@ == decimal_bytes(n as nat),
    decreases n,
{
    if n < 10 {
        let mut digits: Vec<u8> = Vec::new();
        digits.push(48 + n as u8);
        digits
    } else {
        let mut digits = decimal_digits(n / 10);
        digits.push(48 + (n % 10) as u8);
        digits
    }
}

/// Appends a number in decimal.
pub fn push_decimal(text: &mut String, n: u64)
    ensures
        final(text)@ == old(text)@ + decimal(n as nat),
{
    let digits = decimal_digits(n);
    let mut i: usize = 0;
    while i < digits.len()
        invariant
            i <= digits.len(),
            digits@ == decimal_bytes(n as nat),
            text@ == old(text)@ + decimal(n as nat).take(i as int),
        decreases digits.len() - i,
    {
        text.push(digits[i] as char);
        proof {
            assert(decimal(n as nat).take(i + 1) =~= decimal(n as nat).take(i as int).push(
                digits@[i as int] as char,
            ));
        }
        i += 1;
    }
    proof {
        assert(decimal(n as nat).take(i as int) =~= decimal(n as nat));
    }
}

/// The place where a byte first occurs.
pub fn find_byte(bytes: &[u8], byte: u8) -> (place: Option<usize>)
    ensures
        match place {
            Some(place) => bytes@.index_of_first(byte) == Some(place as int) && place
                < bytes@.len(),
            None => bytes@.index_of_first(byte) is None,
        },
{
    proof {
        bytes@.index_of_first_ensures(byte);
    }
    let mut i: usize = 0;
    while i < bytes.len()
        invariant
            i <= bytes.len(),
            forall|j: int| 0 <= j < i ==> bytes@[j] != byte,
        decreases bytes.len() - i,
    {
        if bytes[i] == byte {
            proof {
                bytes@.index_of_first_ensures(byte);
                assert(bytes@.contains(bytes@[i as int]));
            }
            return Some(i);
        }
        i += 1;
    }
    None
}

/// Whether a byte is a decimal digit.
pub open spec fn is_digit(byte: u8) -> bool {
    48 <= byte <= 57
}

/// Whether every byte is a decimal digit.
pub open spec fn all_digits(bytes: Seq<u8>) -> bool {
    forall|i: int| 0 <= i < bytes.len() ==> is_digit(#[trigger] bytes[i])
}

/// What a row of decimal digits says.
pub open spec fn decimal_value(digits: Seq<u8>) -> int
    decreases digits.len(),
{
    if digits.len() == 0 {
        0
    } else {
        10 * decimal_value(digits.drop_last()) + (digits.last() - 48)
    }
}

/// The digits of a number written in decimal, a plus sign before them aside.
pub open spec fn unsigned_digits(text: Seq<u8>) -> Seq<u8> {
    if text.len() > 1 && text[0] == 43 {
        text.drop_first()
    } else {
        text
    }
}

/// The number a text says, if it says one that is no larger than `max`.
pub open spec fn parsed_number(text: Seq<u8>, max: int) -> Option<int> {
    let digits = unsigned_digits(text);
    if digits.len() > 0 && all_digits(digits) && decimal_value(digits) <= max {
        Some(decimal_value(digits))
    } else {
        None
    }
}

proof fn lemma_value_grows(digits: Seq<u8>, end: int)
    requires
        all_digits(digits),
        0 <= end <= digits.len(),
    ensures
        0 <= decimal_value(digits.take(end)) <= decimal_value(digits),
    decreases digits.len(),
{
    if end == digits.len() {
        assert(digits.take(end) =~= digits);
        if digits.len() > 0 {
            lemma_value_grows(digits.drop_last(), 0);
            lemma_value_grows(digits.drop_last(), digits.len() - 1);
            assert(is_digit(digits[digits.len() - 1]));
        }
    } else {
        lemma_value_grows(digits.drop_last(), end);
        assert(digits.drop_last().take(end) =~= digits.take(end));
        assert(is_digit(digits[digits.len() - 1]));
    }
}

/// Reads a number written in decimal, with or without a plus sign before it.
pub fn parse_number(text: &[u8], max: u64) -> (number: Option<u64>)
    ensures
        match number {
            Some(number) => parsed_number(text@, max as int) == Some(number as int),
            None => parsed_number(text@, max as int) is None,
        },
{
    let start: usize = if text.len() > 1 && text[0] == 43 { 1 } else { 0 };
    let ghost digits = unsigned_digits(text@);
    assert(digits =~= text@.skip(start as int));
    if text.len() == start {
        return None;
    }
    let mut number: u64 = 0;
    let mut i: usize = start;
    assert(digits.take(0) =~= Seq::empty());
    while i < text.len()
        invariant
            start <= i <= text@.len(),
            digits == text@.skip(start as int),
            digits == unsigned_digits(text@),
            forall|j: int| 0 <= j < i - start ==> is_digit(#[trigger] digits[j]),
            number as int == decimal_value(digits.take(i - start)),
            number <= max,
        decreases text.len() - i,
    {
        let byte = text[i];
        let ghost at = i - start;
        assert(digits[at] == byte);
        if byte < 48 || byte > 57 {
            assert(!is_digit(digits[at]));
            return None;
        }
        let digit: u64 = (byte - 48) as u64;
        proof {
            assert(digits.take(at + 1).drop_last() =~= digits.take(at));
            assert(digits.take(at + 1).last() == byte);
            if all_digits(digits) {
                lemma_value_grows(digits, at + 1);
            }
        }
        if digit > max || number > (max - digit) / 10 {
            assert(10 * number + digit > max);
            return None;
        }
        number = number * 10 + digit;
        i += 1;
    }
    assert(digits.take(i - start) =~= digits);
    Some(number)
}

/// Reading back a number that was written gives that number.
pub proof fn lemma_parse_reverses_decimal(n: nat, max: int)
    requires
        n <= max,
    ensures
        all_digits(decimal_bytes(n)),
        decimal_bytes(n).len() > 0,
        decimal_value(decimal_bytes(n)) == n,
        parsed_number(decimal_bytes(n), max) == Some(n as int),
    decreases n,
{
    let text = decimal_bytes(n);
    if n < 10 {
        assert(text.drop_last() =~= Seq::empty());
        assert(decimal_value(text.drop_last()) == 0);
        assert(text.last() == (48 + n) as u8);
    } else {
        lemma_parse_reverses_decimal(n / 10, max);
        assert(text.drop_last() =~= decimal_bytes(n / 10));
        assert(text.last() == (48 + n % 10) as u8);
        assert forall|i: int| 0 <= i < text.len() implies is_digit(#[trigger] text[i]) by {
            if i < text.len() - 1 {
                assert(text[i] == decimal_bytes(n / 10)[i]);
            }
        }
    }
    assert(is_digit(text[0]));
    assert(unsigned_digits(text) == text);
}

/// Where a byte string first occurs in another.
pub open spec fn first_of(text: Seq<u8>, needle: Seq<u8>) -> Option<int>
    decreases text.len(),
{
    if needle.is_prefix_of(text) {
        Some(0)
    } else if text.len() == 0 {
        None
    } else {
        match first_of(text.drop_first(), needle) {
            Some(at) => Some(at + 1),
            None => None,
        }
    }
}

/// Where a byte string first occurs lies inside, and that is where it occurs.
pub proof fn lemma_first_of(text: Seq<u8>, needle: Seq<u8>)
    ensures
        first_of(text, needle) matches Some(at) ==> 0 <= at <= text.len() - needle.len()
            && text.subrange(at, at + needle.len()) == needle,
    decreases text.len(),
{
    if needle.is_prefix_of(text) {
        assert(text.subrange(0, needle.len() as int) =~= needle);
    } else if text.len() > 0 {
        lemma_first_of(text.drop_first(), needle);
        match first_of(text.drop_first(), needle) {
            Some(at) => {
                assert(text.drop_first().subrange(at, at + needle.len()) =~= text.subrange(
                    at + 1,
                    at + 1 + needle.len(),
                ));
            },
            None => {},
        }
    }
}

/// Where `needle` first occurs at or after `from`, counted from there.
pub fn find_bytes(text: &[u8], from: usize, needle: &[u8]) -> (place: Option<usize>)
    requires
        from <= text@.len(),
    ensures
        match place {
            Some(at) => first_of(text@.skip(from as int), needle@) == Some(at as int) && from + at
                + needle@.len() <= text@.len(),
            None => first_of(text@.skip(from as int), needle@) is None,
        },
{
    let mut i: usize = from;
    loop
        invariant
            from <= i <= text@.len(),
            first_of(text@.skip(from as int), needle@) == (match first_of(
                text@.skip(i as int),
                needle@,
            ) {
                Some(at) => Some(at + (i - from)),
                None => None,
            }),
        decreases text.len() - i,
    {
        let ghost rest = text@.skip(i as int);
        let mut same = needle.len() <= text.len() - i;
        let mut j: usize = 0;
        while same && j < needle.len()
            invariant
                i <= text@.len(),
                j <= needle@.len(),
                rest == text@.skip(i as int),
                same ==> needle@.len() <= text@.len() - i,
                same ==> forall|k: int| 0 <= k < j ==> text@[i + k] == needle@[k],
                !same ==> !needle@.is_prefix_of(rest),
            decreases needle.len() - j, (if same { 1int } else { 0int }),
        {
            assert(i + j < text.len());
            if text[i + j] != needle[j] {
                same = false;
                assert(rest.subrange(0, needle@.len() as int)[j as int] != needle@[j as int]);
            } else {
                j += 1;
            }
        }
        if same {
            assert(rest.subrange(0, needle@.len() as int) =~= needle@);
            assert(first_of(rest, needle@) == Some(0int));
            return Some(i - from);
        }
        if i == text.len() {
            return None;
        }
        assert(rest.drop_first() =~= text@.skip(i + 1));
        i += 1;
    }
}

/// The lower case of an ASCII letter, and any other byte as it is.
pub open spec fn lower_byte(byte: u8) -> u8 {
    if 65 <= byte <= 90 {
        (byte + 32) as u8
    } else {
        byte
    }
}

/// A byte string with its ASCII letters in lower case.
pub open spec fn ascii_lower(bytes: Seq<u8>) -> Seq<u8> {
    bytes.map_values(|byte: u8| lower_byte(byte))
}

pub fn to_ascii_lower(bytes: &[u8]) -> (lower: Vec<u8>)
    ensures
        lower@ == ascii_lower(bytes@),
{
    let mut lower: Vec<u8> = Vec::new();
    let mut i: usize = 0;
    while i < bytes.len()
        invariant
            i <= bytes@.len(),
            lower@ == ascii_lower(bytes@).take(i as int),
        decreases bytes.len() - i,
    {
        let byte = bytes[i];
        lower.push(if byte >= 65 && byte <= 90 { byte + 32 } else { byte });
        assert(ascii_lower(bytes@).take(i + 1) =~= ascii_lower(bytes@).take(i as int).push(
            lower_byte(byte),
        ));
        i += 1;
    }
    assert(ascii_lower(bytes@).take(i as int) =~= ascii_lower(bytes@));
    lower
}

/// How many bytes at the end of a text are one white space character, in the
/// sense of Unicode's `White_Space`.
pub open spec fn space_at_end(text: Seq<u8>) -> int {
    let n = text.len();
    if n >= 1 && (9 <= text[n - 1] <= 13 || text[n - 1] == 32) {
        1
    } else if n >= 2 && text[n - 2] == 0xC2 && (text[n - 1] == 0x85 || text[n - 1] == 0xA0) {
        2
    } else if n >= 3 && wide_space(text[n - 3], text[n - 2], text[n - 1]) {
        3
    } else {
        0
    }
}

/// How many bytes at the start of a text are one white space character.
pub open spec fn space_at_start(text: Seq<u8>) -> int {
    let n = text.len();
    if n >= 1 && (9 <= text[0] <= 13 || text[0] == 32) {
        1
    } else if n >= 2 && text[0] == 0xC2 && (text[1] == 0x85 || text[1] == 0xA0) {
        2
    } else if n >= 3 && wide_space(text[0], text[1], text[2]) {
        3
    } else {
        0
    }
}

/// Whether three bytes are one white space character.
pub open spec fn wide_space(first: u8, second: u8, third: u8) -> bool {
    ||| first == 0xE1 && second == 0x9A && third == 0x80
    ||| first == 0xE2 && second == 0x80 && (0x80 <= third <= 0x8A || third == 0xA8 || third == 0xA9
        || third == 0xAF)
    ||| first == 0xE2 && second == 0x81 && third == 0x9F
    ||| first == 0xE3 && second == 0x80 && third == 0x80
}

fn is_wide_space(first: u8, second: u8, third: u8) -> (yes: bool)
    ensures
        yes == wide_space(first, second, third),
{
    (first == 0xE1 && second == 0x9A && third == 0x80) || (first == 0xE2 && second == 0x80 && ((third
        >= 0x80 && third <= 0x8A) || third == 0xA8 || third == 0xA9 || third == 0xAF)) || (first
        == 0xE2 && second == 0x81 && third == 0x9F) || (first == 0xE3 && second == 0x80 && third
        == 0x80)
}

fn ends_in_space(text: &[u8], end: usize) -> (width: usize)
    requires
        end <= text@.len(),
    ensures
        width == space_at_end(text@.take(end as int)),
        width <= end,
{
    if end >= 1 && ((text[end - 1] >= 9 && text[end - 1] <= 13) || text[end - 1] == 32) {
        1
    } else if end >= 2 && text[end - 2] == 0xC2 && (text[end - 1] == 0x85 || text[end - 1] == 0xA0) {
        2
    } else if end >= 3 && is_wide_space(text[end - 3], text[end - 2], text[end - 1]) {
        3
    } else {
        0
    }
}

fn starts_in_space(text: &[u8], start: usize) -> (width: usize)
    requires
        start <= text@.len(),
    ensures
        width == space_at_start(text@.skip(start as int)),
        start + width <= text@.len(),
{
    let left: usize = text.len() - start;
    if left >= 1 && ((text[start] >= 9 && text[start] <= 13) || text[start] == 32) {
        1
    } else if left >= 2 && text[start] == 0xC2 && (text[start + 1] == 0x85 || text[start + 1]
        == 0xA0) {
        2
    } else if left >= 3 && is_wide_space(text[start], text[start + 1], text[start + 2]) {
        3
    } else {
        0
    }
}

/// A text without the white space at its end.
pub open spec fn trimmed_end(text: Seq<u8>) -> Seq<u8>
    decreases text.len(),
{
    if space_at_end(text) > 0 {
        trimmed_end(text.take(text.len() - space_at_end(text)))
    } else {
        text
    }
}

/// A text without the white space at its start.
pub open spec fn trimmed_start(text: Seq<u8>) -> Seq<u8>
    decreases text.len(),
{
    if space_at_start(text) > 0 {
        trimmed_start(text.skip(space_at_start(text)))
    } else {
        text
    }
}

/// A text without the white space around it.
pub open spec fn trimmed(text: Seq<u8>) -> Seq<u8> {
    trimmed_start(trimmed_end(text))
}

fn end_without_space(text: &[u8]) -> (end: usize)
    ensures
        end <= text@.len(),
        text@.take(end as int) == trimmed_end(text@),
{
    let mut end: usize = text.len();
    assert(text@.take(end as int) =~= text@);
    loop
        invariant
            end <= text@.len(),
            trimmed_end(text@.take(end as int)) == trimmed_end(text@),
        decreases end,
    {
        let width = ends_in_space(text, end);
        if width == 0 {
            return end;
        }
        assert(text@.take(end as int).take(end - width) =~= text@.take(end - width));
        end -= width;
    }
}

/// Removes the white space around a text.
pub fn trim_bytes(text: &[u8]) -> (inner: &[u8])
    ensures
        inner@ == trimmed(text@),
{
    let end = end_without_space(text);
    let kept = vstd::slice::slice_subrange(text, 0, end);
    assert(kept@ =~= trimmed_end(text@));
    let mut start: usize = 0;
    assert(kept@.skip(0) =~= kept@);
    loop
        invariant
            start <= kept@.len(),
            trimmed_start(kept@.skip(start as int)) == trimmed_start(kept@),
            kept@ == trimmed_end(text@),
        decreases kept.len() - start,
    {
        let width = starts_in_space(kept, start);
        if width == 0 {
            let inner = vstd::slice::slice_subrange(kept, start, kept.len());
            assert(inner@ =~= kept@.skip(start as int));
            return inner;
        }
        assert(kept@.skip(start as int).skip(width as int) =~= kept@.skip(start + width));
        start += width;
    }
}

/// The word a text ends in, up to the white space before it.
pub open spec fn word_at_end(text: Seq<u8>) -> Seq<u8>
    decreases text.len(),
{
    if text.len() == 0 || space_at_end(text) > 0 {
        Seq::empty()
    } else {
        word_at_end(text.drop_last()).push(text.last())
    }
}

/// The last word of a text, which is empty if there is none.
pub open spec fn last_word(text: Seq<u8>) -> Seq<u8> {
    word_at_end(trimmed_end(text))
}

pub fn find_last_word(text: &[u8]) -> (word: &[u8])
    ensures
        word@ == last_word(text@),
{
    let end = end_without_space(text);
    let ghost kept = text@.take(end as int);
    let mut start: usize = end;
    assert(text@.subrange(end as int, end as int) =~= Seq::empty());
    assert(text@.take(start as int) =~= kept);
    loop
        invariant
            start <= end <= text@.len(),
            kept == text@.take(end as int),
            kept == trimmed_end(text@),
            word_at_end(kept) == word_at_end(text@.take(start as int)) + text@.subrange(
                start as int,
                end as int,
            ),
        decreases start,
    {
        if start == 0 || ends_in_space(text, start) > 0 {
            let word = vstd::slice::slice_subrange(text, start, end);
            assert(word_at_end(text@.take(start as int)) =~= Seq::empty());
            assert(word@ =~= word_at_end(kept));
            return word;
        }
        proof {
            let sofar = text@.take(start as int);
            assert(sofar.drop_last() =~= text@.take(start - 1));
            assert(sofar.last() == text@[start - 1]);
            assert(word_at_end(sofar) + text@.subrange(start as int, end as int) =~= word_at_end(
                text@.take(start - 1),
            ) + text@.subrange(start - 1, end as int));
        }
        start -= 1;
    }
}

/// What an ASCII text is as bytes.
pub proof fn lemma_ascii_text(text: Seq<char>, bytes: Seq<u8>)
    requires
        text.len() == bytes.len(),
        forall|i: int| 0 <= i < text.len() ==> bytes[i] < 128 && #[trigger] text[i] as u8 == bytes[i]
            && text[i] as int == bytes[i],
    ensures
        encode_utf8(text) == bytes,
{
    assert(is_ascii_chars(text));
    is_ascii_chars_encode_utf8(text);
    assert(encode_utf8(text) =~= bytes);
}

/// A word behind white space is the last word of a text.
pub proof fn lemma_last_word_is_last(before: Seq<u8>, word: Seq<u8>)
    requires
        word.len() > 0,
        before.len() == 0 || before.last() == 32,
        forall|i: int| 0 <= i < word.len() ==> 33 <= #[trigger] word[i] < 127,
    ensures
        last_word(before + word) == word,
{
    let text = before + word;
    assert(text.last() == word[word.len() - 1]);
    assert(space_at_end(text) == 0);
    lemma_word_at_end(before, word);
}

proof fn lemma_word_at_end(before: Seq<u8>, word: Seq<u8>)
    requires
        before.len() == 0 || before.last() == 32,
        forall|i: int| 0 <= i < word.len() ==> 33 <= #[trigger] word[i] < 127,
    ensures
        word_at_end(before + word) == word,
    decreases word.len(),
{
    let text = before + word;
    if word.len() == 0 {
        assert(text =~= before);
        assert(word_at_end(text) =~= word);
    } else {
        assert(text.last() == word[word.len() - 1]);
        assert(space_at_end(text) == 0);
        assert(text.drop_last() =~= before + word.drop_last());
        lemma_word_at_end(before, word.drop_last());
        assert(word_at_end(text) =~= word);
    }
}

/// Whether a byte is a printed ASCII character.
pub open spec fn is_printed(byte: u8) -> bool {
    33 <= byte <= 126
}

/// Whether a byte string is made of spaces, tabs and line ends.
pub open spec fn all_spaces(bytes: Seq<u8>) -> bool {
    forall|i: int|
        0 <= i < bytes.len() ==> #[trigger] bytes[i] == 32 || bytes[i] == 9 || bytes[i] == 10
            || bytes[i] == 13
}

proof fn lemma_end_is_trimmed(before: Seq<u8>, word: Seq<u8>, after: Seq<u8>)
    requires
        word.len() > 0,
        is_printed(word.last()),
        all_spaces(after),
    ensures
        trimmed_end(before + word + after) == before + word,
    decreases after.len(),
{
    let whole = before + word + after;
    if after.len() == 0 {
        assert(whole =~= before + word);
        assert(whole.last() == word.last());
    } else {
        assert(whole.last() == after.last());
        assert(after[after.len() - 1] == after.last());
        assert(whole.take(whole.len() - 1) =~= before + word + after.drop_last());
        assert forall|i: int| 0 <= i < after.drop_last().len() implies #[trigger]
            after.drop_last()[i] == 32 || after.drop_last()[i] == 9 || after.drop_last()[i] == 10
            || after.drop_last()[i] == 13 by {
            assert(after.drop_last()[i] == after[i]);
        }
        lemma_end_is_trimmed(before, word, after.drop_last());
    }
}

proof fn lemma_start_is_trimmed(before: Seq<u8>, word: Seq<u8>)
    requires
        word.len() > 0,
        is_printed(word[0]),
        all_spaces(before),
    ensures
        trimmed_start(before + word) == word,
    decreases before.len(),
{
    let whole = before + word;
    if before.len() == 0 {
        assert(whole =~= word);
    } else {
        assert(whole[0] == before[0]);
        assert(whole.skip(1) =~= before.drop_first() + word);
        assert forall|i: int| 0 <= i < before.drop_first().len() implies #[trigger]
            before.drop_first()[i] == 32 || before.drop_first()[i] == 9 || before.drop_first()[i]
            == 10 || before.drop_first()[i] == 13 by {
            assert(before.drop_first()[i] == before[i + 1]);
        }
        lemma_start_is_trimmed(before.drop_first(), word);
    }
}

/// Trimming takes off the spaces, tabs and line ends around a text that begins
/// and ends with something printed, and nothing of the text.
pub proof fn lemma_trimming_keeps_the_text(before: Seq<u8>, word: Seq<u8>, after: Seq<u8>)
    requires
        word.len() > 0,
        is_printed(word[0]),
        is_printed(word.last()),
        all_spaces(before),
        all_spaces(after),
    ensures
        trimmed(before + word + after) == word,
{
    lemma_end_is_trimmed(before, word, after);
    lemma_start_is_trimmed(before, word);
}

} // verus!
