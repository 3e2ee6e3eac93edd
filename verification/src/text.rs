//! Text primitives shared by the tray modules, stated over sequences of characters.
use vstd::prelude::*;
use vstd::utf8::*;

verus! {

// ---------------------------------------------------------------------------------------------
// Views
// ---------------------------------------------------------------------------------------------
/// The characters of each string of a list.
pub open spec fn texts(list: Seq<String>) -> Seq<Seq<char>> {
    list.map_values(|text: String| text@)
}

/// Collects the characters of `text`.
pub fn chars_of(text: &str) -> (chars: Vec<char>)
    ensures
        chars@ == text@,
{
    let mut chars: Vec<char> = Vec::new();
    for c in it: text.chars()
        invariant
            chars@ == it.seq().take(it.index()),
            it.seq() == text@,
    {
        chars.push(c);
    }
    chars
}

/// Compares two strings.
pub fn same_text(left: &str, right: &str) -> (same: bool)
    ensures
        same == (left@ == right@),
{
    let a = left.as_bytes();
    let b = right.as_bytes();
    proof {
        encode_utf8_decode_utf8(left@);
        encode_utf8_decode_utf8(right@);
    }
    if a.len() != b.len() {
        return false;
    }
    let mut i: usize = 0;
    while i < a.len()
        invariant
            i <= a@.len(),
            a@.len() == b@.len(),
            a@ == encode_utf8(left@),
            b@ == encode_utf8(right@),
            forall|j: int| 0 <= j < i ==> a@[j] == b@[j],
        decreases a@.len() - i,
    {
        if a[i] != b[i] {
            return false;
        }
        i = i + 1;
    }
    assert(a@ =~= b@);
    true
}

/// Copies a list of strings.
pub fn clone_texts(list: &Vec<String>) -> (copy: Vec<String>)
    ensures
        copy@ == list@,
{
    let mut copy: Vec<String> = Vec::new();
    let mut i: usize = 0;
    while i < list.len()
        invariant
            i <= list@.len(),
            copy@ == list@.take(i as int),
        decreases list@.len() - i,
    {
        copy.push(list[i].clone());
        i = i + 1;
    }
    assert(list@.take(i as int) =~= list@);
    copy
}

// ---------------------------------------------------------------------------------------------
// Splitting
// ---------------------------------------------------------------------------------------------
/// Position of the first `wanted` in `text`, or the length of `text` where there is none.
pub open spec fn first_position(text: Seq<char>, wanted: char) -> nat
    decreases text.len(),
{
    if text.len() == 0 || text[0] == wanted {
        0
    } else {
        1 + first_position(text.drop_first(), wanted)
    }
}

/// Position of the last `wanted` in `text`, if there is one.
pub open spec fn last_position(text: Seq<char>, wanted: char) -> Option<int>
    decreases text.len(),
{
    if text.len() == 0 {
        None
    } else if text.last() == wanted {
        Some(text.len() - 1)
    } else {
        last_position(text.drop_last(), wanted)
    }
}

/// The parts of `text` before and after its first `separator`.
pub open spec fn split_first(text: Seq<char>, separator: char) -> Option<(Seq<char>, Seq<char>)> {
    let at = first_position(text, separator);
    if at < text.len() {
        Some((text.take(at as int), text.skip(at as int + 1)))
    } else {
        None
    }
}

/// The parts of `text` before and after its last `separator`.
pub open spec fn split_last(text: Seq<char>, separator: char) -> Option<(Seq<char>, Seq<char>)> {
    match last_position(text, separator) {
        Some(at) => Some((text.take(at), text.skip(at + 1))),
        None => None,
    }
}

/// A position where `wanted` stands, with none before it, is the first position.
pub proof fn lemma_first_position(text: Seq<char>, wanted: char, at: int)
    requires
        0 <= at <= text.len(),
        at < text.len() ==> text[at] == wanted,
        forall|i: int| 0 <= i < at ==> text[i] != wanted,
    ensures
        first_position(text, wanted) == at,
    decreases text.len(),
{
    if at > 0 {
        let rest = text.drop_first();
        assert forall|i: int| 0 <= i < at - 1 implies rest[i] != wanted by {
            assert(rest[i] == text[i + 1]);
        }
        lemma_first_position(rest, wanted, at - 1);
    }
}

/// A position where `wanted` stands, with none behind it, is the last position.
pub proof fn lemma_last_position(text: Seq<char>, wanted: char, at: int)
    requires
        0 <= at < text.len(),
        text[at] == wanted,
        forall|i: int| at < i < text.len() ==> text[i] != wanted,
    ensures
        last_position(text, wanted) == Some(at),
    decreases text.len(),
{
    if at < text.len() - 1 {
        lemma_last_position(text.drop_last(), wanted, at);
    }
}

/// A text without `wanted` has no last position of it.
pub proof fn lemma_no_last_position(text: Seq<char>, wanted: char)
    requires
        forall|i: int| 0 <= i < text.len() ==> text[i] != wanted,
    ensures
        last_position(text, wanted) is None,
    decreases text.len(),
{
    if text.len() > 0 {
        lemma_no_last_position(text.drop_last(), wanted);
    }
}

/// The rest of `text` behind `prefix`, if `text` starts with it.
pub fn strip_prefix<'a>(text: &'a str, prefix: &str) -> (rest: Option<&'a str>)
    ensures
        rest is Some <==> prefix@.is_prefix_of(text@),
        rest matches Some(rest) ==> rest@ == text@.skip(prefix@.len() as int),
{
    let chars = chars_of(text);
    let wanted = chars_of(prefix);
    if chars.len() < wanted.len() {
        return None;
    }
    let mut i: usize = 0;
    while i < wanted.len()
        invariant
            i <= wanted@.len() <= chars@.len(),
            chars@ == text@,
            wanted@ == prefix@,
            forall|j: int| 0 <= j < i ==> chars@[j] == wanted@[j],
        decreases wanted@.len() - i,
    {
        if chars[i] != wanted[i] {
            assert(text@[i as int] != prefix@[i as int]);
            return None;
        }
        i = i + 1;
    }
    assert(prefix@ =~= text@.subrange(0, prefix@.len() as int));
    assert(text@.subrange(prefix@.len() as int, text@.len() as int) =~= text@.skip(
        prefix@.len() as int,
    ));
    Some(text.substring_char(wanted.len(), chars.len()))
}

/// Splits `text` at its first `separator`.
pub fn split_at_first<'a>(text: &'a str, separator: char) -> (parts: Option<(&'a str, &'a str)>)
    ensures
        match parts {
            Some((before, after)) => split_first(text@, separator) == Some((before@, after@)),
            None => split_first(text@, separator) is None,
        },
{
    let chars = chars_of(text);
    let mut at: usize = 0;
    while at < chars.len() && chars[at] != separator
        invariant
            at <= chars@.len(),
            chars@ == text@,
            forall|j: int| 0 <= j < at ==> chars@[j] != separator,
        decreases chars@.len() - at,
    {
        at = at + 1;
    }
    proof {
        lemma_first_position(text@, separator, at as int);
    }
    if at == chars.len() {
        return None;
    }
    assert(text@.subrange(0, at as int) =~= text@.take(at as int));
    assert(text@.subrange(at + 1, text@.len() as int) =~= text@.skip(at + 1));
    Some((text.substring_char(0, at), text.substring_char(at + 1, chars.len())))
}

/// Splits `text` at its last `separator`.
pub fn split_at_last<'a>(text: &'a str, separator: char) -> (parts: Option<(&'a str, &'a str)>)
    ensures
        match parts {
            Some((before, after)) => split_last(text@, separator) == Some((before@, after@)),
            None => split_last(text@, separator) is None,
        },
{
    let chars = chars_of(text);
    let mut end: usize = chars.len();
    while end > 0 && chars[end - 1] != separator
        invariant
            end <= chars@.len(),
            chars@ == text@,
            forall|j: int| end <= j < chars@.len() ==> chars@[j] != separator,
        decreases end,
    {
        end = end - 1;
    }
    if end == 0 {
        proof {
            lemma_no_last_position(text@, separator);
        }
        return None;
    }
    proof {
        lemma_last_position(text@, separator, end - 1);
    }
    assert(text@.subrange(0, end - 1) =~= text@.take(end - 1));
    assert(text@.subrange(end as int, text@.len() as int) =~= text@.skip(end as int));
    Some((text.substring_char(0, end - 1), text.substring_char(end, chars.len())))
}

/// `text` without the copies of `suffix` at its end.
pub open spec fn without_suffixes(text: Seq<char>, suffix: Seq<char>) -> Seq<char>
    decreases text.len(),
{
    if 0 < suffix.len() <= text.len() && suffix.is_suffix_of(text) {
        without_suffixes(text.take(text.len() - suffix.len()), suffix)
    } else {
        text
    }
}

/// Removes every copy of `suffix` from the end of `text`.
pub fn trim_suffixes<'a>(text: &'a str, suffix: &str) -> (rest: &'a str)
    requires
        suffix@.len() > 0,
    ensures
        rest@ == without_suffixes(text@, suffix@),
{
    let chars = chars_of(text);
    let wanted = chars_of(suffix);
    let mut end: usize = chars.len();
    assert(text@.take(end as int) =~= text@);
    while end >= wanted.len() && ends_with_at(&chars, end, &wanted)
        invariant
            end <= chars@.len(),
            chars@ == text@,
            wanted@ == suffix@,
            suffix@.len() > 0,
            without_suffixes(text@, suffix@) == without_suffixes(text@.take(end as int), suffix@),
        ensures
            end <= chars@.len(),
            without_suffixes(text@, suffix@) == text@.take(end as int),
        decreases end,
    {
        let ghost part = text@.take(end as int);
        assert(part.take(part.len() - suffix@.len()) =~= text@.take(end - suffix@.len()));
        end = end - wanted.len();
    }
    assert(text@.subrange(0, end as int) =~= text@.take(end as int));
    text.substring_char(0, end)
}

/// Whether `suffix` stands in `chars` just before position `end`.
fn ends_with_at(chars: &Vec<char>, end: usize, suffix: &Vec<char>) -> (found: bool)
    requires
        suffix@.len() <= end <= chars@.len(),
    ensures
        found == suffix@.is_suffix_of(chars@.take(end as int)),
{
    let start = end - suffix.len();
    let ghost part = chars@.take(end as int);
    let mut i: usize = 0;
    while i < suffix.len()
        invariant
            i <= suffix@.len() <= end <= chars@.len(),
            start == end - suffix@.len(),
            part == chars@.take(end as int),
            forall|j: int| 0 <= j < i ==> chars@[start + j] == suffix@[j],
        decreases suffix@.len() - i,
    {
        if chars[start + i] != suffix[i] {
            assert(part.subrange(start as int, end as int)[i as int] != suffix@[i as int]);
            return false;
        }
        i = i + 1;
    }
    assert(part.subrange(start as int, end as int) =~= suffix@);
    true
}

// ---------------------------------------------------------------------------------------------
// UTF-16 lengths
// ---------------------------------------------------------------------------------------------
/// UTF-16 units of one character.
pub open spec fn utf16_units(c: char) -> nat {
    if c as u32 >= 0x10000 {
        2
    } else {
        1
    }
}

/// UTF-16 units of a text.
pub open spec fn utf16_length(text: Seq<char>) -> nat
    decreases text.len(),
{
    if text.len() == 0 {
        0
    } else {
        utf16_length(text.drop_last()) + utf16_units(text.last())
    }
}

/// The UTF-16 length of a concatenation is the sum of those of its parts.
pub proof fn lemma_utf16_concat(left: Seq<char>, right: Seq<char>)
    ensures
        utf16_length(left + right) == utf16_length(left) + utf16_length(right),
    decreases right.len(),
{
    if right.len() == 0 {
        assert(left + right =~= left);
    } else {
        assert((left + right).drop_last() =~= left + right.drop_last());
        lemma_utf16_concat(left, right.drop_last());
    }
}

/// A text has at most as many UTF-16 units as UTF-8 bytes.
pub proof fn lemma_utf16_fits_utf8(text: Seq<char>)
    ensures
        utf16_length(text) <= encode_utf8(text).len(),
    decreases text.len(),
{
    if text.len() > 0 {
        let first = seq![text[0]];
        assert(text =~= first + text.drop_first());
        lemma_utf16_concat(first, text.drop_first());
        lemma_utf16_fits_utf8(text.drop_first());
        reveal_with_fuel(utf16_length, 2);
        assert(utf16_length(first) == utf16_units(text[0]));
    }
}

/// Counts the UTF-16 units of `text`.
pub fn utf16_len(text: &str) -> (units: usize)
    ensures
        units == utf16_length(text@),
{
    let bytes = text.as_bytes().len();
    proof {
        lemma_utf16_fits_utf8(text@);
    }
    let mut units: usize = 0;
    for c in it: text.chars()
        invariant
            it.seq() == text@,
            units == utf16_length(text@.take(it.index())),
            utf16_length(text@) <= bytes,
    {
        let ghost seen = text@.take(it.index());
        let ghost next = text@.take(it.index() + 1);
        proof {
            assert(next.drop_last() =~= seen);
            assert(next.last() == c);
            assert(text@ =~= next + text@.skip(it.index() + 1));
            lemma_utf16_concat(next, text@.skip(it.index() + 1));
        }
        let width: usize = if c as u32 >= 0x10000 {
            2
        } else {
            1
        };
        units = units + width;
    }
    assert(text@.take(text@.len() as int) =~= text@);
    units
}

// ---------------------------------------------------------------------------------------------
// Laws
// ---------------------------------------------------------------------------------------------
/// The view of a list keeps every string at its place.
pub proof fn texts_keep_every_place(list: Seq<String>)
    ensures
        texts(list).len() == list.len(),
        forall|i: int| 0 <= i < list.len() ==> #[trigger] texts(list)[i] == list[i]@,
{
}

/// A text is split at its first separator into what stands before it and all that stands behind
/// it, further separators included. Without a separator it is not split.
pub proof fn first_split_parts(before: Seq<char>, separator: char, after: Seq<char>)
    requires
        !before.contains(separator),
    ensures
        split_first(before + seq![separator] + after, separator) == Some((before, after)),
        split_first(before, separator) is None,
{
    let whole = before + seq![separator] + after;
    assert forall|i: int| 0 <= i < before.len() implies whole[i] != separator by {
        assert(whole[i] == before[i]);
    }
    lemma_first_position(whole, separator, before.len() as int);
    lemma_first_position(before, separator, before.len() as int);
    assert(whole.take(before.len() as int) =~= before);
    assert(whole.skip(before.len() as int + 1) =~= after);
}

/// A text is split at its last separator into all that stands before it, further separators
/// included, and what stands behind it. Without a separator it is not split.
pub proof fn last_split_parts(before: Seq<char>, separator: char, after: Seq<char>)
    requires
        !after.contains(separator),
    ensures
        split_last(before + seq![separator] + after, separator) == Some((before, after)),
        split_last(after, separator) is None,
{
    let whole = before + seq![separator] + after;
    let at = before.len() as int;
    assert forall|i: int| at < i < whole.len() implies whole[i] != separator by {
        assert(whole[i] == after[i - at - 1]);
    }
    lemma_last_position(whole, separator, at);
    assert(whole.take(at) =~= before);
    assert(whole.skip(at + 1) =~= after);
    assert forall|i: int| 0 <= i < after.len() implies after[i] != separator by {
        assert(after.contains(after[i]));
    }
    lemma_no_last_position(after, separator);
}

/// One more copy of the suffix at the end makes no difference, and a text that does not end with
/// the suffix stays whole.
pub proof fn suffixes_are_dropped_one_by_one(text: Seq<char>, suffix: Seq<char>)
    requires
        suffix.len() > 0,
    ensures
        without_suffixes(text + suffix, suffix) == without_suffixes(text, suffix),
        (forall|rest: Seq<char>| text != #[trigger] (rest + suffix)) ==> without_suffixes(
            text,
            suffix,
        ) == text,
{
    let longer = text + suffix;
    assert(longer.subrange(text.len() as int, longer.len() as int) =~= suffix);
    assert(longer.take(longer.len() - suffix.len()) =~= text);
    if forall|rest: Seq<char>| text != #[trigger] (rest + suffix) {
        if suffix.len() <= text.len() && suffix.is_suffix_of(text) {
            let rest = text.take(text.len() - suffix.len());
            assert(text =~= rest + suffix);
        }
    }
}

/// UTF-16 lengths in numbers: nothing for the empty text, and for one more character one unit
/// within the basic plane, two beyond it.
pub proof fn utf16_length_in_numbers(text: Seq<char>, c: char)
    ensures
        utf16_length(Seq::<char>::empty()) == 0,
        (c as u32) < 0x1_0000 ==> utf16_length(text.push(c)) == utf16_length(text) + 1,
        c as u32 >= 0x1_0000 ==> utf16_length(text.push(c)) == utf16_length(text) + 2,
{
    assert(text.push(c).drop_last() =~= text);
}

} // verus!
