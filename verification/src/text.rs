//! Strings: the calls into the standard library that work on text, and what
//! they return, over sequences of characters.
use vstd::prelude::*;

verus! {

/// The Unicode lowercase form of a text.
pub uninterp spec fn lowercase(text: Seq<char>) -> Seq<char>;

/// Whether a character is ASCII.
pub open spec fn is_ascii_char(c: char) -> bool {
    (c as int) < 128
}

/// Whether every character of a text is ASCII.
pub open spec fn is_ascii_text(text: Seq<char>) -> bool {
    forall|i: int| 0 <= i < text.len() ==> is_ascii_char(#[trigger] text[i])
}

/// The lowercase form of an ASCII character.
pub open spec fn ascii_lower(c: char) -> char {
    if 'A' <= c && c <= 'Z' {
        (c as int + 32) as char
    } else {
        c
    }
}

/// The uppercase form of an ASCII character.
pub open spec fn ascii_upper(c: char) -> char {
    if 'a' <= c && c <= 'z' {
        (c as int - 32) as char
    } else {
        c
    }
}

/// The uppercase form of an ASCII text.
pub open spec fn uppercase(text: Seq<char>) -> Seq<char> {
    text.map_values(|c: char| ascii_upper(c))
}

/// Whether `needle` stands somewhere in `text`, in one piece.
pub open spec fn occurs(needle: Seq<char>, text: Seq<char>) -> bool {
    exists|i: int|
        0 <= i <= text.len() - needle.len() && #[trigger] text.subrange(i, i + needle.len())
            == needle
}

/// `text` without the slashes at its end.
pub open spec fn without_trailing_slashes(text: Seq<char>) -> Seq<char>
    decreases text.len(),
{
    if text.len() > 0 && text.last() == '/' {
        without_trailing_slashes(text.drop_last())
    } else {
        text
    }
}

/// The texts of a list, one after the other, with `separator` between
/// neighbours.
pub open spec fn joined(parts: Seq<Seq<char>>, separator: Seq<char>) -> Seq<char>
    decreases parts.len(),
{
    if parts.len() == 0 {
        Seq::empty()
    } else if parts.len() == 1 {
        parts[0]
    } else {
        joined(parts.drop_last(), separator) + separator + parts.last()
    }
}

/// The characters of an optional text.
pub open spec fn option_text(text: Option<String>) -> Option<Seq<char>> {
    match text {
        Some(s) => Some(s@),
        None => None,
    }
}

/// The characters of each text of a list.
pub open spec fn texts(list: Seq<String>) -> Seq<Seq<char>> {
    list.map_values(|s: String| s@)
}

/// `str::to_lowercase`: the Unicode lowercase form, which on ASCII text maps
/// `A` to `Z` to `a` to `z` and keeps every other character.
#[verifier::external_body]
pub(crate) fn to_lowercase(text: &str) -> (lower: String)
    ensures
        lower@ == lowercase(text@),
        is_ascii_text(text@) ==> lower@ == text@.map_values(|c: char| ascii_lower(c)),
{
    text.to_lowercase()
}

/// `str::to_uppercase` on ASCII text: maps `a` to `z` to `A` to `Z` and keeps
/// every other character.
#[verifier::external_body]
pub(crate) fn to_uppercase(text: &str) -> (upper: String)
    requires
        is_ascii_text(text@),
    ensures
        upper@ == uppercase(text@),
{
    text.to_uppercase()
}

/// `str::contains` with a string: whether it is a piece of the text.
#[verifier::external_body]
pub(crate) fn contains(text: &str, needle: &str) -> (found: bool)
    ensures
        found == occurs(needle@, text@),
{
    text.contains(needle)
}

/// `str::eq`: whether two texts have the same characters.
#[verifier::external_body]
pub(crate) fn same_text(a: &str, b: &str) -> (same: bool)
    ensures
        same == (a@ == b@),
{
    a == b
}

/// `str::trim_end_matches` with a slash: all slashes at the end are removed.
#[verifier::external_body]
pub(crate) fn trim_end_slashes(text: &str) -> (trimmed: &str)
    ensures
        trimmed@ == without_trailing_slashes(text@),
{
    text.trim_end_matches('/')
}

/// `str::split_once` with a slash: what stands before the first slash and what
/// stands after it, and nothing where there is no slash.
#[verifier::external_body]
pub(crate) fn split_once_slash(text: &str) -> (parts: Option<(&str, &str)>)
    ensures
        match parts {
            Some((before, after)) => {
                &&& text@ == before@.push('/') + after@
                &&& !before@.contains('/')
            },
            None => !text@.contains('/'),
        },
{
    text.split_once('/')
}

/// Copies an optional text.
pub(crate) fn copy_option(text: &Option<String>) -> (copy: Option<String>)
    ensures
        copy == *text,
{
    match text {
        Some(s) => Some(s.clone()),
        None => None,
    }
}

/// Joins texts, with `separator` between neighbours.
pub(crate) fn join(parts: &Vec<&str>, separator: &str) -> (whole: String)
    ensures
        whole@ == joined(parts@.map_values(|s: &str| s@), separator@),
{
    let ghost views = parts@.map_values(|s: &str| s@);
    let mut whole = String::new();
    let mut i: usize = 0;
    while i < parts.len()
        invariant
            0 <= i <= parts.len(),
            views == parts@.map_values(|s: &str| s@),
            whole@ == joined(views.take(i as int), separator@),
        decreases parts.len() - i,
    {
        proof {
            assert(views.take(i + 1).drop_last() =~= views.take(i as int));
            assert(views.take(i + 1).last() == parts@[i as int]@);
        }
        if i > 0 {
            whole.append(separator);
        }
        whole.append(parts[i]);
        i = i + 1;
    }
    assert(views.take(parts.len() as int) =~= views);
    whole
}

/// Joining takes every text, in order: one text more comes behind the others,
/// after a separator.
pub proof fn law_joining_takes_every_text(
    parts: Seq<Seq<char>>,
    last: Seq<char>,
    separator: Seq<char>,
)
    ensures
        joined(Seq::empty(), separator).len() == 0,
        joined(seq![last], separator) == last,
        parts.len() > 0 ==> joined(parts.push(last), separator) == joined(parts, separator)
            + separator + last,
{
    assert(parts.push(last).drop_last() =~= parts);
}

/// Texts are read character by character.
pub proof fn law_texts_are_read_as_they_are(text: Option<String>, list: Seq<String>)
    ensures
        option_text(text) is Some <==> text is Some,
        text matches Some(s) ==> option_text(text) == Some(s@),
        texts(list).len() == list.len(),
        forall|i: int| 0 <= i < list.len() ==> #[trigger] texts(list)[i] == list[i]@,
{
}

/// The case of a character changes for the twenty-six letters alone, and changing
/// it back gives the letter again.
pub proof fn law_case_changes_letters_alone(c: char)
    ensures
        'A' <= c <= 'Z' ==> ascii_lower(c) as int == c as int + 32 && ascii_upper(ascii_lower(c)) == c,
        'a' <= c <= 'z' ==> ascii_upper(c) as int == c as int - 32 && ascii_lower(ascii_upper(c)) == c,
        !('A' <= c <= 'Z') ==> ascii_lower(c) == c,
        !('a' <= c <= 'z') ==> ascii_upper(c) == c,
{
}

/// A text is a piece of another exactly where that is made of something before
/// it, the text itself, and something behind it.
pub proof fn law_pieces_stand_in_one_piece(needle: Seq<char>, text: Seq<char>)
    ensures
        occurs(needle, text) <==> exists|before: Seq<char>, after: Seq<char>|
            text == #[trigger] (before + needle + after),
{
    if occurs(needle, text) {
        let i = choose|i: int|
            0 <= i <= text.len() - needle.len() && #[trigger] text.subrange(i, i + needle.len())
                == needle;
        let before = text.take(i);
        let after = text.skip(i + needle.len());
        assert(text =~= before + needle + after);
    }
    if exists|before: Seq<char>, after: Seq<char>|
        text == #[trigger] (before + needle + after) {
        let (before, after) = choose|before: Seq<char>, after: Seq<char>|
            text == #[trigger] (before + needle + after);
        let i = before.len() as int;
        assert(text.subrange(i, i + needle.len()) =~= needle);
    }
}

} // verus!
