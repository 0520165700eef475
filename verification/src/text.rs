//! Text as a sequence of characters.

use vstd::prelude::*;
use vstd::string::StringExecFns;
use vstd::utf8::{decode_utf8, valid_utf8};

verus! {

/// The characters of `text`, in order.
pub fn chars_of(text: &str) -> (chars: Vec<char>)
    ensures
        chars@ == text@,
{
    let mut chars: Vec<char> = Vec::new();
    for c in it: text.chars()
        invariant
            it.seq() == text@,
            chars@ == text@.subrange(0, it.index() as int),
    {
        chars.push(c);
    }
    chars
}

/// The position of the first `c` in `text` at or after `from`; the length of
/// `text` where there is none.
pub open spec fn first_index(text: Seq<char>, c: char, from: int) -> int
    decreases text.len() - from,
{
    if from < 0 || from >= text.len() {
        text.len() as int
    } else if text[from] == c {
        from
    } else {
        first_index(text, c, from + 1)
    }
}

/// `c` occurs in `text`.
pub open spec fn has_char(text: Seq<char>, c: char) -> bool {
    first_index(text, c, 0) < text.len()
}

/// What stands in `text` before the first `c`; all of it where there is none.
pub open spec fn before_first(text: Seq<char>, c: char) -> Seq<char> {
    text.subrange(0, first_index(text, c, 0))
}

/// What stands in `text` behind the first `c`; nothing where there is none.
pub open spec fn after_first(text: Seq<char>, c: char) -> Seq<char> {
    if has_char(text, c) {
        text.subrange(first_index(text, c, 0) + 1, text.len() as int)
    } else {
        Seq::empty()
    }
}

/// `text` cut at its first `c`: what stands before it and what stands behind
/// it, or `None` where `text` holds no `c`.
pub fn split_at_first<'a>(text: &'a str, c: char) -> (parts: Option<(&'a str, &'a str)>)
    ensures
        match parts {
            Some((head, tail)) => has_char(text@, c) && head@ == before_first(text@, c) && tail@
                == after_first(text@, c),
            None => !has_char(text@, c),
        },
{
    let chars = chars_of(text);
    let mut at: usize = 0;
    while at < chars.len() && chars[at] != c
        invariant
            at <= chars.len(),
            first_index(chars@, c, 0) == first_index(chars@, c, at as int),
        decreases chars.len() - at,
    {
        at += 1;
    }
    if at < chars.len() {
        let head = text.substring_char(0, at);
        let tail = text.substring_char(at + 1, chars.len());
        Some((head, tail))
    } else {
        None
    }
}

/// Whether `c` occurs in `text`.
pub fn contains_char(text: &str, c: char) -> (found: bool)
    ensures
        found == has_char(text@, c),
{
    split_at_first(text, c).is_some()
}

/// Whether `text` ends with `c`.
pub fn ends_with_char(text: &str, c: char) -> (ends: bool)
    ensures
        ends == (text@.len() > 0 && text@.last() == c),
{
    let mut ends = false;
    for x in it: text.chars()
        invariant
            it.seq() == text@,
            ends == (it.index() > 0 && text@[it.index() - 1] == c),
    {
        ends = x == c;
    }
    ends
}

/// Whether `text` starts with `c`.
pub fn starts_with_char(text: &str, c: char) -> (starts: bool)
    ensures
        starts == (text@.len() > 0 && text@[0] == c),
{
    let mut it = text.chars();
    match it.next() {
        Some(x) => x == c,
        None => false,
    }
}

/// `a` followed by `b`.
pub fn followed_by(a: &str, b: &str) -> (joined: String)
    ensures
        joined@ == a@ + b@,
{
    let mut joined = a.to_owned();
    joined.append(b);
    joined
}

/// The texts of `parts`, one for one.
pub open spec fn pieces(parts: Seq<&str>) -> Seq<Seq<char>> {
    parts.map_values(|part: &str| part@)
}

/// `parts` written one behind the other.
pub open spec fn glued(parts: Seq<Seq<char>>) -> Seq<char>
    decreases parts.len(),
{
    if parts.len() == 0 {
        Seq::empty()
    } else {
        glued(parts.drop_last()) + parts.last()
    }
}

/// `parts` written one behind the other.
pub fn glue(parts: Vec<&str>) -> (text: String)
    ensures
        text@ == glued(pieces(parts@)),
{
    let mut text = String::new();
    let mut i: usize = 0;
    assert(pieces(parts@).take(0) =~= Seq::<Seq<char>>::empty());
    while i < parts.len()
        invariant
            i <= parts.len(),
            text@ == glued(pieces(parts@).take(i as int)),
        decreases parts.len() - i,
    {
        proof {
            assert(pieces(parts@).take(i + 1).drop_last() =~= pieces(parts@).take(i as int));
            assert(pieces(parts@).take(i + 1).last() == parts@[i as int]@);
        }
        text.append(parts[i]);
        i += 1;
    }
    assert(pieces(parts@).take(i as int) =~= pieces(parts@));
    text
}

/// `std::str::from_utf8`: `bytes` read as text where they are valid UTF-8,
/// `None` where they are not. The text is made of the same bytes.
#[verifier::external_body]
pub(crate) fn utf8_text(bytes: &[u8]) -> (text: Option<&str>)
    ensures
        match text {
            Some(t) => valid_utf8(bytes@) && t@ == decode_utf8(bytes@),
            None => !valid_utf8(bytes@),
        },
{
    match std::str::from_utf8(bytes) {
        Ok(t) => Some(t),
        Err(_) => None,
    }
}

/// `part` occurs in `text` at position `at`.
pub open spec fn occurs_at(text: Seq<char>, part: Seq<char>, at: int) -> bool {
    &&& 0 <= at
    &&& at + part.len() <= text.len()
    &&& text.subrange(at, at + part.len()) == part
}

/// `part` occurs somewhere in `text`.
pub open spec fn contains_text(text: Seq<char>, part: Seq<char>) -> bool {
    exists|at: int| occurs_at(text, part, at)
}

/// Whether `part` occurs in `text` at position `at`.
pub fn matches_at(text: &Vec<char>, part: &Vec<char>, at: usize) -> (found: bool)
    requires
        at + part@.len() <= text@.len(),
    ensures
        found == occurs_at(text@, part@, at as int),
{
    let mut i: usize = 0;
    let size = text.len();
    while i < part.len()
        invariant
            i <= part.len(),
            at + part@.len() <= text@.len() == size,
            forall|j: int| 0 <= j < i ==> text@[at + j] == part@[j],
        decreases part.len() - i,
    {
        if text[at + i] != part[i] {
            assert(text@.subrange(at as int, at + part@.len())[i as int] != part@[i as int]);
            return false;
        }
        i += 1;
    }
    assert(text@.subrange(at as int, at + part@.len()) =~= part@);
    true
}

/// Whether `part` occurs somewhere in `text`.
pub fn contains_chars(text: &Vec<char>, part: &Vec<char>) -> (found: bool)
    ensures
        found == contains_text(text@, part@),
{
    if part.len() > text.len() {
        return false;
    }
    let last = text.len() - part.len();
    let mut at: usize = 0;
    while at < last
        invariant
            at <= last,
            last == text@.len() - part@.len(),
            forall|j: int| 0 <= j < at ==> !occurs_at(text@, part@, j),
        decreases last - at,
    {
        if matches_at(text, part, at) {
            return true;
        }
        at += 1;
    }
    matches_at(text, part, last)
}

/// Whether `text` is made of exactly the characters `chars`.
pub fn spells(text: &str, chars: &Vec<char>) -> (same: bool)
    ensures
        same == (text@ == chars@),
{
    let mut i: usize = 0;
    for c in it: text.chars()
        invariant
            it.seq() == text@,
            i == it.index(),
            i <= chars@.len(),
            forall|j: int| 0 <= j < i ==> text@[j] == chars@[j],
    {
        if i >= chars.len() || chars[i] != c {
            return false;
        }
        i += 1;
    }
    if i == chars.len() {
        assert(text@ =~= chars@);
        true
    } else {
        false
    }
}

/// Whether `a` and `b` are the same text.
pub fn same_text(a: &str, b: &str) -> (same: bool)
    ensures
        same == (a@ == b@),
{
    let chars = chars_of(b);
    spells(a, &chars)
}

} // verus!
