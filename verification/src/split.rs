//! Cutting a stream of text into documents at the delimiter `---`, and
//! telling the segments that hold a document from those that hold only blank
//! lines and comments.

use vstd::prelude::*;

verus! {

/// White space as Unicode defines it (the property `White_Space`).
pub open spec fn is_whitespace(c: char) -> bool {
    let code = c as u32;
    ||| 0x09 <= code <= 0x0D
    ||| code == 0x20
    ||| code == 0x85
    ||| code == 0xA0
    ||| code == 0x1680
    ||| 0x2000 <= code <= 0x200A
    ||| code == 0x2028
    ||| code == 0x2029
    ||| code == 0x202F
    ||| code == 0x205F
    ||| code == 0x3000
}

/// Whether `c` is white space.
pub fn is_space(c: char) -> (space: bool)
    ensures
        space == is_whitespace(c),
{
    let code: u32 = c as u32;
    (0x09 <= code && code <= 0x0D) || code == 0x20 || code == 0x85 || code == 0xA0 || code
        == 0x1680 || (0x2000 <= code && code <= 0x200A) || code == 0x2028 || code == 0x2029 || code
        == 0x202F || code == 0x205F || code == 0x3000
}

/// A line of `text` starts at position `at`.
pub open spec fn starts_line(text: Seq<char>, at: int) -> bool {
    at == 0 || (0 < at <= text.len() && text[at - 1] == '\n')
}

/// Every character of `text` from `from` up to `to` is white space.
pub open spec fn blank_between(text: Seq<char>, from: int, to: int) -> bool {
    forall|j: int| from <= j < to ==> is_whitespace(#[trigger] text[j])
}

/// Everything between the start of the line that holds position `at` and
/// `at` itself is white space.
pub open spec fn blank_before(text: Seq<char>, at: int) -> bool {
    exists|start: int|
        0 <= start <= at && #[trigger] starts_line(text, start) && blank_between(text, start, at)
}

/// `text[at]` opens the content of a line: it is the first character of its
/// line that is not white space, and it does not start a comment.
pub open spec fn opens_content(text: Seq<char>, at: int) -> bool {
    &&& 0 <= at < text.len()
    &&& !is_whitespace(text[at])
    &&& text[at] != '#'
    &&& blank_before(text, at)
}

/// Some line of `text` holds more than white space and a comment.
pub open spec fn has_content(text: Seq<char>) -> bool {
    exists|at: int| opens_content(text, at)
}

proof fn lemma_blank_step(text: Seq<char>, at: int)
    requires
        0 <= at < text.len(),
    ensures
        blank_before(text, at + 1) <==> (text[at] == '\n' || (blank_before(text, at)
            && is_whitespace(text[at]))),
{
    if text[at] == '\n' {
        assert(starts_line(text, at + 1) && blank_between(text, at + 1, at + 1));
    } else if blank_before(text, at) && is_whitespace(text[at]) {
        let start = choose|start: int|
            0 <= start <= at && #[trigger] starts_line(text, start) && blank_between(
                text,
                start,
                at,
            );
        assert(starts_line(text, start) && blank_between(text, start, at + 1));
    } else if blank_before(text, at + 1) {
        let start = choose|start: int|
            0 <= start <= at + 1 && #[trigger] starts_line(text, start) && blank_between(
                text,
                start,
                at + 1,
            );
        assert(start <= at);
        assert(is_whitespace(text[at]));
        assert(starts_line(text, start) && blank_between(text, start, at));
    }
}

/// Whether `s` holds a document: a line that is neither blank nor a comment.
pub fn nonempty_document(s: &str) -> (nonempty: bool)
    ensures
        nonempty == has_content(s@),
{
    let mut blank = true;
    assert(starts_line(s@, 0) && blank_between(s@, 0, 0));
    for c in it: s.chars()
        invariant
            it.seq() == s@,
            blank == blank_before(s@, it.index() as int),
            forall|at: int| 0 <= at < it.index() ==> !opens_content(s@, at),
    {
        proof {
            lemma_blank_step(s@, it.index() as int);
        }
        if c == '\n' {
            blank = true;
        } else if blank {
            if is_space(c) {
            } else if c == '#' {
                blank = false;
            } else {
                assert(opens_content(s@, it.index() as int));
                return true;
            }
        }
    }
    false
}

/// The delimiter `---` stands at position `at` of `text`.
pub open spec fn delimiter_at(text: Seq<char>, at: int) -> bool {
    &&& 0 <= at
    &&& at + 3 <= text.len()
    &&& text[at] == '-'
    &&& text[at + 1] == '-'
    &&& text[at + 2] == '-'
}

/// The position of the first delimiter that starts at or after `from`;
/// the length of `text` where there is none.
pub open spec fn next_delimiter(text: Seq<char>, from: int) -> int
    decreases text.len() - from,
{
    if from < 0 || from + 3 > text.len() {
        text.len() as int
    } else if delimiter_at(text, from) {
        from
    } else {
        next_delimiter(text, from + 1)
    }
}

/// The segments into which the delimiters cut the part of `text` that starts
/// at `from`: the text up to the next delimiter, then the segments of what
/// follows that delimiter.
pub open spec fn segments_from(text: Seq<char>, from: int) -> Seq<Seq<char>>
    decreases text.len() - from,
{
    let at = next_delimiter(text, from);
    if 0 <= from <= at && at + 3 <= text.len() {
        seq![text.subrange(from, at)] + segments_from(text, at + 3)
    } else {
        seq![text.subrange(from, text.len() as int)]
    }
}

/// The segments of `text` between its delimiters, delimiters left out. A
/// text with `n` delimiters has `n + 1` segments, some of them possibly
/// empty.
pub open spec fn segments(text: Seq<char>) -> Seq<Seq<char>> {
    segments_from(text, 0)
}

/// The parts of `text` that `bounds` mark, each by its first position and
/// the position after its last.
pub open spec fn cuts(text: Seq<char>, bounds: Seq<(usize, usize)>) -> Seq<Seq<char>> {
    bounds.map_values(|b: (usize, usize)| text.subrange(b.0 as int, b.1 as int))
}

/// Where the segments of `chars` start and end.
pub fn split_segments(chars: &Vec<char>) -> (bounds: Vec<(usize, usize)>)
    ensures
        cuts(chars@, bounds@) == segments(chars@),
        forall|k: int|
            0 <= k < bounds@.len() ==> (#[trigger] bounds@[k]).0 <= bounds@[k].1 <= chars@.len(),
{
    let n = chars.len();
    let mut bounds: Vec<(usize, usize)> = Vec::new();
    let mut start: usize = 0;
    let mut at: usize = 0;
    assert(cuts(chars@, bounds@) + segments_from(chars@, 0) =~= segments(chars@));
    while n >= 3 && at <= n - 3
        invariant
            n == chars@.len(),
            start <= at <= n,
            next_delimiter(chars@, start as int) == next_delimiter(chars@, at as int),
            cuts(chars@, bounds@) + segments_from(chars@, start as int) == segments(chars@),
            forall|k: int|
                0 <= k < bounds@.len() ==> (#[trigger] bounds@[k]).0 <= bounds@[k].1 <= n,
        decreases n - at,
    {
        if chars[at] == '-' && chars[at + 1] == '-' && chars[at + 2] == '-' {
            let ghost before = bounds@;
            bounds.push((start, at));
            proof {
                let rest = segments_from(chars@, at + 3);
                let piece = chars@.subrange(start as int, at as int);
                assert(segments_from(chars@, start as int) == seq![piece] + rest);
                assert(cuts(chars@, bounds@) =~= cuts(chars@, before) + seq![piece]);
                assert(cuts(chars@, bounds@) + rest =~= cuts(chars@, before) + (seq![piece]
                    + rest));
            }
            start = at + 3;
            at = at + 3;
        } else {
            at = at + 1;
        }
    }
    let ghost before = bounds@;
    bounds.push((start, n));
    proof {
        let piece = chars@.subrange(start as int, n as int);
        assert(segments_from(chars@, start as int) == seq![piece]);
        assert(cuts(chars@, bounds@) =~= cuts(chars@, before) + seq![piece]);
    }
    bounds
}

} // verus!
