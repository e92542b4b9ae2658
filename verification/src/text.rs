//! Sequences of characters: equality, white space, trimming and searching.

use vstd::prelude::*;
use vstd::std_specs::iter::IteratorSpec;

verus! {

/// White space as Unicode defines it: the characters with the property
/// `White_Space`.
pub open spec fn is_whitespace(c: char) -> bool {
    let code = c as u32;
    ||| 0x09 <= code <= 0x0D
    ||| code == 0x20
    ||| code == 0x85
    ||| code == 0xA0
    ||| code == 0x1680
    ||| 0x2000 <= code <= 0x200A
    ||| code == 0x2028
    ||| code == 0x2029
    ||| code == 0x202F
    ||| code == 0x205F
    ||| code == 0x3000
}

/// The text without the white space it begins with.
pub open spec fn trim_start(text: Seq<char>) -> Seq<char>
    decreases text.len(),
{
    if text.len() > 0 && is_whitespace(text.first()) {
        trim_start(text.drop_first())
    } else {
        text
    }
}

/// The text without the white space it ends with.
pub open spec fn trim_end(text: Seq<char>) -> Seq<char>
    decreases text.len(),
{
    if text.len() > 0 && is_whitespace(text.last()) {
        trim_end(text.drop_last())
    } else {
        text
    }
}

/// The text without the white space at either end.
pub open spec fn trim(text: Seq<char>) -> Seq<char> {
    trim_end(trim_start(text))
}

/// The text neither begins nor ends with white space.
pub open spec fn is_trimmed(text: Seq<char>) -> bool {
    text.len() > 0 ==> !is_whitespace(text.first()) && !is_whitespace(text.last())
}

/// How many characters stand before the first `c` of the text; the length of
/// the text if it holds no `c`.
pub open spec fn first_index(text: Seq<char>, c: char) -> nat
    decreases text.len(),
{
    if text.len() == 0 || text.first() == c {
        0
    } else {
        1 + first_index(text.drop_first(), c)
    }
}

/// The lines of the text: the pieces between its line feeds. A text without
/// line feed is one line, and so is the empty text.
pub open spec fn split_lines(text: Seq<char>) -> Seq<Seq<char>>
    decreases text.len(),
{
    let end = first_index(text, '\n') as int;
    if end >= text.len() {
        seq![text]
    } else {
        seq![text.take(end)] + split_lines(text.skip(end + 1))
    }
}

/// The lines put together again, with a line feed between each two.
pub open spec fn join_lines(lines: Seq<Seq<char>>) -> Seq<char>
    decreases lines.len(),
{
    if lines.len() == 0 {
        Seq::empty()
    } else if lines.len() == 1 {
        lines.first()
    } else {
        lines.first() + seq!['\n'] + join_lines(lines.drop_first())
    }
}

/// `first_index` finds the first occurrence, and nothing else.
pub proof fn lemma_first_index(text: Seq<char>, c: char)
    ensures
        first_index(text, c) <= text.len(),
        forall|i: int| 0 <= i < first_index(text, c) ==> text[i] != c,
        first_index(text, c) < text.len() ==> text[first_index(text, c) as int] == c,
    decreases text.len(),
{
    if text.len() == 0 || text.first() == c {
    } else {
        let rest = text.drop_first();
        lemma_first_index(rest, c);
        assert forall|i: int| 0 <= i < first_index(text, c) implies text[i] != c by {
            if i > 0 {
                assert(text[i] == rest[i - 1]);
            }
        }
        if first_index(text, c) < text.len() {
            assert(text[first_index(text, c) as int] == rest[first_index(rest, c) as int]);
        }
    }
}

/// A position that no `c` comes before, and that holds a `c` or is the end of
/// the text, is the one `first_index` gives.
pub proof fn lemma_first_index_is(text: Seq<char>, c: char, at: int)
    requires
        0 <= at <= text.len(),
        forall|i: int| 0 <= i < at ==> text[i] != c,
        at < text.len() ==> text[at] == c,
    ensures
        first_index(text, c) == at,
{
    lemma_first_index(text, c);
    let found = first_index(text, c) as int;
    if found < at {
        assert(text[found] != c);
    } else if at < found {
        assert(text[at] != c);
    }
}

/// Trimming leaves a text that is trimmed.
pub proof fn lemma_trim_is_trimmed(text: Seq<char>)
    ensures
        is_trimmed(trim(text)),
{
    lemma_trim_start_shape(text);
    lemma_trim_end_shape(trim_start(text));
    let inner = trim_start(text);
    let outer = trim_end(inner);
    if outer.len() > 0 {
        assert(outer.first() == inner.first());
    }
}

/// What `trim_start` gives is the end of the text, and begins with no white
/// space; what it took away was white space.
pub proof fn lemma_trim_start_shape(text: Seq<char>)
    ensures
        trim_start(text).len() <= text.len(),
        trim_start(text) == text.skip(text.len() - trim_start(text).len()),
        trim_start(text).len() > 0 ==> !is_whitespace(trim_start(text).first()),
        forall|i: int| 0 <= i < text.len() - trim_start(text).len() ==> is_whitespace(text[i]),
    decreases text.len(),
{
    if text.len() > 0 && is_whitespace(text.first()) {
        let rest = text.drop_first();
        lemma_trim_start_shape(rest);
        let cut = text.len() - trim_start(text).len();
        assert(trim_start(text) == text.skip(cut)) by {
            assert(rest.skip(cut - 1) =~= text.skip(cut));
        }
        assert forall|i: int| 0 <= i < cut implies is_whitespace(text[i]) by {
            if i > 0 {
                assert(text[i] == rest[i - 1]);
            }
        }
    } else {
        assert(text.skip(0) =~= text);
    }
}

/// What `trim_end` gives is the beginning of the text, and ends with no white
/// space; what it took away was white space.
pub proof fn lemma_trim_end_shape(text: Seq<char>)
    ensures
        trim_end(text).len() <= text.len(),
        trim_end(text) == text.take(trim_end(text).len() as int),
        trim_end(text).len() > 0 ==> !is_whitespace(trim_end(text).last()),
        forall|i: int| trim_end(text).len() <= i < text.len() ==> is_whitespace(text[i]),
    decreases text.len(),
{
    if text.len() > 0 && is_whitespace(text.last()) {
        let rest = text.drop_last();
        lemma_trim_end_shape(rest);
        let kept = trim_end(text).len() as int;
        assert(trim_end(text) == text.take(kept)) by {
            assert(rest.take(kept) =~= text.take(kept));
        }
        assert forall|i: int| kept <= i < text.len() implies is_whitespace(text[i]) by {
            if i < text.len() - 1 {
                assert(text[i] == rest[i]);
            }
        }
    } else {
        assert(text.take(text.len() as int) =~= text);
    }
}

/// White space put before a text does not change what trimming leaves.
pub proof fn lemma_trim_start_skips(space: Seq<char>, text: Seq<char>)
    requires
        forall|i: int| 0 <= i < space.len() ==> is_whitespace(space[i]),
    ensures
        trim_start(space + text) == trim_start(text),
    decreases space.len(),
{
    if space.len() == 0 {
        assert(space + text =~= text);
    } else {
        assert((space + text).first() == space[0]);
        assert((space + text).drop_first() =~= space.drop_first() + text);
        lemma_trim_start_skips(space.drop_first(), text);
    }
}

/// White space put after a text does not change what trimming leaves.
pub proof fn lemma_trim_end_skips(text: Seq<char>, space: Seq<char>)
    requires
        forall|i: int| 0 <= i < space.len() ==> is_whitespace(space[i]),
    ensures
        trim_end(text + space) == trim_end(text),
    decreases space.len(),
{
    if space.len() == 0 {
        assert(text + space =~= text);
    } else {
        assert((text + space).last() == space.last());
        assert((text + space).drop_last() =~= text + space.drop_last());
        lemma_trim_end_skips(text, space.drop_last());
    }
}

/// Whether the character is white space.
pub fn is_whitespace_char(c: char) -> (answer: bool)
    ensures
        answer == is_whitespace(c),
{
    let code: u32 = c as u32;
    (0x09 <= code && code <= 0x0D) || code == 0x20 || code == 0x85 || code == 0xA0 || code
        == 0x1680 || (0x2000 <= code && code <= 0x200A) || code == 0x2028 || code == 0x2029
        || code == 0x202F || code == 0x205F || code == 0x3000
}

/// The characters of a string, one by one.
pub fn to_chars(text: &str) -> (chars: Vec<char>)
    ensures
        chars@ == text@,
{
    let mut chars: Vec<char> = Vec::new();
    for c in walk: text.chars()
        invariant
            walk.seq() == text@,
            chars@ == walk.seq().take(walk.index() as int),
    {
        chars.push(c);
    }
    chars
}

/// Where the first `c` stands among the characters from `start` up to `end`;
/// `end` if there is none.
pub fn find_char(chars: &Vec<char>, start: usize, end: usize, c: char) -> (at: usize)
    requires
        start <= end <= chars@.len(),
    ensures
        start <= at <= end,
        at - start == first_index(chars@.subrange(start as int, end as int), c),
{
    let ghost piece = chars@.subrange(start as int, end as int);
    let mut at = start;
    while at < end && chars[at] != c
        invariant
            start <= at <= end <= chars@.len(),
            piece == chars@.subrange(start as int, end as int),
            forall|i: int| 0 <= i < at - start ==> piece[i] != c,
        decreases end - at,
    {
        at += 1;
    }
    proof {
        lemma_first_index_is(piece, c, at - start);
    }
    at
}

/// The bounds of what trimming leaves of the characters from `start` up to
/// `end`.
pub fn trim_bounds(chars: &Vec<char>, start: usize, end: usize) -> (bounds: (usize, usize))
    requires
        start <= end <= chars@.len(),
    ensures
        start <= bounds.0 <= bounds.1 <= end,
        chars@.subrange(bounds.0 as int, bounds.1 as int) == trim(
            chars@.subrange(start as int, end as int),
        ),
{
    let mut from = start;
    while from < end && is_whitespace_char(chars[from])
        invariant
            start <= from <= end <= chars@.len(),
            trim_start(chars@.subrange(from as int, end as int)) == trim_start(
                chars@.subrange(start as int, end as int),
            ),
        decreases end - from,
    {
        assert(chars@.subrange(from as int, end as int).drop_first() =~= chars@.subrange(
            from + 1,
            end as int,
        ));
        from += 1;
    }
    let mut to = end;
    while from < to && is_whitespace_char(chars[to - 1])
        invariant
            start <= from <= to <= end <= chars@.len(),
            trim_end(chars@.subrange(from as int, to as int)) == trim(
                chars@.subrange(start as int, end as int),
            ),
        decreases to - from,
    {
        assert(chars@.subrange(from as int, to as int).drop_last() =~= chars@.subrange(
            from as int,
            to - 1,
        ));
        to -= 1;
    }
    (from, to)
}

/// Whether the characters from `start` up to `end` spell `word`.
pub fn range_is(chars: &Vec<char>, start: usize, end: usize, word: &str) -> (same: bool)
    requires
        start <= end <= chars@.len(),
    ensures
        same == (chars@.subrange(start as int, end as int) == word@),
{
    let ghost piece = chars@.subrange(start as int, end as int);
    let mut letters = word.chars();
    let mut at = start;
    loop
        invariant
            start <= at <= end <= chars@.len(),
            piece == chars@.subrange(start as int, end as int),
            at - start <= word@.len(),
            letters.remaining() == word@.skip(at - start),
            piece.take(at - start) == word@.take(at - start),
        decreases end - at,
    {
        match letters.next() {
            Some(letter) => {
                if at == end || chars[at] != letter {
                    assert(at < end ==> piece[at - start] != word@[at - start]);
                    return false;
                }
                proof {
                    let seen = at - start;
                    assert(piece.take(seen + 1) == piece.take(seen).push(piece[seen]));
                    assert(word@.take(seen + 1) == word@.take(seen).push(word@[seen]));
                }
                at += 1;
            },
            None => {
                assert(word@ == word@.take(at - start));
                assert(at == end ==> piece == piece.take(at - start));
                return at == end;
            },
        }
    }
}

/// Whether two strings hold the same characters.
pub fn str_eq(a: &str, b: &str) -> (same: bool)
    ensures
        same == (a@ == b@),
{
    let mut left = a.chars();
    let mut right = b.chars();
    let ghost mut seen: int = 0;
    loop
        invariant
            0 <= seen <= a@.len(),
            seen <= b@.len(),
            left.remaining() == a@.skip(seen),
            right.remaining() == b@.skip(seen),
            a@.take(seen) == b@.take(seen),
        decreases a@.len() - seen,
    {
        let x = left.next();
        let y = right.next();
        match (x, y) {
            (Some(c), Some(d)) => {
                if c != d {
                    assert(a@[seen] != b@[seen]);
                    return false;
                }
                proof {
                    assert(a@.take(seen + 1) == a@.take(seen).push(a@[seen]));
                    assert(b@.take(seen + 1) == b@.take(seen).push(b@[seen]));
                    seen = seen + 1;
                }
            },
            (None, None) => {
                assert(a@ == a@.take(seen));
                assert(b@ == b@.take(seen));
                return true;
            },
            _ => {
                return false;
            },
        }
    }
}

} // verus!
