//! Character-level helpers shared by the other modules: strings as sequences of
//! characters, searching, whitespace and trimming.

use vstd::prelude::*;
use vstd::std_specs::iter::IteratorSpec;

verus! {

/// The index of the first occurrence of `c` in `s` at or after `from`, or
/// `s.len()` when there is none.
pub open spec fn position(s: Seq<char>, c: char, from: int) -> int
    decreases s.len() - from,
{
    if from < 0 || from >= s.len() {
        s.len() as int
    } else if s[from] == c {
        from
    } else {
        position(s, c, from + 1)
    }
}

/// The index of the first occurrence of `c` in `s`, or `s.len()` when `c` does
/// not occur.
pub open spec fn index_of(s: Seq<char>, c: char) -> int {
    position(s, c, 0)
}

/// `position` is pinned down by what lies before it and at it.
pub proof fn lemma_position_is(s: Seq<char>, c: char, from: int, r: int)
    requires
        0 <= from <= r <= s.len(),
        forall|j: int| from <= j < r ==> s[j] != c,
        r < s.len() ==> s[r] == c,
    ensures
        position(s, c, from) == r,
    decreases r - from,
{
    if from < r {
        lemma_position_is(s, c, from + 1, r);
    }
}

/// What `position` returns: nothing before it is `c`, and it is `c` unless it
/// is the end.
pub proof fn lemma_position_found(s: Seq<char>, c: char, from: int)
    requires
        0 <= from <= s.len(),
    ensures
        from <= position(s, c, from) <= s.len(),
        forall|j: int| from <= j < position(s, c, from) ==> s[j] != c,
        position(s, c, from) < s.len() ==> s[position(s, c, from)] == c,
    decreases s.len() - from,
{
    if from < s.len() && s[from] != c {
        lemma_position_found(s, c, from + 1);
    }
}

/// The characters of a string, in order.
pub fn chars_of(s: &str) -> (out: Vec<char>)
    ensures
        out@ == s@,
{
    broadcast use vstd::string::group_string_axioms;
    let mut out: Vec<char> = Vec::new();
    let mut it = s.chars();
    loop
        invariant
            out@ + it.remaining() == s@,
            it.obeys_prophetic_iter_laws(),
            it.decrease() is Some,
        decreases it.decrease()->0,
    {
        match it.next() {
            Some(c) => {
                out.push(c);
                assert(out@ + it.remaining() =~= s@);
            },
            None => {
                assert(out@ =~= s@);
                return out;
            },
        }
    }
}

/// The first index in `start..end` at which `v` holds `c`, or `end`.
pub fn find_char(v: &[char], c: char, start: usize, end: usize) -> (r: usize)
    requires
        start <= end <= v@.len(),
    ensures
        start <= r <= end,
        r - start == index_of(v@.subrange(start as int, end as int), c),
        forall|j: int| start <= j < r ==> v@[j] != c,
        r < end ==> v@[r as int] == c,
{
    let mut i: usize = start;
    while i < end && v[i] != c
        invariant
            start <= i <= end <= v@.len(),
            forall|j: int| start <= j < i ==> v@[j] != c,
        decreases end - i,
    {
        i += 1;
    }
    proof {
        lemma_position_is(v@.subrange(start as int, end as int), c, 0, i - start);
    }
    i
}

/// Whether `c` is white space: one of the characters that separate the fields
/// of a line and that trimming removes.
pub open spec fn white_space(c: char) -> bool {
    ||| '\u{9}' <= c <= '\u{d}'
    ||| c == ' '
    ||| c == '\u{85}'
    ||| c == '\u{a0}'
    ||| c == '\u{1680}'
    ||| '\u{2000}' <= c <= '\u{200a}'
    ||| c == '\u{2028}'
    ||| c == '\u{2029}'
    ||| c == '\u{202f}'
    ||| c == '\u{205f}'
    ||| c == '\u{3000}'
}

/// Whether `c` is white space.
pub fn is_whitespace(c: char) -> (b: bool)
    ensures
        b == white_space(c),
{
    ('\u{9}' <= c && c <= '\u{d}') || c == ' ' || c == '\u{85}' || c == '\u{a0}' || c == '\u{1680}'
        || ('\u{2000}' <= c && c <= '\u{200a}') || c == '\u{2028}' || c == '\u{2029}' || c
        == '\u{202f}' || c == '\u{205f}' || c == '\u{3000}'
}

/// The first index at or after `from` whose character is white space (when
/// `space` is true) or is not (when it is false), or `s.len()` when there is
/// none.
pub open spec fn next_where(s: Seq<char>, from: int, space: bool) -> int
    decreases s.len() - from,
{
    if from < 0 || from >= s.len() {
        s.len() as int
    } else if white_space(s[from]) == space {
        from
    } else {
        next_where(s, from + 1, space)
    }
}

/// The first index in `from..v.len()` whose character is white space (when
/// `space` is true) or is not (when it is false), or `v.len()`.
pub fn scan(v: &[char], from: usize, space: bool) -> (r: usize)
    requires
        from <= v@.len(),
    ensures
        from <= r <= v@.len(),
        r == next_where(v@, from as int, space),
        r < v@.len() ==> white_space(v@[r as int]) == space,
{
    let mut i: usize = from;
    while i < v.len() && is_whitespace(v[i]) != space
        invariant
            from <= i <= v@.len(),
            next_where(v@, from as int, space) == next_where(v@, i as int, space),
        decreases v@.len() - i,
    {
        i += 1;
    }
    i
}

/// `s` without the white space at its start.
pub open spec fn trim_start(s: Seq<char>) -> Seq<char> {
    s.subrange(next_where(s, 0, false), s.len() as int)
}

/// `s` without the white space at its end.
pub open spec fn trim_end(s: Seq<char>) -> Seq<char>
    decreases s.len(),
{
    if s.len() > 0 && white_space(s.last()) {
        trim_end(s.drop_last())
    } else {
        s
    }
}

/// `s` without the white space at its start and at its end.
pub open spec fn trim(s: Seq<char>) -> Seq<char> {
    trim_end(trim_start(s))
}

/// The bounds of `v` without the white space at its start and end.
pub fn trim_bounds(v: &[char]) -> (r: (usize, usize))
    ensures
        r.0 <= r.1 <= v@.len(),
        v@.subrange(r.0 as int, r.1 as int) == trim(v@),
{
    let start = scan(v, 0, false);
    let mut end: usize = v.len();
    while end > start && is_whitespace(v[end - 1])
        invariant
            start <= end <= v@.len(),
            trim_end(v@.subrange(start as int, end as int)) == trim(v@),
        decreases end,
    {
        assert(v@.subrange(start as int, end as int).drop_last() =~= v@.subrange(
            start as int,
            end - 1,
        ));
        end -= 1;
    }
    (start, end)
}

} // verus!
