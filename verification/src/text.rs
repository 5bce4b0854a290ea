//! Line splitting, byte widths and padding over character sequences.

use vstd::prelude::*;
use crate::lexical::{newline_from, lemma_newline_bounds, append_all, append_range};

verus! {

/// Bytes that a character takes in UTF-8.
pub open spec fn utf8_width(c: char) -> nat {
    if '\u{80}' > c {
        1
    } else if '\u{800}' > c {
        2
    } else if '\u{10000}' > c {
        3
    } else {
        4
    }
}

/// Bytes that a text takes in UTF-8, as `str::len` counts them.
pub open spec fn byte_len(s: Seq<char>) -> nat
    decreases s.len(),
{
    if s.len() == 0 {
        0
    } else {
        byte_len(s.drop_last()) + utf8_width(s.last())
    }
}

/// Texts short enough that their byte length fits in a `usize` with room to spare.
pub open spec fn small(s: Seq<char>) -> bool {
    s.len() <= usize::MAX / 8
}

pub proof fn lemma_byte_len_bound(s: Seq<char>)
    ensures
        s.len() <= byte_len(s) <= 4 * s.len(),
    decreases s.len(),
{
    if s.len() > 0 {
        lemma_byte_len_bound(s.drop_last());
    }
}

pub proof fn lemma_byte_len_concat(a: Seq<char>, b: Seq<char>)
    ensures
        byte_len(a + b) == byte_len(a) + byte_len(b),
    decreases b.len(),
{
    if b.len() > 0 {
        assert((a + b).drop_last() =~= a + b.drop_last());
        lemma_byte_len_concat(a, b.drop_last());
    } else {
        assert(a + b =~= a);
    }
}

/// UTF-8 width of one character.
pub fn char_width(c: char) -> (r: usize)
    ensures
        r == utf8_width(c),
{
    if '\u{80}' > c {
        1
    } else if '\u{800}' > c {
        2
    } else if '\u{10000}' > c {
        3
    } else {
        4
    }
}

/// UTF-8 length of `chars`.
pub fn byte_len_of(chars: &[char]) -> (r: usize)
    requires
        small(chars@),
    ensures
        r == byte_len(chars@),
{
    let mut total: usize = 0;
    let mut k: usize = 0;
    while k < chars.len()
        invariant
            k <= chars@.len(),
            small(chars@),
            total == byte_len(chars@.take(k as int)),
        decreases chars.len() - k,
    {
        proof {
            lemma_byte_len_bound(chars@.take(k as int));
            assert(chars@.take(k + 1).drop_last() =~= chars@.take(k as int));
        }
        total = total + char_width(chars[k]);
        k += 1;
    }
    assert(chars@.take(k as int) =~= chars@);
    total
}

/// `n` spaces.
pub open spec fn spaces(n: nat) -> Seq<char> {
    Seq::new(n, |i: int| ' ')
}

/// `n` spaces, as `" ".repeat(n)` gives them.
pub fn space_chars(n: usize) -> (r: Vec<char>)
    ensures
        r@ == spaces(n as nat),
{
    let mut r: Vec<char> = Vec::new();
    let mut k: usize = 0;
    while k < n
        invariant
            k <= n,
            r@ == spaces(k as nat),
        decreases n - k,
    {
        r.push(' ');
        k += 1;
        assert(r@ =~= spaces(k as nat));
    }
    r
}

/// Append `n` spaces to `out`.
pub fn push_spaces(out: &mut Vec<char>, n: usize)
    ensures
        final(out)@ == old(out)@ + spaces(n as nat),
{
    let sp = space_chars(n);
    append_all(out, &sp);
}

/// A line piece ending before a newline, without one carriage return before it.
pub open spec fn strip_cr(line: Seq<char>) -> Seq<char> {
    if line.len() > 0 && line.last() == '\r' {
        line.drop_last()
    } else {
        line
    }
}

/// The lines of `s` from `i` on, as `str::lines` yields them: split at `\n`
/// (dropping a `\r` just before it); a final line ending is optional.
pub open spec fn lines_from(s: Seq<char>, i: int) -> Seq<Seq<char>>
    decreases s.len() - i,
{
    if i < 0 || i >= s.len() {
        Seq::empty()
    } else {
        let e = newline_from(s, i);
        proof { lemma_newline_bounds(s, i); }
        if e < s.len() {
            seq![strip_cr(s.subrange(i, e))] + lines_from(s, e + 1)
        } else {
            seq![s.subrange(i, s.len() as int)]
        }
    }
}

/// The lines of `s`.
pub open spec fn lines_of(s: Seq<char>) -> Seq<Seq<char>> {
    lines_from(s, 0)
}

/// The views of a list of character vectors.
pub open spec fn char_views(v: Seq<Vec<char>>) -> Seq<Seq<char>> {
    v.map_values(|x: Vec<char>| x@)
}

/// The lines of `chars`, as `str::lines` splits them.
pub fn lines(chars: &[char]) -> (r: Vec<Vec<char>>)
    ensures
        char_views(r@) == lines_of(chars@),
{
    let len = chars.len();
    let mut r: Vec<Vec<char>> = Vec::new();
    let mut i: usize = 0;
    while i < len
        invariant
            i <= len,
            len == chars@.len(),
            char_views(r@) + lines_from(chars@, i as int) == lines_of(chars@),
        decreases len - i,
    {
        proof { lemma_newline_bounds(chars@, i as int); }
        let mut e = i;
        while e < len && chars[e] != '\n'
            invariant
                i <= e <= len,
                len == chars@.len(),
                newline_from(chars@, e as int) == newline_from(chars@, i as int),
            decreases len - e,
        {
            e += 1;
        }
        let ghost before = r@;
        let mut line: Vec<char> = Vec::new();
        append_range(&mut line, chars, i, e);
        assert(line@ =~= chars@.subrange(i as int, e as int));
        if e < len {
            if line.len() > 0 && line[line.len() - 1] == '\r' {
                line.pop();
                assert(line@ =~= strip_cr(chars@.subrange(i as int, e as int)));
            }
            r.push(line);
            assert(char_views(r@) =~= char_views(before).push(strip_cr(chars@.subrange(i as int, e as int))));
            assert(char_views(r@) + lines_from(chars@, e + 1) =~= char_views(before) + lines_from(chars@, i as int));
            i = e + 1;
        } else {
            r.push(line);
            assert(char_views(r@) =~= char_views(before).push(chars@.subrange(i as int, len as int)));
            assert(char_views(r@) =~= char_views(before) + lines_from(chars@, i as int));
            assert(lines_from(chars@, len as int) =~= Seq::<Seq<char>>::empty());
            i = len;
        }
    }
    assert(char_views(r@) =~= char_views(r@) + lines_from(chars@, i as int));
    r
}

/// Whether `chars` holds `c`.
pub fn contains_char(chars: &[char], c: char) -> (r: bool)
    ensures
        r == chars@.contains(c),
{
    let mut k: usize = 0;
    while k < chars.len()
        invariant
            k <= chars@.len(),
            forall|x: int| 0 <= x < k ==> chars@[x] != c,
        decreases chars.len() - k,
    {
        if chars[k] == c {
            assert(chars@[k as int] == c);
            return true;
        }
        k += 1;
    }
    false
}

} // verus!
