//! Helpers of the deparser-layout renderer.

use vstd::prelude::*;
use crate::chars::{chars_of, is_whitespace, is_whitespace_char, string_of};
use crate::config::Formatter;
use crate::expr::join_with;
use crate::lexical::append_range;
use crate::stmt::{first_non_ws_from, lemma_first_non_ws_bounds};
use crate::text::{space_chars, spaces};

verus! {

/// Column at which a clause keyword's first word ends.
pub const RIVER_END: usize = 7;

/// First index at or after `j` that holds whitespace, or the end of `s`.
pub open spec fn word_end_from(s: Seq<char>, j: int) -> int
    decreases s.len() - j,
{
    if 0 <= j < s.len() && !is_whitespace_char(s[j]) {
        word_end_from(s, j + 1)
    } else {
        j
    }
}

pub proof fn lemma_word_end_bounds(s: Seq<char>, j: int)
    requires
        0 <= j <= s.len(),
    ensures
        j <= word_end_from(s, j) <= s.len(),
        j < s.len() && !is_whitespace_char(s[j]) ==> j < word_end_from(s, j),
    decreases s.len() - j,
{
    if j < s.len() && !is_whitespace_char(s[j]) {
        lemma_word_end_bounds(s, j + 1);
    }
}

/// The whitespace-separated words of `s` from `i` on, as `str::split_whitespace` yields them.
pub open spec fn words_from(s: Seq<char>, i: int) -> Seq<Seq<char>>
    decreases s.len() - i,
{
    if i < 0 || i > s.len() {
        Seq::empty()
    } else {
        let j = first_non_ws_from(s, i);
        if j >= s.len() {
            Seq::empty()
        } else {
            proof {
                lemma_first_non_ws_bounds(s, i);
                lemma_word_end_bounds(s, j);
            }
            let e = word_end_from(s, j);
            seq![s.subrange(j, e)] + words_from(s, e)
        }
    }
}

impl<'a> Formatter<'a> {
    /// Collapse all runs of whitespace to a single space and trim.
    pub fn collapse_ws(&self, text: &str) -> (r: String)
        ensures
            r@ == join_with(words_from(text@, 0), seq![' ']),
    {
        let c = chars_of(text);
        let len = c.len();
        let mut out: Vec<char> = Vec::new();
        let mut i: usize = 0;
        let mut count: usize = 0;
        let ghost all = words_from(c@, 0);
        while i < len
            invariant
                i <= len,
                len == c@.len(),
                c@ == text@,
                all == words_from(c@, 0),
                count <= i,
                all.take(count as int) + words_from(c@, i as int) == all,
                count <= all.len(),
                count == 0 ==> out@.len() == 0,
                count > 0 ==> out@ == join_with(all.take(count as int), seq![' ']),
            decreases len - i,
        {
            proof { lemma_first_non_ws_bounds(c@, i as int); }
            let mut j = i;
            while j < len && is_whitespace(c[j])
                invariant
                    i <= j <= len,
                    len == c@.len(),
                    first_non_ws_from(c@, j as int) == first_non_ws_from(c@, i as int),
                decreases len - j,
            {
                j += 1;
            }
            if j >= len {
                assert(words_from(c@, i as int) =~= Seq::<Seq<char>>::empty());
                i = len;
            } else {
                proof { lemma_word_end_bounds(c@, j as int); }
                let mut e = j;
                while e < len && !is_whitespace(c[e])
                    invariant
                        j <= e <= len,
                        len == c@.len(),
                        word_end_from(c@, e as int) == word_end_from(c@, j as int),
                    decreases len - e,
                {
                    e += 1;
                }
                let ghost before = out@;
                let ghost w = c@.subrange(j as int, e as int);
                assert(words_from(c@, i as int) == seq![w] + words_from(c@, e as int));
                assert(all[count as int] == w) by {
                    assert(all == all.take(count as int) + (seq![w] + words_from(c@, e as int)));
                }
                if count > 0 {
                    out.push(' ');
                }
                append_range(&mut out, &c, j, e);
                proof {
                    assert(all.take(count + 1).drop_last() =~= all.take(count as int));
                    assert(all.take(count + 1) + words_from(c@, e as int) =~= all.take(count as int) + words_from(c@, i as int));
                    if count == 0 {
                        assert(all.take(1) =~= seq![w]);
                    }
                }
                count += 1;
                i = e;
            }
        }
        assert(all.take(count as int) =~= all) by {
            assert(words_from(c@, i as int) =~= Seq::<Seq<char>>::empty());
        }
        string_of(&out)
    }

    /// Leading spaces so that a clause keyword's first word of `word_len`
    /// bytes ends at `RIVER_END`.
    pub fn river_pad(&self, word_len: usize) -> (r: String)
        ensures
            r@ == spaces(if word_len < RIVER_END { (RIVER_END - word_len) as nat } else { 0 }),
    {
        let n = RIVER_END.saturating_sub(word_len);
        let sp = space_chars(n);
        string_of(&sp)
    }
}

} // verus!
