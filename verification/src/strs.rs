//! Text operations on `&str` that the formatter builds its output with,
//! each stated over the text's characters.

use vstd::prelude::*;
use crate::chars::{chars_of, string_of, push_str, push_char, is_whitespace};
use crate::lexical::{occurs_at, eq_chars, copy_range, trim_end_chars, trim_end_of};
use crate::stmt::{trim_chars, trim_of, first_non_ws_from};
use crate::expr::{join_with, string_views};
use crate::text::spaces;

verus! {

/// Whether `s` begins with `p`.
pub open spec fn has_prefix(s: Seq<char>, p: Seq<char>) -> bool {
    p.len() <= s.len() && s.take(p.len() as int) == p
}

/// Whether `s`, after some spaces, begins with `w`.
pub open spec fn opens_with(s: Seq<char>, w: Seq<char>) -> bool {
    exists|n: nat| #![trigger spaces(n)] has_prefix(s, spaces(n) + w)
}

/// Whether `s` ends with `p`.
pub open spec fn has_suffix(s: Seq<char>, p: Seq<char>) -> bool {
    p.len() <= s.len() && s.skip(s.len() - p.len()) == p
}

/// Whether `p` occurs somewhere in `s`.
pub open spec fn occurs_in(s: Seq<char>, p: Seq<char>) -> bool {
    exists|j: int| occurs_at(s, p, j)
}

/// The texts of `parts`, one after the other.
pub open spec fn concat_views(parts: Seq<&str>) -> Seq<char>
    decreases parts.len(),
{
    if parts.len() == 0 {
        Seq::empty()
    } else {
        concat_views(parts.drop_last()) + parts.last()@
    }
}

/// `s` without leading and trailing whitespace.
pub fn trim(s: &str) -> (r: String)
    ensures
        r@ == trim_of(s@),
{
    let c = chars_of(s);
    let t = trim_chars(&c);
    string_of(&t)
}

/// `s` without trailing whitespace.
pub fn trim_end(s: &str) -> (r: String)
    ensures
        r@ == trim_end_of(s@),
{
    let c = chars_of(s);
    let t = trim_end_chars(&c);
    string_of(&t)
}

/// `s` without leading whitespace.
pub fn trim_start(s: &str) -> (r: String)
    ensures
        r@ == s@.skip(first_non_ws_from(s@, 0)),
{
    let c = chars_of(s);
    let mut a: usize = 0;
    while a < c.len() && is_whitespace(c[a])
        invariant
            a <= c@.len(),
            c@ == s@,
            first_non_ws_from(s@, a as int) == first_non_ws_from(s@, 0),
        decreases c.len() - a,
    {
        a += 1;
    }
    let t = copy_range(&c, a, c.len());
    assert(t@ =~= s@.skip(a as int));
    string_of(&t)
}

/// Whether `s` begins with `p`.
pub fn starts_with(s: &str, p: &str) -> (r: bool)
    ensures
        r == has_prefix(s@, p@),
{
    let c = chars_of(s);
    let pc = chars_of(p);
    if pc.len() > c.len() {
        return false;
    }
    let head = copy_range(&c, 0, pc.len());
    assert(head@ =~= s@.take(p@.len() as int));
    eq_chars(&head, &pc)
}

/// Whether `s` ends with `p`.
pub fn ends_with(s: &str, p: &str) -> (r: bool)
    ensures
        r == has_suffix(s@, p@),
{
    let c = chars_of(s);
    let pc = chars_of(p);
    if pc.len() > c.len() {
        return false;
    }
    let tail = copy_range(&c, c.len() - pc.len(), c.len());
    assert(tail@ =~= s@.skip(s@.len() - p@.len()));
    eq_chars(&tail, &pc)
}

/// Whether the characters of `c` from `k` on begin with `p`.
pub(crate) fn occurs_at_chars(c: &[char], p: &[char], k: usize) -> (r: bool)
    ensures
        r == occurs_at(c@, p@, k as int),
{
    if k > c.len() || p.len() > c.len() - k {
        return false;
    }
    let end = k + p.len();
    let mut i: usize = 0;
    while i < p.len()
        invariant
            i <= p@.len(),
            end == k + p@.len(),
            end <= c@.len(),
            forall|x: int| 0 <= x < i ==> c@[k + x] == p@[x],
        decreases p.len() - i,
    {
        let ki = k + i;
        if c[ki] != p[i] {
            assert(c@.subrange(k as int, k + p@.len())[i as int] != p@[i as int]);
            return false;
        }
        i += 1;
    }
    assert(c@.subrange(k as int, k + p@.len()) =~= p@);
    true
}

/// The index of the first occurrence of `p` in `s`, counted in characters.
pub fn find(s: &str, p: &str) -> (r: Option<usize>)
    ensures
        match r {
            Some(i) => occurs_at(s@, p@, i as int) && forall|j: int| 0 <= j < i ==> !occurs_at(s@, p@, j),
            None => forall|j: int| !occurs_at(s@, p@, j),
        },
{
    let c = chars_of(s);
    let pc = chars_of(p);
    let mut k: usize = 0;
    while k < c.len()
        invariant
            c@ == s@,
            pc@ == p@,
            k <= c@.len(),
            forall|j: int| 0 <= j < k ==> !occurs_at(s@, p@, j),
        decreases c.len() - k,
    {
        if occurs_at_chars(&c, &pc, k) {
            return Some(k);
        }
        k += 1;
    }
    if occurs_at_chars(&c, &pc, k) {
        return Some(k);
    }
    assert forall|j: int| !occurs_at(s@, p@, j) by {
        if 0 <= j && j + p@.len() <= s@.len() {
            assert(j <= c@.len());
        }
    }
    None
}

/// Whether `p` occurs in `s`.
pub fn contains(s: &str, p: &str) -> (r: bool)
    ensures
        r == occurs_in(s@, p@),
{
    match find(s, p) {
        Some(i) => true,
        None => false,
    }
}

/// The texts of `parts`, one after the other.
pub fn concat(parts: &[&str]) -> (r: String)
    ensures
        r@ == concat_views(parts@),
{
    let mut r = String::new();
    let mut k: usize = 0;
    while k < parts.len()
        invariant
            k <= parts@.len(),
            r@ == concat_views(parts@.take(k as int)),
        decreases parts.len() - k,
    {
        push_str(&mut r, parts[k]);
        assert(parts@.take(k + 1).drop_last() =~= parts@.take(k as int));
        k += 1;
    }
    assert(parts@.take(parts@.len() as int) =~= parts@);
    r
}

/// Every text begins with itself.
pub proof fn lemma_prefix_self(p: Seq<char>)
    ensures
        has_prefix(p, p),
{
    assert(p.take(p.len() as int) =~= p);
}

/// A text that begins with `w` opens with `w`.
pub proof fn lemma_opens_with_prefix(s: Seq<char>, w: Seq<char>)
    requires
        has_prefix(s, w),
    ensures
        opens_with(s, w),
{
    assert(spaces(0) + w =~= w);
}

/// A text that begins with a text that opens with `w` opens with `w`.
pub proof fn lemma_opens_with_trans(s: Seq<char>, q: Seq<char>, w: Seq<char>)
    requires
        has_prefix(s, q),
        opens_with(q, w),
    ensures
        opens_with(s, w),
{
    let n = choose|n: nat| #![trigger spaces(n)] has_prefix(q, spaces(n) + w);
    lemma_prefix_trans(s, q, spaces(n) + w);
}

/// A text that opens with `w`, which begins with `v`, opens with `v`.
pub proof fn lemma_opens_with_shorter(s: Seq<char>, w: Seq<char>, v: Seq<char>)
    requires
        opens_with(s, w),
        has_prefix(w, v),
    ensures
        opens_with(s, v),
{
    let n = choose|n: nat| #![trigger spaces(n)] has_prefix(s, spaces(n) + w);
    assert(has_prefix(spaces(n) + w, spaces(n) + v)) by {
        assert((spaces(n) + w).take((spaces(n) + v).len() as int) =~= spaces(n) + v);
    }
    lemma_prefix_trans(s, spaces(n) + w, spaces(n) + v);
}

/// A text that opens with `w` still does once more is appended to it.
pub proof fn lemma_opens_with_append(s: Seq<char>, t: Seq<char>, w: Seq<char>)
    requires
        opens_with(s, w),
    ensures
        opens_with(s + t, w),
{
    let n = choose|n: nat| #![trigger spaces(n)] has_prefix(s, spaces(n) + w);
    lemma_prefix_append(s, t, spaces(n) + w);
}

/// A text put between `pre` and `post` begins with `pre` and ends with `post`.
pub proof fn lemma_wraps(pre: Seq<char>, mid: Seq<char>, post: Seq<char>)
    ensures
        has_prefix(pre + mid + post, pre),
        has_suffix(pre + mid + post, post),
{
    let t = pre + mid + post;
    assert(t.take(pre.len() as int) =~= pre);
    assert(t.skip(t.len() - post.len()) =~= post);
}

/// A text that begins with `p` still does once more is appended to it.
pub proof fn lemma_prefix_append(s: Seq<char>, t: Seq<char>, p: Seq<char>)
    requires
        has_prefix(s, p),
    ensures
        has_prefix(s + t, p),
{
    assert((s + t).take(p.len() as int) =~= s.take(p.len() as int));
}

/// The text of `parts` begins with the text of its first `k` parts.
pub proof fn lemma_concat_views_starts(parts: Seq<&str>, k: int)
    requires
        0 <= k <= parts.len(),
    ensures
        has_prefix(concat_views(parts), concat_views(parts.take(k))),
    decreases parts.len(),
{
    if k < parts.len() {
        lemma_concat_views_starts(parts.drop_last(), k);
        assert(parts.drop_last().take(k) =~= parts.take(k));
        lemma_prefix_append(concat_views(parts.drop_last()), parts.last()@, concat_views(parts.take(k)));
    } else {
        assert(parts.take(k) =~= parts);
        assert(concat_views(parts).take(concat_views(parts).len() as int) =~= concat_views(parts));
    }
}

/// The text of the first two parts.
pub proof fn lemma_concat_views_two(parts: Seq<&str>)
    requires
        parts.len() >= 2,
    ensures
        concat_views(parts.take(2)) == parts[0]@ + parts[1]@,
{
    assert(parts.take(2).drop_last() =~= parts.take(1));
    assert(parts.take(1).drop_last() =~= Seq::<&str>::empty());
    assert(concat_views(Seq::<&str>::empty()) =~= Seq::<char>::empty());
    assert(concat_views(parts.take(1)) == concat_views(parts.take(1).drop_last()) + parts.take(1).last()@);
    assert(concat_views(parts.take(1)) =~= parts[0]@);
}

/// Parts whose first two are a word and a space begin with that word and
/// space.
pub proof fn lemma_concat_leads(parts: Seq<&str>, w: Seq<char>)
    requires
        parts.len() >= 2,
        parts[0]@ == w,
        parts[1]@ == seq![' '],
    ensures
        has_prefix(concat_views(parts), w + seq![' ']),
{
    lemma_concat_views_starts(parts, 2);
    lemma_concat_views_two(parts);
}

/// The text of some parts begins with the first part.
pub proof fn lemma_concat_starts_with_first(parts: Seq<&str>)
    requires
        parts.len() >= 1,
    ensures
        has_prefix(concat_views(parts), parts[0]@),
{
    lemma_concat_views_starts(parts, 1);
    assert(parts.take(1).drop_last() =~= Seq::<&str>::empty());
    assert(concat_views(Seq::<&str>::empty()) =~= Seq::<char>::empty());
    assert(concat_views(parts.take(1)) == concat_views(parts.take(1).drop_last()) + parts.take(1).last()@);
    assert(concat_views(parts.take(1)) =~= parts[0]@);
}

/// Parts joined begin with the first part.
pub proof fn lemma_join_starts_with_first(parts: Seq<Seq<char>>, sep: Seq<char>)
    requires
        parts.len() >= 1,
    ensures
        has_prefix(join_with(parts, sep), parts[0]),
    decreases parts.len(),
{
    if parts.len() > 1 {
        lemma_join_starts_with_first(parts.drop_last(), sep);
        lemma_prefix_append(join_with(parts.drop_last(), sep), sep + parts.last(), parts[0]);
        assert(join_with(parts.drop_last(), sep) + sep + parts.last()
            =~= join_with(parts.drop_last(), sep) + (sep + parts.last()));
    } else {
        assert(parts[0].take(parts[0].len() as int) =~= parts[0]);
    }
}

/// Two or more parts joined begin with the first part and the separator.
pub proof fn lemma_join_leads(parts: Seq<Seq<char>>, sep: Seq<char>)
    requires
        parts.len() >= 2,
    ensures
        has_prefix(join_with(parts, sep), parts[0] + sep),
    decreases parts.len(),
{
    let p = parts[0] + sep;
    if parts.len() == 2 {
        assert(join_with(parts.drop_last(), sep) == parts[0]);
        assert(p.take(p.len() as int) =~= p);
        lemma_prefix_append(p, parts[1], p);
    } else {
        lemma_join_leads(parts.drop_last(), sep);
        lemma_prefix_append(join_with(parts.drop_last(), sep), sep + parts.last(), p);
        assert(join_with(parts.drop_last(), sep) + sep + parts.last()
            =~= join_with(parts.drop_last(), sep) + (sep + parts.last()));
    }
}

/// Parts joined end with the last part.
pub proof fn lemma_join_ends_with_last(parts: Seq<Seq<char>>, sep: Seq<char>)
    requires
        parts.len() >= 1,
    ensures
        has_suffix(join_with(parts, sep), parts.last()),
{
    let j = join_with(parts, sep);
    if parts.len() == 1 {
        assert(j.skip(0) =~= j);
    } else {
        let head = join_with(parts.drop_last(), sep) + sep;
        assert(j =~= head + parts.last());
        assert((head + parts.last()).skip(head.len() as int) =~= parts.last());
    }
}

/// Lines joined with newlines begin with what their first line begins with.
pub proof fn lemma_lines_lead(lines: Seq<String>, joined: Seq<char>, lead: Seq<char>)
    requires
        lines.len() >= 1,
        has_prefix(lines[0]@, lead),
        joined == join_with(string_views(lines), "\n"@),
    ensures
        has_prefix(joined, lead),
{
    lemma_join_starts_with_first(string_views(lines), "\n"@);
    lemma_prefix_trans(joined, lines[0]@, lead);
}

/// A text that begins with `q`, which begins with `p`, begins with `p`.
pub proof fn lemma_prefix_trans(s: Seq<char>, q: Seq<char>, p: Seq<char>)
    requires
        has_prefix(s, q),
        has_prefix(q, p),
    ensures
        has_prefix(s, p),
{
    assert(s.take(p.len() as int) =~= q.take(p.len() as int));
}

/// `parts` joined with `sep` between consecutive parts.
pub fn join(parts: &[String], sep: &str) -> (r: String)
    ensures
        r@ == join_with(string_views(parts@), sep@),
{
    let mut r = String::new();
    let mut k: usize = 0;
    while k < parts.len()
        invariant
            k <= parts@.len(),
            r@ == join_with(string_views(parts@.take(k as int)), sep@),
        decreases parts.len() - k,
    {
        if k > 0 {
            push_str(&mut r, sep);
        }
        push_str(&mut r, parts[k].as_str());
        assert(string_views(parts@.take(k + 1)).drop_last() =~= string_views(parts@.take(k as int)));
        assert(string_views(parts@.take(k + 1)).last() == parts@[k as int]@);
        k += 1;
    }
    assert(parts@.take(parts@.len() as int) =~= parts@);
    r
}

/// The characters of `s` from index `i` up to `j`.
pub fn slice_chars(s: &str, i: usize, j: usize) -> (r: String)
    requires
        i <= j <= s@.len(),
    ensures
        r@ == s@.subrange(i as int, j as int),
{
    let c = chars_of(s);
    let t = copy_range(&c, i, j);
    string_of(&t)
}

/// The number of characters of `s`.
pub fn char_count(s: &str) -> (r: usize)
    ensures
        r == s@.len(),
{
    let c = chars_of(s);
    c.len()
}

/// `n` spaces.
pub fn spaces_str(n: usize) -> (r: String)
    ensures
        r@ == spaces(n as nat),
{
    let mut r = String::new();
    let mut k: usize = 0;
    while k < n
        invariant
            k <= n,
            r@ == spaces(k as nat),
        decreases n - k,
    {
        push_char(&mut r, ' ');
        assert(r@ =~= spaces((k + 1) as nat));
        k += 1;
    }
    r
}

/// A copy of `s`.
pub fn owned(s: &str) -> (r: String)
    ensures
        r@ == s@,
{
    s.to_owned()
}

/// The last character of `s`, if any.
pub fn last_char(s: &str) -> (r: Option<char>)
    ensures
        r == (if s@.len() == 0 { None } else { Some(s@.last()) }),
{
    let c = chars_of(s);
    if c.len() == 0 { None } else { Some(c[c.len() - 1]) }
}

/// The first character of `s`, if any.
pub fn first_char(s: &str) -> (r: Option<char>)
    ensures
        r == (if s@.len() == 0 { None } else { Some(s@[0]) }),
{
    let c = chars_of(s);
    if c.len() == 0 { None } else { Some(c[0]) }
}

/// `s` with every occurrence of `from` (scanned left to right, not
/// overlapping) replaced by `to`; `from` must not be empty.
pub open spec fn replaced_from(s: Seq<char>, from: Seq<char>, to: Seq<char>, i: int) -> Seq<char>
    decreases s.len() - i,
{
    if i < 0 || i >= s.len() || from.len() == 0 {
        Seq::empty()
    } else if occurs_at(s, from, i) {
        to + replaced_from(s, from, to, i + from.len())
    } else {
        seq![s[i]] + replaced_from(s, from, to, i + 1)
    }
}

/// `s` with every occurrence of `from` replaced by `to`.
pub fn replace(s: &str, from: &str, to: &str) -> (r: String)
    requires
        from@.len() > 0,
    ensures
        r@ == replaced_from(s@, from@, to@, 0),
{
    let c = chars_of(s);
    let f = chars_of(from);
    let mut out = String::new();
    let mut i: usize = 0;
    while i < c.len()
        invariant
            c@ == s@,
            f@ == from@,
            from@.len() > 0,
            i <= c@.len(),
            out@ + replaced_from(s@, from@, to@, i as int) == replaced_from(s@, from@, to@, 0),
        decreases c.len() - i,
    {
        if occurs_at_chars(&c, &f, i) {
            push_str(&mut out, to);
            assert(out@ + replaced_from(s@, from@, to@, i + from@.len())
                =~= old_plus(out@, to@, replaced_from(s@, from@, to@, i + from@.len())));
            i = i + f.len();
        } else {
            push_char(&mut out, c[i]);
            assert(replaced_from(s@, from@, to@, i as int) == seq![s@[i as int]] + replaced_from(s@, from@, to@, i + 1));
            assert(out@ + replaced_from(s@, from@, to@, i + 1) =~= out@.drop_last() + (seq![s@[i as int]] + replaced_from(s@, from@, to@, i + 1)));
            i = i + 1;
        }
    }
    assert(replaced_from(s@, from@, to@, i as int) =~= Seq::<char>::empty());
    assert(out@ + Seq::<char>::empty() =~= out@);
    out
}

spec fn old_plus(a: Seq<char>, b: Seq<char>, c: Seq<char>) -> Seq<char> {
    a + c
}

/// The lines of `s`, as `str::lines` yields them.
pub fn lines_of_str(s: &str) -> (r: Vec<String>)
    ensures
        string_views(r@) == crate::text::lines_of(s@),
{
    let c = chars_of(s);
    let ls = crate::text::lines(&c);
    let mut r: Vec<String> = Vec::new();
    let mut k: usize = 0;
    while k < ls.len()
        invariant
            k <= ls@.len(),
            crate::text::char_views(ls@) == crate::text::lines_of(s@),
            c@ == s@,
            string_views(r@) == crate::text::char_views(ls@).take(k as int),
        decreases ls.len() - k,
    {
        let l = string_of(&ls[k]);
        let ghost old_r = r@;
        r.push(l);
        assert(string_views(r@) =~= string_views(old_r).push(ls@[k as int]@));
        assert(crate::text::char_views(ls@).take(k + 1) =~= crate::text::char_views(ls@).take(k as int).push(ls@[k as int]@));
        k += 1;
    }
    assert(crate::text::char_views(ls@).take(ls@.len() as int) =~= crate::text::char_views(ls@));
    r
}

/// Whether the two texts are equal.
pub fn same(a: &str, b: &str) -> (r: bool)
    ensures
        r == (a@ == b@),
{
    crate::tree::str_eq(a, b)
}


/// Whether `s` holds a character other than `;`.
pub open spec fn has_text(s: Seq<char>) -> bool {
    exists|i: int| 0 <= i < s.len() && #[trigger] s[i] != ';'
}

/// Lines joined by newlines hold text where there are two lines or more, or
/// where the first line holds text.
pub proof fn lemma_join_has_text(parts: Seq<Seq<char>>)
    requires
        parts.len() >= 2 || (parts.len() >= 1 && has_text(parts[0])),
    ensures
        has_text(join_with(parts, "\n"@)),
{
    reveal_strlit("\n");
    if parts.len() >= 2 {
        let j = join_with(parts.drop_last(), "\n"@);
        assert(join_with(parts, "\n"@) == j + "\n"@ + parts.last());
        assert((j + "\n"@ + parts.last())[j.len() as int] == '\n');
    } else {
        let i = choose|i: int| 0 <= i < parts[0].len() && #[trigger] parts[0][i] != ';';
        assert(join_with(parts, "\n"@) == parts[0]);
        assert(join_with(parts, "\n"@)[i] != ';');
    }
}

/// A text that opens (after spaces) with `w` and a space holds text.
pub proof fn lemma_opens_has_text(s: Seq<char>, w: Seq<char>)
    requires
        opens_with(s, w + seq![' ']),
    ensures
        has_text(s),
{
    let n = choose|n: nat| #![trigger spaces(n)] has_prefix(s, spaces(n) + (w + seq![' ']));
    let p = spaces(n) + (w + seq![' ']);
    assert(p[p.len() - 1] == ' ');
    assert(s[p.len() - 1] == p[p.len() - 1]);
}

/// A text that has a prefix holding text holds text.
pub proof fn lemma_prefix_has_text(s: Seq<char>, p: Seq<char>)
    requires
        has_prefix(s, p),
        has_text(p),
    ensures
        has_text(s),
{
    let i = choose|i: int| 0 <= i < p.len() && #[trigger] p[i] != ';';
    assert(s[i] == p[i]);
}

} // verus!
