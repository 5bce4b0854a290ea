//! Statement-level text helpers: aligned column rendering, parenthesis
//! checks, dollar-quoted bodies and their re-indentation.

use vstd::prelude::*;
use crate::chars::{chars_of, string_of, is_whitespace, is_whitespace_char};
use crate::lexical::{append_all, append_range, collapse_whitespace, collapsed, occurs_at, same_run};
use crate::text::{spaces, push_spaces, byte_len, byte_len_of, lemma_byte_len_bound, lines, lines_of,
    char_views, small, char_width};

verus! {

/// `s` padded with spaces on the right to `width` characters, as `{:width$}` writes it.
pub open spec fn pad_right(s: Seq<char>, width: nat) -> Seq<char> {
    if s.len() < width {
        s + spaces((width - s.len()) as nat)
    } else {
        s
    }
}

/// Append `s` padded to `width` characters.
fn push_padded(out: &mut Vec<char>, s: &[char], width: usize)
    ensures
        final(out)@ == old(out)@ + pad_right(s@, width as nat),
{
    append_all(out, s);
    if s.len() < width {
        push_spaces(out, width - s.len());
    }
}

/// What `render_aligned_column` writes.
pub open spec fn aligned_column(
    name: Seq<char>,
    typename: Seq<char>,
    constraints: Seq<char>,
    max_name_len: nat,
    max_type_len: nat,
) -> Seq<char> {
    if constraints.len() == 0 {
        pad_right(name, max_name_len) + seq![' '] + typename
    } else {
        pad_right(name, max_name_len) + seq![' '] + pad_right(typename, max_type_len) + seq![' '] + constraints
    }
}

/// Render one river-aligned column: the name padded to `max_name_len`, then
/// the type padded to `max_type_len` only when `constraints` follow it, so a
/// column with no constraints emits no trailing whitespace.
pub fn render_aligned_column(
    name: &str,
    typename: &str,
    constraints: &str,
    max_name_len: usize,
    max_type_len: usize,
) -> (r: String)
    ensures
        r@ == aligned_column(name@, typename@, constraints@, max_name_len as nat, max_type_len as nat),
{
    let nc = chars_of(name);
    let tc = chars_of(typename);
    let cc = chars_of(constraints);
    let mut out: Vec<char> = Vec::new();
    push_padded(&mut out, &nc, max_name_len);
    out.push(' ');
    if cc.len() == 0 {
        append_all(&mut out, &tc);
    } else {
        push_padded(&mut out, &tc, max_type_len);
        out.push(' ');
        append_all(&mut out, &cc);
    }
    string_of(&out)
}

/// Index of the first non-whitespace character of `s` at or after `i`.
pub open spec fn first_non_ws_from(s: Seq<char>, i: int) -> int
    decreases s.len() - i,
{
    if 0 <= i < s.len() && is_whitespace_char(s[i]) {
        first_non_ws_from(s, i + 1)
    } else {
        i
    }
}

/// Index just past the last non-whitespace character of `s[..n]`.
pub open spec fn last_non_ws_end(s: Seq<char>, n: int) -> int
    decreases n,
{
    if n <= 0 {
        0
    } else if is_whitespace_char(s[n - 1]) {
        last_non_ws_end(s, n - 1)
    } else {
        n
    }
}

/// `s` without leading and trailing whitespace, as `str::trim` gives it.
pub open spec fn trim_of(s: Seq<char>) -> Seq<char> {
    let a = first_non_ws_from(s, 0);
    let b = last_non_ws_end(s, s.len() as int);
    if a < b { s.subrange(a, b) } else { Seq::empty() }
}

pub proof fn lemma_first_non_ws_bounds(s: Seq<char>, i: int)
    requires
        0 <= i <= s.len(),
    ensures
        i <= first_non_ws_from(s, i) <= s.len(),
        first_non_ws_from(s, i) < s.len() ==> !is_whitespace_char(s[first_non_ws_from(s, i)]),
        forall|k: int| i <= k < first_non_ws_from(s, i) ==> is_whitespace_char(#[trigger] s[k]),
    decreases s.len() - i,
{
    if i < s.len() && is_whitespace_char(s[i]) {
        lemma_first_non_ws_bounds(s, i + 1);
    }
}

pub proof fn lemma_last_non_ws_bounds(s: Seq<char>, n: int)
    requires
        n <= s.len(),
    ensures
        0 <= last_non_ws_end(s, n) <= if n < 0 { 0 } else { n },
        last_non_ws_end(s, n) > 0 ==> !is_whitespace_char(s[last_non_ws_end(s, n) - 1]),
    decreases n,
{
    if n > 0 && is_whitespace_char(s[n - 1]) {
        lemma_last_non_ws_bounds(s, n - 1);
    }
}

/// The characters of `chars` without leading and trailing whitespace.
pub fn trim_chars(chars: &[char]) -> (r: Vec<char>)
    ensures
        r@ == trim_of(chars@),
{
    let len = chars.len();
    let mut a: usize = 0;
    while a < len && is_whitespace(chars[a])
        invariant
            a <= len,
            len == chars@.len(),
            first_non_ws_from(chars@, a as int) == first_non_ws_from(chars@, 0),
        decreases len - a,
    {
        a += 1;
    }
    let mut b: usize = len;
    while b > 0 && is_whitespace(chars[b - 1])
        invariant
            b <= len,
            len == chars@.len(),
            last_non_ws_end(chars@, b as int) == last_non_ws_end(chars@, len as int),
        decreases b,
    {
        b -= 1;
    }
    let mut r: Vec<char> = Vec::new();
    if a < b {
        append_range(&mut r, chars, a, b);
    }
    r
}

/// Whether `t` from `i` on closes its parentheses exactly at its last
/// character, quotes toggling string state.
pub open spec fn parens_close_at_end(t: Seq<char>, i: int, depth: int, in_str: bool) -> bool
    decreases t.len() - i,
{
    if i < 0 || i >= t.len() {
        depth == 0
    } else if t[i] == '\'' {
        parens_close_at_end(t, i + 1, depth, !in_str)
    } else if t[i] == '(' && !in_str {
        parens_close_at_end(t, i + 1, depth + 1, in_str)
    } else if t[i] == ')' && !in_str {
        if depth - 1 == 0 && i != t.len() - 1 {
            false
        } else {
            parens_close_at_end(t, i + 1, depth - 1, in_str)
        }
    } else {
        parens_close_at_end(t, i + 1, depth, in_str)
    }
}

/// Whether trimmed `s` is one expression enclosed in one outer pair of parentheses.
pub open spec fn wrapped_in_parens(s: Seq<char>) -> bool {
    let t = trim_of(s);
    t.len() > 0 && t[0] == '(' && t.last() == ')' && parens_close_at_end(t, 0, 0, false)
}

/// Whether `s` is a single expression already enclosed in one outer pair of
/// parentheses, e.g. `(a AND b)`, but not `(a) AND (b)`. Parentheses inside
/// string literals are ignored.
pub fn is_wrapped_in_parens(s: &str) -> (r: bool)
    ensures
        r == wrapped_in_parens(s@),
{
    let all = chars_of(s);
    let t = trim_chars(&all);
    let len = t.len();
    if len == 0 || t[0] != '(' || t[len - 1] != ')' {
        return false;
    }
    let mut depth: usize = 0;
    let mut in_str = false;
    let mut i: usize = 0;
    while i < len
        invariant
            i <= len,
            len == t@.len(),
            t@ == trim_of(s@),
            t@[0] == '(',
            1 <= i < len ==> depth >= 1,
            i == 0 ==> depth == 0 && !in_str,
            depth <= i,
            parens_close_at_end(t@, i as int, depth as int, in_str) == parens_close_at_end(t@, 0, 0, false),
        decreases len - i,
    {
        let b = t[i];
        if b == '\'' {
            in_str = !in_str;
        } else if b == '(' && !in_str {
            depth += 1;
        } else if b == ')' && !in_str {
            depth -= 1;
            if depth == 0 && i != len - 1 {
                return false;
            }
        }
        i += 1;
    }
    depth == 0
}

/// Index of the first `c` in `s` at or after `i`, or the end of `s`.
pub open spec fn find_char_from(s: Seq<char>, c: char, i: int) -> int
    decreases s.len() - i,
{
    if 0 <= i < s.len() && s[i] != c {
        find_char_from(s, c, i + 1)
    } else if i < s.len() {
        i
    } else {
        s.len() as int
    }
}

/// The last position at or before `k` where `tag` occurs in `s`.
pub open spec fn last_occurrence_from(s: Seq<char>, tag: Seq<char>, k: int) -> Option<int>
    decreases k + 1,
{
    if k < 0 {
        None
    } else if occurs_at(s, tag, k) {
        Some(k)
    } else {
        last_occurrence_from(s, tag, k - 1)
    }
}

/// What `parse_dollar_quoted` finds in `s`: its opening tag and its body.
pub open spec fn dollar_quoted_parts(s: Seq<char>) -> Option<(Seq<char>, Seq<char>)> {
    if s.len() == 0 || s[0] != '$' {
        None
    } else {
        let p = find_char_from(s, '$', 1);
        if p >= s.len() {
            None
        } else {
            let tag = s.subrange(0, p + 1);
            let rest = s.subrange(p + 1, s.len() as int);
            match last_occurrence_from(rest, tag, rest.len() - tag.len()) {
                Some(q) => Some((tag, rest.subrange(0, q))),
                None => None,
            }
        }
    }
}

/// Parse a dollar-quoted string into its tag and body: `$$ body $$` gives
/// `("$$", " body ")`, `$fn$ body $fn$` gives `("$fn$", " body ")`.
pub fn parse_dollar_quoted(s: &str) -> (r: Option<(String, String)>)
    requires
        s@.len() < usize::MAX,
    ensures
        match r {
            Some((tag, body)) => dollar_quoted_parts(s@) == Some((tag@, body@)),
            None => dollar_quoted_parts(s@) is None,
        },
{
    let c = chars_of(s);
    let len = c.len();
    if len == 0 || c[0] != '$' {
        return None;
    }
    let mut p: usize = 1;
    while p < len && c[p] != '$'
        invariant
            1 <= p <= len,
            len == c@.len(),
            find_char_from(c@, '$', p as int) == find_char_from(c@, '$', 1),
        decreases len - p,
    {
        p += 1;
    }
    if p >= len {
        return None;
    }
    let tag = crate::lexical::copy_range(&c, 0, p + 1);
    let rest = crate::lexical::copy_range(&c, p + 1, len);
    let n = tag.len();
    let rlen = rest.len();
    if n > rlen {
        assert(last_occurrence_from(rest@, tag@, rest@.len() - tag@.len()) is None);
        return None;
    }
    // Search for the last occurrence of the tag in the rest.
    let mut both: Vec<char> = Vec::new();
    append_all(&mut both, &tag);
    append_all(&mut both, &rest);
    assert(both@.subrange(0, n as int) =~= tag@);
    let mut k: usize = rlen - n + 1;
    while k > 0
        invariant
            k <= rlen - n + 1,
            n <= rlen,
            n == tag@.len(),
            rlen == rest@.len(),
            both@ == tag@ + rest@,
            both@.len() < usize::MAX,
            c@ == s@,
            len == c@.len(),
            0 < p < len,
            c@[0] == '$',
            find_char_from(c@, '$', 1) == p,
            tag@ == c@.subrange(0, p + 1),
            rest@ == c@.subrange(p + 1, len as int),
            last_occurrence_from(rest@, tag@, k - 1) == last_occurrence_from(rest@, tag@, rlen - n),
        decreases k,
    {
        let q = k - 1;
        if same_run(&both, 0, n + q, n) {
            assert(both@.subrange(n + q, n + q + n) =~= rest@.subrange(q as int, q + n));
            assert(both@.subrange(0, n as int) =~= tag@);
            assert(occurs_at(rest@, tag@, q as int));
            assert(last_occurrence_from(rest@, tag@, q as int) == Some(q as int));
            let body = crate::lexical::copy_range(&rest, 0, q);
            return Some((string_of(&tag), string_of(&body)));
        }
        assert(both@.subrange(n + q, n + q + n) =~= rest@.subrange(q as int, q + n));
        assert(both@.subrange(0, n as int) =~= tag@);
        k -= 1;
    }
    None
}

/// Collapse whitespace, keeping string constants, quoted identifiers and
/// comments verbatim, and the newlines that carry meaning.
pub fn normalize_whitespace(s: &str) -> (r: String)
    requires
        s@.len() < usize::MAX,
    ensures
        r@ == collapsed(s@),
{
    collapse_whitespace(s)
}

/// Whether a line holds only whitespace.
pub open spec fn blank(l: Seq<char>) -> bool {
    trim_of(l).len() == 0
}

/// Index of the first non-blank line at or after `k`, or `ls.len()`.
pub open spec fn first_nonblank_from(ls: Seq<Seq<char>>, k: int) -> int
    decreases ls.len() - k,
{
    if 0 <= k < ls.len() && blank(ls[k]) {
        first_nonblank_from(ls, k + 1)
    } else if k < ls.len() {
        k
    } else {
        ls.len() as int
    }
}

/// Index just past the last non-blank line of `ls[..n]`, or 0.
pub open spec fn last_nonblank_end(ls: Seq<Seq<char>>, n: int) -> int
    decreases n,
{
    if n <= 0 {
        0
    } else if blank(ls[n - 1]) {
        last_nonblank_end(ls, n - 1)
    } else {
        n
    }
}

/// Bytes of leading whitespace on a line.
pub open spec fn lead_bytes(l: Seq<char>) -> nat {
    byte_len(l.take(first_non_ws_from(l, 0)))
}

/// The smallest leading-whitespace width among the non-blank lines from `k` on.
pub open spec fn min_lead_from(body: Seq<Seq<char>>, k: int, acc: Option<nat>) -> Option<nat>
    decreases body.len() - k,
{
    if k < 0 || k >= body.len() {
        acc
    } else if blank(body[k]) {
        min_lead_from(body, k + 1, acc)
    } else {
        let v = lead_bytes(body[k]);
        min_lead_from(body, k + 1, match acc {
            None => Some(v),
            Some(a) => Some(if v < a { v } else { a }),
        })
    }
}

/// The least character count whose UTF-8 prefix of `l` reaches `m` bytes.
pub open spec fn char_at_byte_from(l: Seq<char>, m: nat, c: int) -> int
    decreases l.len() - c,
{
    if c < 0 || c >= l.len() || byte_len(l.take(c)) >= m {
        c
    } else {
        char_at_byte_from(l, m, c + 1)
    }
}

/// The non-blank lines of `body` and what they start with.
pub open spec fn reindent_lines(body: Seq<Seq<char>>, m: nat, indent: Seq<char>) -> Seq<Seq<char>> {
    body.map_values(|l: Seq<char>| if blank(l) { Seq::empty() } else { indent + l.skip(char_at_byte_from(l, m, 0)) })
}

/// The body lines that `reindent_body` keeps: from the first non-blank line
/// to the last one; none where every line is blank.
pub open spec fn body_lines(s: Seq<char>) -> Seq<Seq<char>> {
    let ls = lines_of(s);
    let f = first_nonblank_from(ls, 0);
    if f < ls.len() {
        ls.subrange(f, last_nonblank_end(ls, ls.len() as int))
    } else {
        Seq::empty()
    }
}

/// The common indentation that `reindent_body` removes.
pub open spec fn common_lead(s: Seq<char>) -> nat {
    match min_lead_from(body_lines(s), 0, None) {
        Some(m) => m,
        None => 0,
    }
}

/// Whether cutting every non-blank body line at the common indentation falls
/// on a character boundary (else `str` slicing would panic).
pub open spec fn reindent_cuttable(s: Seq<char>) -> bool {
    forall|k: int| 0 <= k < body_lines(s).len() && !blank(#[trigger] body_lines(s)[k])
        ==> byte_len(body_lines(s)[k].take(char_at_byte_from(body_lines(s)[k], common_lead(s), 0))) == common_lead(s)
}

/// What `reindent_body` writes.
pub open spec fn reindented(s: Seq<char>, indent: Seq<char>) -> Seq<char> {
    if body_lines(s).len() == 0 {
        Seq::empty()
    } else {
        crate::expr::join_with(reindent_lines(body_lines(s), common_lead(s), indent), seq!['\n'])
    }
}

/// Whether `l` holds only whitespace.
pub fn is_blank(l: &[char]) -> (r: bool)
    ensures
        r == blank(l@),
{
    let t = trim_chars(l);
    t.len() == 0
}

pub proof fn lemma_first_nonblank(ls: Seq<Seq<char>>, k: int)
    requires
        0 <= k <= ls.len(),
    ensures
        k <= first_nonblank_from(ls, k) <= ls.len(),
        first_nonblank_from(ls, k) < ls.len() ==> !blank(ls[first_nonblank_from(ls, k)]),
    decreases ls.len() - k,
{
    if k < ls.len() && blank(ls[k]) {
        lemma_first_nonblank(ls, k + 1);
    }
}

pub proof fn lemma_last_nonblank(ls: Seq<Seq<char>>, n: int, f: int)
    requires
        0 <= f < n <= ls.len(),
        !blank(ls[f]),
    ensures
        f < last_nonblank_end(ls, n) <= n,
    decreases n,
{
    if n - 1 > f && blank(ls[n - 1]) {
        lemma_last_nonblank(ls, n - 1, f);
    }
}

pub proof fn lemma_last_nonblank_bound(ls: Seq<Seq<char>>, n: int)
    requires
        n <= ls.len(),
    ensures
        0 <= last_nonblank_end(ls, n) <= if n < 0 { 0 } else { n },
    decreases n,
{
    if n > 0 && blank(ls[n - 1]) {
        lemma_last_nonblank_bound(ls, n - 1);
    }
}

pub proof fn lemma_lines_short(s: Seq<char>, i: int)
    requires
        0 <= i,
    ensures
        forall|k: int| 0 <= k < crate::text::lines_from(s, i).len()
            ==> #[trigger] crate::text::lines_from(s, i)[k].len() <= s.len(),
    decreases s.len() - i,
{
    if i < s.len() {
        crate::lexical::lemma_newline_bounds(s, i);
        let e = crate::lexical::newline_from(s, i);
        if e < s.len() {
            lemma_lines_short(s, e + 1);
            let rest = crate::text::lines_from(s, e + 1);
            let all = crate::text::lines_from(s, i);
            assert forall|k: int| 0 <= k < all.len() implies #[trigger] all[k].len() <= s.len() by {
                if k > 0 {
                    assert(all[k] == rest[k - 1]);
                }
            }
        }
    }
}

/// Bytes of leading whitespace on `l`.
fn lead_bytes_of(l: &[char]) -> (r: usize)
    requires
        small(l@),
    ensures
        r == lead_bytes(l@),
{
    let mut a: usize = 0;
    while a < l.len() && is_whitespace(l[a])
        invariant
            a <= l@.len(),
            first_non_ws_from(l@, a as int) == first_non_ws_from(l@, 0),
        decreases l.len() - a,
    {
        a += 1;
    }
    let pre = crate::lexical::copy_range(l, 0, a);
    assert(pre@ =~= l@.take(a as int));
    byte_len_of(&pre)
}

/// Re-indent a multi-line body (e.g. a dollar-quoted function body) so that
/// each non-empty line starts with `indent`: leading and trailing blank lines
/// go, and the common leading whitespace of the lines is removed first.
/// Gives nothing where some line's common indentation does not end on a
/// character boundary.
pub fn reindent_body(s: &str, indent: &str) -> (r: Option<String>)
    requires
        small(s@),
    ensures
        match r {
            Some(x) => reindent_cuttable(s@) && x@ == reindented(s@, indent@),
            None => !reindent_cuttable(s@),
        },
{
    let c = chars_of(s);
    let ls = lines(&c);
    let ghost lv = char_views(ls@);
    assert(lv == lines_of(s@));
    proof { lemma_lines_short(s@, 0); }
    let n = ls.len();
    let mut f: usize = 0;
    while f < n && is_blank(&ls[f])
        invariant
            f <= n,
            n == ls@.len(),
            lv == char_views(ls@),
            first_nonblank_from(lv, f as int) == first_nonblank_from(lv, 0),
        decreases n - f,
    {
        assert(lv[f as int] == ls@[f as int]@);
        f += 1;
    }
    let mut e: usize = n;
    while e > 0 && is_blank(&ls[e - 1])
        invariant
            e <= n,
            n == ls@.len(),
            lv == char_views(ls@),
            last_nonblank_end(lv, e as int) == last_nonblank_end(lv, n as int),
        decreases e,
    {
        assert(lv[e - 1] == ls@[e - 1]@);
        e -= 1;
    }
    proof {
        lemma_first_nonblank(lv, 0);
        lemma_last_nonblank_bound(lv, n as int);
        if f < n {
            lemma_last_nonblank(lv, n as int, f as int);
        }
    }
    let start = f;
    let end = if f < n { e } else { f };
    let ghost body = lv.subrange(start as int, end as int);
    assert(body == body_lines(s@));
    let mut out: Vec<char> = Vec::new();
    if start >= end {
        assert(body_lines(s@).len() == 0);
        return Some(string_of(&out));
    }
    // The common indentation.
    let mut acc: Option<usize> = None;
    let mut k = start;
    while k < end
        invariant
            start <= k <= end <= n,
            n == ls@.len(),
            lv == char_views(ls@),
            body == lv.subrange(start as int, end as int),
            small(s@),
            forall|x: int| 0 <= x < lv.len() ==> #[trigger] lv[x].len() <= s@.len(),
            acc matches Some(a) ==> a <= 4 * s@.len(),
            min_lead_from(body, k - start, match acc { Some(a) => Some(a as nat), None => None })
                == min_lead_from(body, 0, None),
        decreases end - k,
    {
        assert(body[k - start] == lv[k as int]);
        assert(lv[k as int] == ls@[k as int]@);
        if !is_blank(&ls[k]) {
            proof {
                lemma_byte_len_bound(ls@[k as int]@.take(first_non_ws_from(ls@[k as int]@, 0)));
                lemma_first_non_ws_bounds(ls@[k as int]@, 0);
            }
            let v = lead_bytes_of(&ls[k]);
            acc = match acc {
                None => Some(v),
                Some(a) => Some(if v < a { v } else { a }),
            };
        }
        k += 1;
    }
    let m = match acc {
        Some(a) => a,
        None => 0,
    };
    assert(m == common_lead(s@));
    let ghost outs = reindent_lines(body, m as nat, indent@);
    let ic = chars_of(indent);
    let mut k = start;
    while k < end
        invariant
            start <= k <= end <= n,
            start < end,
            n == ls@.len(),
            lv == char_views(ls@),
            body == lv.subrange(start as int, end as int),
            outs == reindent_lines(body, m as nat, indent@),
            ic@ == indent@,
            small(s@),
            forall|x: int| 0 <= x < lv.len() ==> #[trigger] lv[x].len() <= s@.len(),
            k == start ==> out@.len() == 0,
            k > start ==> out@ == crate::expr::join_with(outs.take(k - start), seq!['\n']),
            m == common_lead(s@),
            body == body_lines(s@),
            forall|j: int| 0 <= j < k - start && !blank(#[trigger] body[j])
                ==> byte_len(body[j].take(char_at_byte_from(body[j], m as nat, 0))) == m,
        decreases end - k,
    {
        assert(body[k - start] == lv[k as int]);
        assert(lv[k as int] == ls@[k as int]@);
        let ghost before = out@;
        if k > start {
            out.push('\n');
        }
        let ghost mid = out@;
        let l = &ls[k];
        if !is_blank(l) {
            append_all(&mut out, &ic);
            let mut cut: usize = 0;
            let mut bytes: usize = 0;
            while cut < l.len() && bytes < m
                invariant
                    cut <= l@.len(),
                    l@.len() <= s@.len(),
                    small(s@),
                    bytes == byte_len(l@.take(cut as int)),
                    char_at_byte_from(l@, m as nat, cut as int) == char_at_byte_from(l@, m as nat, 0),
                decreases l.len() - cut,
            {
                proof {
                    lemma_byte_len_bound(l@.take(cut as int));
                    assert(l@.take(cut + 1).drop_last() =~= l@.take(cut as int));
                }
                bytes = bytes + char_width(l[cut]);
                cut += 1;
            }
            if bytes != m {
                proof {
                    assert(!blank(body[k - start]));
                }
                return None;
            }
            append_range(&mut out, l, cut, l.len());
            assert(l@.subrange(cut as int, l@.len() as int) =~= l@.skip(cut as int));
        }
        assert(outs[k - start] == out@.subrange(mid.len() as int, out@.len() as int)) by {
            assert(out@ =~= mid + out@.subrange(mid.len() as int, out@.len() as int));
        }
        proof {
            if k > start {
                assert(outs.take(k + 1 - start).drop_last() =~= outs.take(k - start));
                assert(out@ =~= before + seq!['\n'] + outs[k - start]);
            } else {
                assert(outs.take(1) =~= seq![outs[0]]);
                assert(out@ =~= outs[0]);
            }
        }
        k += 1;
    }
    assert(outs.take(end - start) =~= outs);
    Some(string_of(&out))
}

} // verus!
