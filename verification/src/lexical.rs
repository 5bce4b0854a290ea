//! A small PostgreSQL-aware scanner over SQL text.
//!
//! Passes that rewrite whitespace by scanning text must not touch the inside
//! of a string literal, whose spacing is data, nor the inside of a comment,
//! whose terminating newline is load-bearing. This module gives them one
//! shared notion of where such a span starts and ends.

use vstd::prelude::*;
use crate::chars::{is_alphanumeric, is_alphanumeric_char, is_ascii_digit, is_ascii_digit_char,
    is_whitespace, is_whitespace_char, chars_of, string_of};

verus! {

/// What a scanned span is.
#[derive(Debug, Clone, Copy, PartialEq, Eq, Structural)]
pub enum Span {
    /// A string constant: `'...'`, `E'...'` or `$tag$...$tag$`.
    Literal,
    /// A `-- ...` comment, ending before its terminating newline.
    LineComment,
    /// A `/* ... */` comment.
    BlockComment,
    /// A quoted identifier, `"..."`.
    Identifier,
}

// ---------------------------------------------------------------------------
// Specification of the scanner
// ---------------------------------------------------------------------------

/// Whether `s[i]` continues the unquoted identifier before it.
pub open spec fn continues_identifier_at(s: Seq<char>, i: int) -> bool {
    i > 0 && (is_alphanumeric_char(s[i - 1]) || s[i - 1] == '_' || s[i - 1] == '$')
}

/// End of a single-quoted constant whose body starts at `i`: a doubled quote
/// is an escaped quote, and with `escapes` a backslash escapes the next
/// character. Unterminated, it ends at the end of `s`.
pub open spec fn quoted_end_from(s: Seq<char>, i: int, escapes: bool) -> int
    decreases s.len() + 1 - i,
{
    if i < 0 || i >= s.len() {
        s.len() as int
    } else if s[i] == '\\' && escapes {
        quoted_end_from(s, i + 2, escapes)
    } else if s[i] == '\'' && i + 1 < s.len() && s[i + 1] == '\'' {
        quoted_end_from(s, i + 2, escapes)
    } else if s[i] == '\'' {
        i + 1
    } else {
        quoted_end_from(s, i + 1, escapes)
    }
}

/// End of a quoted identifier whose body starts at `i`.
pub open spec fn identifier_end_from(s: Seq<char>, i: int) -> int
    decreases s.len() + 1 - i,
{
    if i < 0 || i >= s.len() {
        s.len() as int
    } else if s[i] == '"' && i + 1 < s.len() && s[i + 1] == '"' {
        identifier_end_from(s, i + 2)
    } else if s[i] == '"' {
        i + 1
    } else {
        identifier_end_from(s, i + 1)
    }
}

/// A character that may appear in a dollar-quote tag.
pub open spec fn is_tag_char(c: char) -> bool {
    is_alphanumeric_char(c) || c == '_'
}

/// First index at or after `j` that holds no tag character.
pub open spec fn tag_end_from(s: Seq<char>, j: int) -> int
    decreases s.len() - j,
{
    if 0 <= j < s.len() && is_tag_char(s[j]) {
        tag_end_from(s, j + 1)
    } else {
        j
    }
}

/// Whether `tag` occurs in `s` at `k`.
pub open spec fn occurs_at(s: Seq<char>, tag: Seq<char>, k: int) -> bool {
    0 <= k && k + tag.len() <= s.len() && s.subrange(k, k + tag.len()) == tag
}

/// Index just past the first occurrence of `tag` at or after `k`, or the end of `s`.
pub open spec fn tag_close_from(s: Seq<char>, tag: Seq<char>, k: int) -> int
    decreases s.len() + 1 - k,
{
    if k < 0 || k + tag.len() > s.len() {
        s.len() as int
    } else if occurs_at(s, tag, k) {
        k + tag.len()
    } else {
        tag_close_from(s, tag, k + 1)
    }
}

/// End of a dollar-quoted constant opening at `s[i] == '$'`, or `None` when
/// the `$` opens none (a positional parameter, say).
pub open spec fn dollar_end_at(s: Seq<char>, i: int) -> Option<int> {
    let j = tag_end_from(s, i + 1);
    if j >= s.len() || s[j] != '$' || (i + 1 < s.len() && is_ascii_digit_char(s[i + 1])) {
        None
    } else {
        Some(tag_close_from(s, s.subrange(i, j + 1), j + 1))
    }
}

/// First index at or after `i` that holds a newline, or the end of `s`.
pub open spec fn newline_from(s: Seq<char>, i: int) -> int
    decreases s.len() - i,
{
    if 0 <= i < s.len() && s[i] != '\n' {
        newline_from(s, i + 1)
    } else if i < s.len() {
        i
    } else {
        s.len() as int
    }
}

/// End of a block comment whose body starts at `j`.
pub open spec fn block_end_from(s: Seq<char>, j: int) -> int
    decreases s.len() - j,
{
    if 0 <= j && j + 1 < s.len() && !(s[j] == '*' && s[j + 1] == '/') {
        block_end_from(s, j + 1)
    } else if j + 2 < s.len() {
        j + 2
    } else {
        s.len() as int
    }
}

/// The span that starts at `s[i]`, with the index just past its end.
pub open spec fn scan_at(s: Seq<char>, i: int) -> Option<(Span, int)> {
    if i < 0 || i >= s.len() {
        None
    } else if s[i] == '\'' {
        Some((Span::Literal, quoted_end_from(s, i + 1, false)))
    } else if s[i] == '"' {
        Some((Span::Identifier, identifier_end_from(s, i + 1)))
    } else if (s[i] == 'E' || s[i] == 'e') && i + 1 < s.len() && s[i + 1] == '\''
        && !continues_identifier_at(s, i) {
        Some((Span::Literal, quoted_end_from(s, i + 2, true)))
    } else if s[i] == '$' && !continues_identifier_at(s, i) {
        match dollar_end_at(s, i) {
            Some(end) => Some((Span::Literal, end)),
            None => None,
        }
    } else if s[i] == '-' && i + 1 < s.len() && s[i + 1] == '-' {
        Some((Span::LineComment, newline_from(s, i)))
    } else if s[i] == '/' && i + 1 < s.len() && s[i + 1] == '*' {
        Some((Span::BlockComment, block_end_from(s, i + 2)))
    } else {
        None
    }
}

// ---------------------------------------------------------------------------
// Facts about the scanner
// ---------------------------------------------------------------------------

pub proof fn lemma_quoted_end_bounds(s: Seq<char>, i: int, escapes: bool)
    requires
        0 <= i,
    ensures
        i <= s.len() ==> i <= quoted_end_from(s, i, escapes),
        quoted_end_from(s, i, escapes) <= s.len(),
    decreases s.len() + 1 - i,
{
    if i < s.len() {
        if s[i] == '\\' && escapes {
            lemma_quoted_end_bounds(s, i + 2, escapes);
        } else if s[i] == '\'' && i + 1 < s.len() && s[i + 1] == '\'' {
            lemma_quoted_end_bounds(s, i + 2, escapes);
        } else if s[i] != '\'' {
            lemma_quoted_end_bounds(s, i + 1, escapes);
        }
    }
}

pub proof fn lemma_identifier_end_bounds(s: Seq<char>, i: int)
    requires
        0 <= i,
    ensures
        i <= s.len() ==> i <= identifier_end_from(s, i),
        identifier_end_from(s, i) <= s.len(),
    decreases s.len() + 1 - i,
{
    if i < s.len() {
        if s[i] == '"' && i + 1 < s.len() && s[i + 1] == '"' {
            lemma_identifier_end_bounds(s, i + 2);
        } else if s[i] != '"' {
            lemma_identifier_end_bounds(s, i + 1);
        }
    }
}

pub proof fn lemma_tag_end_bounds(s: Seq<char>, j: int)
    requires
        0 <= j <= s.len(),
    ensures
        j <= tag_end_from(s, j) <= s.len(),
        forall|k: int| j <= k < tag_end_from(s, j) ==> is_tag_char(#[trigger] s[k]),
    decreases s.len() - j,
{
    if j < s.len() && is_tag_char(s[j]) {
        lemma_tag_end_bounds(s, j + 1);
    }
}

pub proof fn lemma_tag_close_bounds(s: Seq<char>, tag: Seq<char>, k: int)
    requires
        0 <= k <= s.len(),
        tag.len() > 0,
    ensures
        k <= tag_close_from(s, tag, k) <= s.len(),
    decreases s.len() + 1 - k,
{
    if k + tag.len() <= s.len() && !occurs_at(s, tag, k) {
        lemma_tag_close_bounds(s, tag, k + 1);
    }
}

pub proof fn lemma_newline_bounds(s: Seq<char>, i: int)
    requires
        0 <= i <= s.len(),
    ensures
        i <= newline_from(s, i) <= s.len(),
        i < s.len() && s[i] != '\n' ==> i < newline_from(s, i),
        forall|k: int| i <= k < newline_from(s, i) ==> #[trigger] s[k] != '\n',
    decreases s.len() - i,
{
    if i < s.len() && s[i] != '\n' {
        lemma_newline_bounds(s, i + 1);
    }
}

pub proof fn lemma_block_end_bounds(s: Seq<char>, j: int)
    requires
        0 <= j <= s.len(),
    ensures
        j + 2 <= block_end_from(s, j) || block_end_from(s, j) == s.len(),
        block_end_from(s, j) <= s.len(),
    decreases s.len() - j,
{
    if j + 1 < s.len() && !(s[j] == '*' && s[j + 1] == '/') {
        lemma_block_end_bounds(s, j + 1);
    }
}

/// A span found at `i` ends after `i` and no later than the end of the text.
pub proof fn lemma_scan_advances(s: Seq<char>, i: int)
    ensures
        scan_at(s, i) matches Some((_, end)) ==> i < end <= s.len(),
{
    if 0 <= i < s.len() {
        lemma_quoted_end_bounds(s, i + 1, false);
        lemma_quoted_end_bounds(s, i + 2, true);
        lemma_identifier_end_bounds(s, i + 1);
        lemma_newline_bounds(s, i);
        if i + 2 <= s.len() {
            lemma_block_end_bounds(s, i + 2);
        }
        let j = tag_end_from(s, i + 1);
        lemma_tag_end_bounds(s, i + 1);
        if j < s.len() {
            lemma_tag_close_bounds(s, s.subrange(i, j + 1), j + 1);
        }
    }
}

// ---------------------------------------------------------------------------
// The scanner
// ---------------------------------------------------------------------------

/// What an exec scan result says, in terms of `scan_at`.
pub open spec fn scan_result_is(r: Option<(Span, usize)>, s: Seq<char>, i: int) -> bool {
    match r {
        Some((span, end)) => scan_at(s, i) == Some((span, end as int)),
        None => scan_at(s, i) is None,
    }
}

/// The span starting at `chars[i]`, with the index just past its end.
///
/// Returns `None` when no literal or comment starts there. An unterminated
/// span ends at the end of the input.
pub fn scan(chars: &[char], i: usize) -> (r: Option<(Span, usize)>)
    requires
        chars@.len() < usize::MAX,
    ensures
        scan_result_is(r, chars@, i as int),
        r matches Some((_, end)) ==> i < end <= chars@.len(),
{
    proof { lemma_scan_advances(chars@, i as int); }
    let len = chars.len();
    if i >= len {
        return None;
    }
    let c = chars[i];
    if c == '\'' {
        Some((Span::Literal, quoted_end(chars, i + 1, false)))
    } else if c == '"' {
        Some((Span::Identifier, identifier_end(chars, i + 1)))
    } else if (c == 'E' || c == 'e') && i + 1 < len && chars[i + 1] == '\''
        && !continues_identifier(chars, i) {
        Some((Span::Literal, quoted_end(chars, i + 2, true)))
    } else if c == '$' && !continues_identifier(chars, i) {
        match dollar_end(chars, i) {
            Some(end) => Some((Span::Literal, end)),
            None => None,
        }
    } else if c == '-' && i + 1 < len && chars[i + 1] == '-' {
        let mut k = i;
        while k < len && chars[k] != '\n'
            invariant
                i <= k <= len,
                len == chars@.len(),
                newline_from(chars@, k as int) == newline_from(chars@, i as int),
            decreases len - k,
        {
            k += 1;
        }
        Some((Span::LineComment, k))
    } else if c == '/' && i + 1 < len && chars[i + 1] == '*' {
        let mut j = i + 2;
        while j + 1 < len && !(chars[j] == '*' && chars[j + 1] == '/')
            invariant
                i + 2 <= j <= len,
                len == chars@.len(),
                len < usize::MAX,
                block_end_from(chars@, j as int) == block_end_from(chars@, i + 2),
            decreases len - j,
        {
            j += 1;
        }
        if len > 2 && j < len - 2 {
            Some((Span::BlockComment, j + 2))
        } else {
            Some((Span::BlockComment, len))
        }
    } else {
        None
    }
}

/// Whether `chars[i]` continues the identifier before it, in which case no
/// literal can start there.
pub fn continues_identifier(chars: &[char], i: usize) -> (r: bool)
    requires
        i <= chars@.len(),
    ensures
        r == continues_identifier_at(chars@, i as int),
{
    i > 0 && (is_alphanumeric(chars[i - 1]) || chars[i - 1] == '_' || chars[i - 1] == '$')
}

/// End of a single-quoted constant whose body starts at `i`.
pub fn quoted_end(chars: &[char], i: usize, escapes: bool) -> (r: usize)
    requires
        i <= chars@.len(),
        chars@.len() < usize::MAX,
    ensures
        r == quoted_end_from(chars@, i as int, escapes),
{
    let len = chars.len();
    let mut k = i;
    while k < len
        invariant
            k <= len + 1,
            len == chars@.len(),
            len < usize::MAX,
            quoted_end_from(chars@, k as int, escapes) == quoted_end_from(chars@, i as int, escapes),
        decreases len + 1 - k,
    {
        let c = chars[k];
        if c == '\\' && escapes {
            k += 2;
        } else if c == '\'' && k + 1 < len && chars[k + 1] == '\'' {
            k += 2;
        } else if c == '\'' {
            return k + 1;
        } else {
            k += 1;
        }
    }
    len
}

/// End of a quoted identifier whose body starts at `i`.
pub fn identifier_end(chars: &[char], i: usize) -> (r: usize)
    requires
        i <= chars@.len(),
        chars@.len() < usize::MAX,
    ensures
        r == identifier_end_from(chars@, i as int),
{
    let len = chars.len();
    let mut k = i;
    while k < len
        invariant
            k <= len + 1,
            len == chars@.len(),
            len < usize::MAX,
            identifier_end_from(chars@, k as int) == identifier_end_from(chars@, i as int),
        decreases len + 1 - k,
    {
        let c = chars[k];
        if c == '"' && k + 1 < len && chars[k + 1] == '"' {
            k += 2;
        } else if c == '"' {
            return k + 1;
        } else {
            k += 1;
        }
    }
    len
}

/// Whether the `n` characters at `k` equal those at `t`.
pub fn same_run(chars: &[char], t: usize, k: usize, n: usize) -> (r: bool)
    requires
        chars@.len() < usize::MAX,
        t + n <= chars@.len(),
        k + n <= chars@.len(),
    ensures
        r == (chars@.subrange(k as int, k + n) == chars@.subrange(t as int, t + n)),
{
    let mut m: usize = 0;
    while m < n
        invariant
            m <= n,
            chars@.len() < usize::MAX,
            t + n <= chars@.len(),
            k + n <= chars@.len(),
            chars@.subrange(k as int, k + m) == chars@.subrange(t as int, t + m),
        decreases n - m,
    {
        if chars[k + m] != chars[t + m] {
            assert(chars@.subrange(k as int, k + n)[m as int] != chars@.subrange(t as int, t + n)[m as int]);
            return false;
        }
        assert(chars@.subrange(k as int, k + m + 1) =~= chars@.subrange(k as int, k + m).push(chars@[k + m]));
        assert(chars@.subrange(t as int, t + m + 1) =~= chars@.subrange(t as int, t + m).push(chars@[t + m]));
        m += 1;
    }
    assert(chars@.subrange(k as int, k + n) =~= chars@.subrange(t as int, t + n));
    true
}

/// End of a dollar-quoted constant starting at `i`, or `None` when the `$`
/// is something else.
pub fn dollar_end(chars: &[char], i: usize) -> (r: Option<usize>)
    requires
        i < chars@.len(),
        chars@.len() < usize::MAX,
    ensures
        match r {
            Some(e) => dollar_end_at(chars@, i as int) == Some(e as int),
            None => dollar_end_at(chars@, i as int) is None,
        },
{
    let len = chars.len();
    let mut j = i + 1;
    while j < len && (is_alphanumeric(chars[j]) || chars[j] == '_')
        invariant
            i + 1 <= j <= len,
            len == chars@.len(),
            tag_end_from(chars@, j as int) == tag_end_from(chars@, i + 1),
        decreases len - j,
    {
        j += 1;
    }
    if j >= len || chars[j] != '$' || (i + 1 < len && is_ascii_digit(chars[i + 1])) {
        return None;
    }
    assert(tag_end_from(chars@, j as int) == j);
    let n = j + 1 - i;
    let ghost tag = chars@.subrange(i as int, j + 1);
    let mut k = j + 1;
    while k <= len - n
        invariant
            j + 1 <= k,
            n == j + 1 - i,
            len < usize::MAX,
            j < len,
            i < j,
            n <= len,
            len == chars@.len(),
            tag_end_from(chars@, i + 1) == j,
            chars@[j as int] == '$',
            !(i + 1 < len && is_ascii_digit_char(chars@[i + 1])),
            tag == chars@.subrange(i as int, j + 1),
            tag_close_from(chars@, tag, k as int) == tag_close_from(chars@, tag, j + 1),
        decreases len - k,
    {
        if same_run(chars, i, k, n) {
            assert(tag.len() == n);
            assert(occurs_at(chars@, tag, k as int));
            assert(tag_close_from(chars@, tag, k as int) == k + n);
            return Some(k + n);
        }
        k += 1;
    }
    Some(len)
}

// ---------------------------------------------------------------------------
// Passes over whole texts
// ---------------------------------------------------------------------------

/// First index at or after `i` that holds no whitespace, or the end of `s`.
pub open spec fn ws_end_from(s: Seq<char>, i: int) -> int
    decreases s.len() - i,
{
    if 0 <= i < s.len() && is_whitespace_char(s[i]) {
        ws_end_from(s, i + 1)
    } else {
        i
    }
}

/// Whether `s[i..j]` holds a newline.
pub open spec fn has_newline_in(s: Seq<char>, i: int, j: int) -> bool {
    exists|k: int| i <= k < j && s[k] == '\n'
}

pub proof fn lemma_ws_end_bounds(s: Seq<char>, i: int)
    requires
        0 <= i <= s.len(),
    ensures
        i <= ws_end_from(s, i) <= s.len(),
        i < s.len() && is_whitespace_char(s[i]) ==> i < ws_end_from(s, i),
        ws_end_from(s, i) < s.len() ==> !is_whitespace_char(s[ws_end_from(s, i)]),
        forall|k: int| i <= k < ws_end_from(s, i) ==> is_whitespace_char(#[trigger] s[k]),
    decreases s.len() - i,
{
    if i < s.len() && is_whitespace_char(s[i]) {
        lemma_ws_end_bounds(s, i + 1);
    }
}

/// What `collapse_whitespace` appends for the text from `i` on, given what it
/// has written so far and whether that ended with a `--` comment.
pub open spec fn collapse_from(s: Seq<char>, i: int, out: Seq<char>, after_comment: bool) -> Seq<char>
    decreases s.len() - i,
{
    if i < 0 || i >= s.len() {
        out
    } else {
        match scan_at(s, i) {
            Some((span, end)) => {
                proof { lemma_scan_advances(s, i); }
                collapse_from(s, end, out + s.subrange(i, end), span == Span::LineComment)
            },
            None => {
                if is_whitespace_char(s[i]) {
                    proof { lemma_ws_end_bounds(s, i); }
                    let j = ws_end_from(s, i);
                    let newline = has_newline_in(s, i, j);
                    let between_literals = newline && out.len() > 0 && out.last() == '\''
                        && j < s.len() && s[j] == '\'';
                    let out2 = if out.len() > 0 && j < s.len() {
                        out.push(if between_literals || (newline && after_comment) { '\n' } else { ' ' })
                    } else {
                        out
                    };
                    collapse_from(s, j, out2, false)
                } else {
                    collapse_from(s, i + 1, out.push(s[i]), false)
                }
            },
        }
    }
}

/// `text` with whitespace collapsed: see `collapse_whitespace`.
pub open spec fn collapsed(s: Seq<char>) -> Seq<char> {
    collapse_from(s, 0, Seq::empty(), false)
}

/// Collapse whitespace runs to a single space and trim, with two exceptions:
/// a run that contains a newline and sits between two string constants is
/// kept as a newline, and so is the newline that terminates a `--` comment.
/// String constants, quoted identifiers and comments are copied verbatim.
pub fn collapse_whitespace(text: &str) -> (r: String)
    requires
        text@.len() < usize::MAX,
    ensures
        r@ == collapsed(text@),
{
    let chars = chars_of(text);
    let out = collapse_chars(&chars);
    string_of(&out)
}

/// `collapse_whitespace` over characters.
pub fn collapse_chars(chars: &[char]) -> (out: Vec<char>)
    requires
        chars@.len() < usize::MAX,
    ensures
        out@ == collapsed(chars@),
{
    let len = chars.len();
    let mut out: Vec<char> = Vec::new();
    let mut i: usize = 0;
    let mut after_comment = false;
    while i < len
        invariant
            i <= len,
            len == chars@.len(),
            len < usize::MAX,
            collapse_from(chars@, i as int, out@, after_comment) == collapsed(chars@),
        decreases len - i,
    {
        let c = chars[i];
        match scan(chars, i) {
            Some((span, end)) => {
                let ghost old_out = out@;
                let mut k = i;
                while k < end
                    invariant
                        i <= k <= end <= len,
                        len == chars@.len(),
                        out@ == old_out + chars@.subrange(i as int, k as int),
                    decreases end - k,
                {
                    out.push(chars[k]);
                    assert(chars@.subrange(i as int, k + 1) =~= chars@.subrange(i as int, k as int).push(chars@[k as int]));
                    k += 1;
                }
                after_comment = span == Span::LineComment;
                i = end;
            },
            None => {
                if is_whitespace(c) {
                    proof { lemma_ws_end_bounds(chars@, i as int); }
                    let mut j = i;
                    let mut saw_newline = false;
                    while j < len && is_whitespace(chars[j])
                        invariant
                            i <= j <= len,
                            len == chars@.len(),
                            ws_end_from(chars@, j as int) == ws_end_from(chars@, i as int),
                            saw_newline == has_newline_in(chars@, i as int, j as int),
                        decreases len - j,
                    {
                        saw_newline = saw_newline || chars[j] == '\n';
                        j += 1;
                    }
                    let between_literals = saw_newline && out.len() > 0 && out[out.len() - 1] == '\''
                        && j < len && chars[j] == '\'';
                    if out.len() > 0 && j < len {
                        out.push(if between_literals || (saw_newline && after_comment) { '\n' } else { ' ' });
                    }
                    after_comment = false;
                    i = j;
                } else {
                    out.push(c);
                    after_comment = false;
                    i += 1;
                }
            },
        }
    }
    out
}

/// The character ranges of the single-quoted constants and quoted
/// identifiers in `s` from `i` on, skipping comments and dollar-quoted bodies.
pub open spec fn spans_from(s: Seq<char>, i: int) -> Seq<(int, int)>
    decreases s.len() - i,
{
    if i < 0 || i >= s.len() {
        Seq::empty()
    } else {
        match scan_at(s, i) {
            Some((span, end)) => {
                proof { lemma_scan_advances(s, i); }
                let rest = spans_from(s, end);
                if (span == Span::Literal || span == Span::Identifier) && s[i] != '$' {
                    seq![(i, end)] + rest
                } else {
                    rest
                }
            },
            None => spans_from(s, i + 1),
        }
    }
}

/// The quoted spans of a whole text.
pub open spec fn quoted_spans_of(s: Seq<char>) -> Seq<(int, int)> {
    spans_from(s, 0)
}

/// Spans in order, not overlapping, and inside `lo..hi`.
pub open spec fn spans_ordered(sp: Seq<(int, int)>, lo: int, hi: int) -> bool {
    &&& forall|k: int| 0 <= k < sp.len() ==> lo <= #[trigger] sp[k].0 < sp[k].1 <= hi
    &&& forall|k: int| 0 <= k < sp.len() - 1 ==> #[trigger] sp[k].1 <= sp[k + 1].0
}

/// The spans of a text are ordered and lie inside it.
pub proof fn lemma_spans_ordered(s: Seq<char>, i: int)
    requires
        0 <= i,
    ensures
        spans_ordered(spans_from(s, i), i, s.len() as int),
    decreases s.len() - i,
{
    if 0 <= i < s.len() {
        lemma_scan_advances(s, i);
        match scan_at(s, i) {
            Some((span, end)) => {
                lemma_spans_ordered(s, end);
                let rest = spans_from(s, end);
                if (span == Span::Literal || span == Span::Identifier) && s[i] != '$' {
                    let all = seq![(i, end)] + rest;
                    assert forall|k: int| 0 <= k < all.len() - 1 implies #[trigger] all[k].1 <= all[k + 1].0 by {
                        if k > 0 {
                            assert(all[k] == rest[k - 1]);
                            assert(all[k + 1] == rest[k]);
                        }
                    }
                    assert forall|k: int| 0 <= k < all.len() implies i <= #[trigger] all[k].0 < all[k].1 <= s.len() by {
                        if k > 0 {
                            assert(all[k] == rest[k - 1]);
                        }
                    }
                }
            },
            None => {
                lemma_spans_ordered(s, i + 1);
            },
        }
    }
}

/// Exec spans, read as integer pairs.
pub open spec fn int_pairs(v: Seq<(usize, usize)>) -> Seq<(int, int)> {
    v.map_values(|p: (usize, usize)| (p.0 as int, p.1 as int))
}

/// Character ranges of the single-quoted constants and quoted identifiers in
/// `chars`, skipping comments and dollar-quoted bodies.
pub fn quoted_spans(chars: &[char]) -> (r: Vec<(usize, usize)>)
    requires
        chars@.len() < usize::MAX,
    ensures
        int_pairs(r@) == quoted_spans_of(chars@),
{
    let len = chars.len();
    let mut spans: Vec<(usize, usize)> = Vec::new();
    let mut i: usize = 0;
    while i < len
        invariant
            i <= len,
            len == chars@.len(),
            len < usize::MAX,
            int_pairs(spans@) + spans_from(chars@, i as int) == quoted_spans_of(chars@),
        decreases len - i,
    {
        match scan(chars, i) {
            Some((span, end)) => {
                let dollar = chars[i] == '$';
                if (span == Span::Literal || span == Span::Identifier) && !dollar {
                    let ghost before = spans@;
                    spans.push((i, end));
                    assert(int_pairs(spans@) =~= int_pairs(before) + seq![(i as int, end as int)]);
                    assert(int_pairs(spans@) + spans_from(chars@, end as int)
                        =~= int_pairs(before) + (seq![(i as int, end as int)] + spans_from(chars@, end as int)));
                }
                i = end;
            },
            None => {
                i += 1;
            },
        }
    }
    assert(int_pairs(spans@) =~= int_pairs(spans@) + spans_from(chars@, i as int));
    spans
}

/// Whether `t` ends inside a `--` comment, scanning from `i`.
pub open spec fn comment_runs_to_end_from(t: Seq<char>, i: int) -> bool
    decreases t.len() - i,
{
    if i < 0 || i >= t.len() {
        false
    } else {
        match scan_at(t, i) {
            Some((span, end)) => {
                proof { lemma_scan_advances(t, i); }
                if span == Span::LineComment && end >= t.len() {
                    true
                } else {
                    comment_runs_to_end_from(t, end)
                }
            },
            None => comment_runs_to_end_from(t, i + 1),
        }
    }
}

/// Index just past the last non-whitespace character of `s`.
pub open spec fn trimmed_end(s: Seq<char>, n: int) -> int
    decreases n,
{
    if n <= 0 {
        0
    } else if is_whitespace_char(s[n - 1]) {
        trimmed_end(s, n - 1)
    } else {
        n
    }
}

/// `s` without trailing whitespace, as `str::trim_end` gives it.
pub open spec fn trim_end_of(s: Seq<char>) -> Seq<char> {
    s.take(trimmed_end(s, s.len() as int))
}

pub proof fn lemma_trimmed_end_bounds(s: Seq<char>, n: int)
    requires
        n <= s.len(),
    ensures
        0 <= trimmed_end(s, n) <= if n < 0 { 0 } else { n },
    decreases n,
{
    if n > 0 && is_whitespace_char(s[n - 1]) {
        lemma_trimmed_end_bounds(s, n - 1);
    }
}

/// `chars` without trailing whitespace.
pub fn trim_end_chars(chars: &[char]) -> (r: Vec<char>)
    ensures
        r@ == trim_end_of(chars@),
{
    let mut n = chars.len();
    while n > 0 && is_whitespace(chars[n - 1])
        invariant
            n <= chars@.len(),
            trimmed_end(chars@, n as int) == trimmed_end(chars@, chars@.len() as int),
        decreases n,
    {
        n -= 1;
    }
    let mut r: Vec<char> = Vec::new();
    let mut k: usize = 0;
    while k < n
        invariant
            k <= n <= chars@.len(),
            r@ == chars@.take(k as int),
        decreases n - k,
    {
        r.push(chars[k]);
        assert(chars@.take(k + 1) =~= chars@.take(k as int).push(chars@[k as int]));
        k += 1;
    }
    assert(trimmed_end(chars@, n as int) == n);
    r
}

/// Whether `text` ends inside a `--` comment, so that anything appended on
/// the same line would be commented out.
pub fn ends_in_line_comment(text: &str) -> (r: bool)
    requires
        text@.len() < usize::MAX,
    ensures
        r == comment_runs_to_end_from(trim_end_of(text@), 0),
{
    let all = chars_of(text);
    let chars = trim_end_chars(&all);
    proof { lemma_trimmed_end_bounds(all@, all@.len() as int); }
    let len = chars.len();
    let mut i: usize = 0;
    while i < len
        invariant
            i <= len,
            len == chars@.len(),
            len < usize::MAX,
            comment_runs_to_end_from(chars@, i as int) == comment_runs_to_end_from(chars@, 0),
            chars@ == trim_end_of(text@),
        decreases len - i,
    {
        match scan(&chars, i) {
            Some((span, end)) => {
                if span == Span::LineComment && end >= len {
                    assert(comment_runs_to_end_from(chars@, i as int));
                    return true;
                }
                i = end;
            },
            None => {
                i += 1;
            },
        }
    }
    false
}

/// Whether a literal or quoted identifier in `p` from `i` on holds a newline
/// (an unterminated one runs to the end and takes the final newline).
pub open spec fn newline_in_quoted_from(p: Seq<char>, i: int) -> bool
    decreases p.len() - i,
{
    if i < 0 || i >= p.len() {
        false
    } else {
        match scan_at(p, i) {
            Some((span, end)) => {
                proof { lemma_scan_advances(p, i); }
                if (span == Span::Literal || span == Span::Identifier) && has_newline_in(p, i, end) {
                    true
                } else {
                    newline_in_quoted_from(p, end)
                }
            },
            None => newline_in_quoted_from(p, i + 1),
        }
    }
}

/// Whether moving the lines of `body` around leaves every string constant
/// and quoted identifier in it unchanged: it does unless one of them holds a
/// newline or is unterminated.
pub fn layout_is_safe(body: &str) -> (r: bool)
    requires
        body@.len() + 1 < usize::MAX,
    ensures
        r == !newline_in_quoted_from(body@.push('\n'), 0),
{
    let mut probe = chars_of(body);
    probe.push('\n');
    let len = probe.len();
    let mut i: usize = 0;
    while i < len
        invariant
            i <= len,
            len == probe@.len(),
            len < usize::MAX,
            probe@ == body@.push('\n'),
            newline_in_quoted_from(probe@, i as int) == newline_in_quoted_from(probe@, 0),
        decreases len - i,
    {
        match scan(&probe, i) {
            Some((span, end)) => {
                if span == Span::Literal || span == Span::Identifier {
                    let mut k = i;
                    let mut found = false;
                    while k < end
                        invariant
                            i <= k <= end <= len,
                            len == probe@.len(),
                            found == has_newline_in(probe@, i as int, k as int),
                        decreases end - k,
                    {
                        found = found || probe[k] == '\n';
                        k += 1;
                    }
                    if found {
                        return false;
                    }
                }
                i = end;
            },
            None => {
                i += 1;
            },
        }
    }
    true
}

// ---------------------------------------------------------------------------
// Putting back the spelling of literals
// ---------------------------------------------------------------------------

/// `s` without its whitespace characters.
pub open spec fn strip_ws(s: Seq<char>) -> Seq<char>
    decreases s.len(),
{
    if s.len() == 0 {
        Seq::empty()
    } else if is_whitespace_char(s.last()) {
        strip_ws(s.drop_last())
    } else {
        strip_ws(s.drop_last()).push(s.last())
    }
}

/// The texts of the spans `sp` of `s`.
pub open spec fn texts_of(s: Seq<char>, sp: Seq<(int, int)>) -> Seq<Seq<char>> {
    sp.map_values(|p: (int, int)| s.subrange(p.0, p.1))
}

/// Position in `avail` of the first original whose text is `t`, or `avail.len()`.
pub open spec fn first_equal_from(otexts: Seq<Seq<char>>, avail: Seq<usize>, t: Seq<char>, k: int) -> int
    decreases avail.len() - k,
{
    if k < 0 || k >= avail.len() {
        avail.len() as int
    } else if otexts[avail[k] as int] == t {
        k
    } else {
        first_equal_from(otexts, avail, t, k + 1)
    }
}

/// Position in `avail` of the first original that differs from `t` only in
/// whitespace, or `avail.len()`.
pub open spec fn first_similar_from(otexts: Seq<Seq<char>>, avail: Seq<usize>, t: Seq<char>, k: int) -> int
    decreases avail.len() - k,
{
    if k < 0 || k >= avail.len() {
        avail.len() as int
    } else if strip_ws(otexts[avail[k] as int]) == strip_ws(t) {
        k
    } else {
        first_similar_from(otexts, avail, t, k + 1)
    }
}

/// First pass: each span text from `i` on claims the first still available
/// original with the same text. Returns the claims and what stays available.
pub open spec fn claim_exact(otexts: Seq<Seq<char>>, texts: Seq<Seq<char>>, avail: Seq<usize>, i: int)
    -> (Seq<Option<usize>>, Seq<usize>)
    decreases texts.len() - i,
{
    if i < 0 || i >= texts.len() {
        (Seq::empty(), avail)
    } else {
        let pos = first_equal_from(otexts, avail, texts[i], 0);
        if pos < avail.len() {
            let rest = claim_exact(otexts, texts, avail.remove(pos), i + 1);
            (seq![Some(avail[pos])] + rest.0, rest.1)
        } else {
            let rest = claim_exact(otexts, texts, avail, i + 1);
            (seq![None::<usize>] + rest.0, rest.1)
        }
    }
}

/// Second pass: each unclaimed span text from `i` on claims the first still
/// available original that differs from it only in whitespace.
pub open spec fn claim_similar(
    otexts: Seq<Seq<char>>,
    texts: Seq<Seq<char>>,
    claims: Seq<Option<usize>>,
    avail: Seq<usize>,
    i: int,
) -> Seq<Option<usize>>
    decreases texts.len() - i,
{
    if i < 0 || i >= texts.len() {
        Seq::empty()
    } else if claims[i] is None {
        let pos = first_similar_from(otexts, avail, texts[i], 0);
        if pos < avail.len() {
            seq![Some(avail[pos])] + claim_similar(otexts, texts, claims, avail.remove(pos), i + 1)
        } else {
            seq![None::<usize>] + claim_similar(otexts, texts, claims, avail, i + 1)
        }
    } else {
        seq![claims[i]] + claim_similar(otexts, texts, claims, avail, i + 1)
    }
}

/// `t` from `last` on, with span `k` and the later ones replaced by their claims.
pub open spec fn assemble(
    t: Seq<char>,
    sp: Seq<(int, int)>,
    otexts: Seq<Seq<char>>,
    claims: Seq<Option<usize>>,
    k: int,
    last: int,
) -> Seq<char>
    decreases sp.len() - k,
{
    if k < 0 || k >= sp.len() {
        t.subrange(last, t.len() as int)
    } else {
        t.subrange(last, sp[k].0) + (match claims[k] {
            Some(x) => otexts[x as int],
            None => t.subrange(sp[k].0, sp[k].1),
        }) + assemble(t, sp, otexts, claims, k + 1, sp[k].1)
    }
}

/// `output` with the original spelling of its literals put back from `source`.
pub open spec fn restored(source: Seq<char>, output: Seq<char>) -> Seq<char> {
    let otexts = texts_of(source, quoted_spans_of(source));
    let sp = quoted_spans_of(output);
    let texts = texts_of(output, sp);
    let avail = Seq::new(otexts.len(), |k: int| k as usize);
    let first = claim_exact(otexts, texts, avail, 0);
    let claims = claim_similar(otexts, texts, first.0, first.1, 0);
    assemble(output, sp, otexts, claims, 0, 0)
}

/// The views of a list of character vectors.
pub open spec fn views(v: Seq<Vec<char>>) -> Seq<Seq<char>> {
    v.map_values(|x: Vec<char>| x@)
}

/// Whether two character sequences are equal.
pub fn eq_chars(a: &[char], b: &[char]) -> (r: bool)
    ensures
        r == (a@ == b@),
{
    if a.len() != b.len() {
        return false;
    }
    let mut k: usize = 0;
    while k < a.len()
        invariant
            k <= a@.len(),
            a@.len() == b@.len(),
            a@.take(k as int) == b@.take(k as int),
        decreases a.len() - k,
    {
        if a[k] != b[k] {
            assert(a@[k as int] != b@[k as int]);
            return false;
        }
        assert(a@.take(k + 1) =~= a@.take(k as int).push(a@[k as int]));
        assert(b@.take(k + 1) =~= b@.take(k as int).push(b@[k as int]));
        k += 1;
    }
    assert(a@.take(k as int) =~= a@);
    assert(b@.take(k as int) =~= b@);
    true
}

/// `chars` without its whitespace.
pub fn strip_ws_chars(chars: &[char]) -> (r: Vec<char>)
    ensures
        r@ == strip_ws(chars@),
{
    let mut r: Vec<char> = Vec::new();
    let mut k: usize = 0;
    while k < chars.len()
        invariant
            k <= chars@.len(),
            r@ == strip_ws(chars@.take(k as int)),
        decreases chars.len() - k,
    {
        assert(chars@.take(k + 1).drop_last() =~= chars@.take(k as int));
        if !is_whitespace(chars[k]) {
            r.push(chars[k]);
        }
        k += 1;
    }
    assert(chars@.take(k as int) =~= chars@);
    r
}

/// The characters `chars[start..end]`.
pub fn copy_range(chars: &[char], start: usize, end: usize) -> (r: Vec<char>)
    requires
        start <= end <= chars@.len(),
    ensures
        r@ == chars@.subrange(start as int, end as int),
{
    let mut r: Vec<char> = Vec::new();
    let mut k = start;
    while k < end
        invariant
            start <= k <= end <= chars@.len(),
            r@ == chars@.subrange(start as int, k as int),
        decreases end - k,
    {
        r.push(chars[k]);
        assert(chars@.subrange(start as int, k + 1) =~= chars@.subrange(start as int, k as int).push(chars@[k as int]));
        k += 1;
    }
    r
}

/// Append `src[start..end]` to `out`.
pub fn append_range(out: &mut Vec<char>, src: &[char], start: usize, end: usize)
    requires
        start <= end <= src@.len(),
    ensures
        final(out)@ == old(out)@ + src@.subrange(start as int, end as int),
{
    let mut k = start;
    while k < end
        invariant
            start <= k <= end <= src@.len(),
            out@ == old(out)@ + src@.subrange(start as int, k as int),
        decreases end - k,
    {
        out.push(src[k]);
        assert(src@.subrange(start as int, k + 1) =~= src@.subrange(start as int, k as int).push(src@[k as int]));
        k += 1;
    }
}

/// Append all of `src` to `out`.
pub fn append_all(out: &mut Vec<char>, src: &[char])
    ensures
        final(out)@ == old(out)@ + src@,
{
    append_range(out, src, 0, src.len());
    assert(src@.subrange(0, src@.len() as int) =~= src@);
}

/// The texts of the given spans.
fn span_texts(chars: &[char], spans: &Vec<(usize, usize)>) -> (r: Vec<Vec<char>>)
    requires
        spans_ordered(int_pairs(spans@), 0, chars@.len() as int),
    ensures
        views(r@) == texts_of(chars@, int_pairs(spans@)),
{
    let mut r: Vec<Vec<char>> = Vec::new();
    let mut k: usize = 0;
    while k < spans.len()
        invariant
            k <= spans@.len(),
            spans_ordered(int_pairs(spans@), 0, chars@.len() as int),
            views(r@) == texts_of(chars@, int_pairs(spans@)).take(k as int),
        decreases spans.len() - k,
    {
        let (a, b) = spans[k];
        assert(int_pairs(spans@)[k as int] == (a as int, b as int));
        let t = copy_range(chars, a, b);
        let ghost before = r@;
        r.push(t);
        assert(views(r@) =~= views(before).push(t@));
        assert(texts_of(chars@, int_pairs(spans@)).take(k + 1)
            =~= texts_of(chars@, int_pairs(spans@)).take(k as int).push(t@));
        k += 1;
    }
    assert(texts_of(chars@, int_pairs(spans@)).take(k as int) =~= texts_of(chars@, int_pairs(spans@)));
    r
}

/// The whitespace-free keys of a list of texts.
fn keys_of(texts: &Vec<Vec<char>>) -> (r: Vec<Vec<char>>)
    ensures
        r@.len() == texts@.len(),
        forall|k: int| 0 <= k < texts@.len() ==> #[trigger] r@[k]@ == strip_ws(texts@[k]@),
{
    let mut r: Vec<Vec<char>> = Vec::new();
    let mut k: usize = 0;
    while k < texts.len()
        invariant
            k <= texts@.len(),
            r@.len() == k,
            forall|x: int| 0 <= x < k ==> #[trigger] r@[x]@ == strip_ws(texts@[x]@),
        decreases texts.len() - k,
    {
        let key = strip_ws_chars(&texts[k]);
        r.push(key);
        k += 1;
    }
    r
}

/// Every available index names an original.
pub open spec fn indices_below(avail: Seq<usize>, n: int) -> bool {
    forall|k: int| 0 <= k < avail.len() ==> #[trigger] avail[k] < n
}

/// Every claim names an original.
pub open spec fn claims_below(claims: Seq<Option<usize>>, n: int) -> bool {
    forall|k: int| 0 <= k < claims.len() ==> (#[trigger] claims[k] matches Some(x) ==> x < n)
}

proof fn lemma_remove_below(avail: Seq<usize>, p: int, n: int)
    requires
        indices_below(avail, n),
        0 <= p < avail.len(),
    ensures
        indices_below(avail.remove(p), n),
{
    assert forall|k: int| 0 <= k < avail.remove(p).len() implies #[trigger] avail.remove(p)[k] < n by {
        if k < p {
            assert(avail.remove(p)[k] == avail[k]);
        } else {
            assert(avail.remove(p)[k] == avail[k + 1]);
        }
    }
}

/// Put back the original spelling of every string constant and quoted
/// identifier in `output` whose text differs from one in `source` only in
/// whitespace.
///
/// Literals are matched by content, not position. Unchanged literals claim
/// their original first, so a changed one cannot take the spelling that
/// belongs to an identical literal elsewhere. One changed beyond whitespace
/// matches nothing and is left alone. Dollar-quoted bodies are excluded.
pub fn restore_literals(source: &str, output: &str) -> (r: String)
    requires
        source@.len() < usize::MAX,
        output@.len() < usize::MAX,
    ensures
        r@ == restored(source@, output@),
{
    let src = chars_of(source);
    let t = chars_of(output);
    let ospans = quoted_spans(&src);
    let spans = quoted_spans(&t);
    proof {
        lemma_spans_ordered(src@, 0);
        lemma_spans_ordered(t@, 0);
    }
    let otexts = span_texts(&src, &ospans);
    let texts = span_texts(&t, &spans);
    let okeys = keys_of(&otexts);
    let tkeys = keys_of(&texts);
    let ghost ot = views(otexts@);
    let ghost tt = views(texts@);
    let ghost sp = int_pairs(spans@);
    let n = otexts.len();
    let m = texts.len();
    assert(ot.len() == n);
    assert(tt.len() == m);
    assert(texts_of(t@, sp).len() == sp.len());
    assert(sp.len() == m);

    let mut avail: Vec<usize> = Vec::new();
    let mut k: usize = 0;
    while k < n
        invariant
            k <= n,
            avail@ == Seq::new(k as nat, |x: int| x as usize),
        decreases n - k,
    {
        avail.push(k);
        assert(avail@ =~= Seq::new((k + 1) as nat, |x: int| x as usize));
        k += 1;
    }
    let ghost first = claim_exact(ot, tt, avail@, 0);

    // First pass: exact matches.
    let mut claims: Vec<Option<usize>> = Vec::new();
    let mut i: usize = 0;
    while i < m
        invariant
            i <= m,
            m == texts@.len(),
            n == otexts@.len(),
            ot == views(otexts@),
            tt == views(texts@),
            claims@.len() == i,
            indices_below(avail@, n as int),
            claims_below(claims@, n as int),
            claims@ + claim_exact(ot, tt, avail@, i as int).0 == first.0,
            claim_exact(ot, tt, avail@, i as int).1 == first.1,
        decreases m - i,
    {
        let mut p: usize = 0;
        while p < avail.len() && !eq_chars(&otexts[avail[p]], &texts[i])
            invariant
                p <= avail@.len(),
                i < m,
                m == texts@.len(),
                n == otexts@.len(),
                ot == views(otexts@),
                tt == views(texts@),
                indices_below(avail@, n as int),
                first_equal_from(ot, avail@, tt[i as int], p as int) == first_equal_from(ot, avail@, tt[i as int], 0),
            decreases avail.len() - p,
        {
            assert(ot[avail@[p as int] as int] == otexts@[avail@[p as int] as int]@);
            p += 1;
        }
        let ghost before_claims = claims@;
        let ghost before_avail = avail@;
        if p < avail.len() {
            assert(ot[avail@[p as int] as int] == otexts@[avail@[p as int] as int]@);
            assert(first_equal_from(ot, avail@, tt[i as int], p as int) == p);
            proof { lemma_remove_below(avail@, p as int, n as int); }
            let idx = avail.remove(p);
            claims.push(Some(idx));
            assert(claims@ + claim_exact(ot, tt, avail@, i + 1).0
                =~= before_claims + claim_exact(ot, tt, before_avail, i as int).0);
        } else {
            claims.push(None);
            assert(claims@ + claim_exact(ot, tt, avail@, i + 1).0
                =~= before_claims + claim_exact(ot, tt, before_avail, i as int).0);
        }
        i += 1;
    }
    assert(claims@ =~= first.0);
    let ghost final_claims = claim_similar(ot, tt, claims@, avail@, 0);

    // Second pass: matches up to whitespace.
    let mut claims2: Vec<Option<usize>> = Vec::new();
    let mut i: usize = 0;
    while i < m
        invariant
            i <= m,
            m == texts@.len(),
            n == otexts@.len(),
            claims@.len() == m,
            ot == views(otexts@),
            tt == views(texts@),
            okeys@.len() == n,
            tkeys@.len() == m,
            forall|x: int| 0 <= x < n ==> #[trigger] okeys@[x]@ == strip_ws(otexts@[x]@),
            forall|x: int| 0 <= x < m ==> #[trigger] tkeys@[x]@ == strip_ws(texts@[x]@),
            claims2@.len() == i,
            indices_below(avail@, n as int),
            claims_below(claims@, n as int),
            claims_below(claims2@, n as int),
            claims2@ + claim_similar(ot, tt, claims@, avail@, i as int) == final_claims,
        decreases m - i,
    {
        let ghost before_claims = claims2@;
        let ghost before_avail = avail@;
        if claims[i].is_none() {
            let mut p: usize = 0;
            while p < avail.len() && !eq_chars(&okeys[avail[p]], &tkeys[i])
                invariant
                    p <= avail@.len(),
                    i < m,
                    m == texts@.len(),
                    n == otexts@.len(),
                    ot == views(otexts@),
                    tt == views(texts@),
                    okeys@.len() == n,
                    tkeys@.len() == m,
                    forall|x: int| 0 <= x < n ==> #[trigger] okeys@[x]@ == strip_ws(otexts@[x]@),
                    forall|x: int| 0 <= x < m ==> #[trigger] tkeys@[x]@ == strip_ws(texts@[x]@),
                    indices_below(avail@, n as int),
                    first_similar_from(ot, avail@, tt[i as int], p as int) == first_similar_from(ot, avail@, tt[i as int], 0),
                decreases avail.len() - p,
            {
                assert(okeys@[avail@[p as int] as int]@ == strip_ws(ot[avail@[p as int] as int]));
                assert(tkeys@[i as int]@ == strip_ws(tt[i as int]));
                p += 1;
            }
            if p < avail.len() {
                assert(okeys@[avail@[p as int] as int]@ == strip_ws(ot[avail@[p as int] as int]));
                assert(tkeys@[i as int]@ == strip_ws(tt[i as int]));
                assert(first_similar_from(ot, avail@, tt[i as int], p as int) == p);
                proof { lemma_remove_below(avail@, p as int, n as int); }
                let idx = avail.remove(p);
                claims2.push(Some(idx));
            } else {
                claims2.push(None);
            }
        } else {
            claims2.push(claims[i]);
        }
        assert(claims2@ + claim_similar(ot, tt, claims@, avail@, i + 1)
            =~= before_claims + claim_similar(ot, tt, claims@, before_avail, i as int));
        i += 1;
    }
    assert(claims2@ =~= final_claims);

    // Reassemble the output.
    let mut out: Vec<char> = Vec::new();
    let mut last: usize = 0;
    let mut k: usize = 0;
    while k < m
        invariant
            k <= m,
            m == spans@.len(),
            n == otexts@.len(),
            sp == int_pairs(spans@),
            ot == views(otexts@),
            claims2@.len() == m,
            claims_below(claims2@, n as int),
            spans_ordered(sp, 0, t@.len() as int),
            last <= t@.len(),
            k < m ==> last <= sp[k as int].0,
            out@ + assemble(t@, sp, ot, claims2@, k as int, last as int)
                == assemble(t@, sp, ot, claims2@, 0, 0),
        decreases m - k,
    {
        let (a, b) = spans[k];
        assert(sp[k as int] == (a as int, b as int));
        let ghost before = out@;
        append_range(&mut out, &t, last, a);
        match claims2[k] {
            Some(x) => {
                assert(ot[x as int] == otexts@[x as int]@);
                append_all(&mut out, &otexts[x]);
            },
            None => {
                append_range(&mut out, &t, a, b);
            },
        }
        assert(out@ + assemble(t@, sp, ot, claims2@, k + 1, b as int)
            =~= before + assemble(t@, sp, ot, claims2@, k as int, last as int));
        last = b;
        k += 1;
    }
    let ghost before = out@;
    append_range(&mut out, &t, last, t.len());
    assert(out@ =~= before + assemble(t@, sp, ot, claims2@, k as int, last as int));
    string_of(&out)
}

// ---------------------------------------------------------------------------
// Laws of the whitespace pass
// ---------------------------------------------------------------------------

proof fn lemma_collapse_no_leading_ws(s: Seq<char>, i: int, out: Seq<char>, after_comment: bool)
    requires
        0 <= i,
        out.len() > 0 ==> !is_whitespace_char(out[0]),
    ensures
        collapse_from(s, i, out, after_comment).len() > 0
            ==> !is_whitespace_char(collapse_from(s, i, out, after_comment)[0]),
    decreases s.len() - i,
{
    if i < s.len() {
        lemma_scan_advances(s, i);
        match scan_at(s, i) {
            Some((span, end)) => {
                let out2 = out + s.subrange(i, end);
                assert(out2.len() > 0 ==> !is_whitespace_char(out2[0])) by {
                    if out.len() == 0 {
                        assert(out2[0] == s[i]);
                    } else {
                        assert(out2[0] == out[0]);
                    }
                }
                lemma_collapse_no_leading_ws(s, end, out2, span == Span::LineComment);
            },
            None => {
                if is_whitespace_char(s[i]) {
                    lemma_ws_end_bounds(s, i);
                    let j = ws_end_from(s, i);
                    let newline = has_newline_in(s, i, j);
                    let between_literals = newline && out.len() > 0 && out.last() == '\''
                        && j < s.len() && s[j] == '\'';
                    let out2 = if out.len() > 0 && j < s.len() {
                        out.push(if between_literals || (newline && after_comment) { '\n' } else { ' ' })
                    } else {
                        out
                    };
                    assert(out2.len() > 0 ==> out2[0] == out[0]);
                    lemma_collapse_no_leading_ws(s, j, out2, false);
                } else {
                    let out2 = out.push(s[i]);
                    assert(out2.len() > 0 ==> !is_whitespace_char(out2[0])) by {
                        if out.len() > 0 {
                            assert(out2[0] == out[0]);
                        }
                    }
                    lemma_collapse_no_leading_ws(s, i + 1, out2, false);
                }
            },
        }
    }
}

/// With nothing available, the first pass claims nothing.
proof fn lemma_claim_exact_none(otexts: Seq<Seq<char>>, texts: Seq<Seq<char>>, avail: Seq<usize>, i: int)
    requires
        avail.len() == 0,
        0 <= i <= texts.len(),
    ensures
        claim_exact(otexts, texts, avail, i).0.len() == texts.len() - i,
        forall|k: int| 0 <= k < texts.len() - i ==> (#[trigger] claim_exact(otexts, texts, avail, i).0[k]) is None,
        claim_exact(otexts, texts, avail, i).1 == avail,
    decreases texts.len() - i,
{
    if i < texts.len() {
        lemma_claim_exact_none(otexts, texts, avail, i + 1);
        let rest = claim_exact(otexts, texts, avail, i + 1);
        assert(first_equal_from(otexts, avail, texts[i], 0) == 0);
        assert forall|k: int| 0 <= k < texts.len() - i implies
            (#[trigger] claim_exact(otexts, texts, avail, i).0[k]) is None by {
            if k > 0 {
                assert(claim_exact(otexts, texts, avail, i).0[k] == rest.0[k - 1]);
            }
        }
    }
}

/// With nothing available, the second pass keeps the first pass's claims.
proof fn lemma_claim_similar_keeps(
    otexts: Seq<Seq<char>>,
    texts: Seq<Seq<char>>,
    claims: Seq<Option<usize>>,
    avail: Seq<usize>,
    i: int,
)
    requires
        avail.len() == 0,
        0 <= i <= texts.len(),
        claims.len() == texts.len(),
        forall|k: int| 0 <= k < claims.len() ==> (#[trigger] claims[k]) is None,
    ensures
        claim_similar(otexts, texts, claims, avail, i).len() == texts.len() - i,
        forall|k: int| 0 <= k < texts.len() - i ==> (#[trigger] claim_similar(otexts, texts, claims, avail, i)[k]) is None,
    decreases texts.len() - i,
{
    if i < texts.len() {
        lemma_claim_similar_keeps(otexts, texts, claims, avail, i + 1);
        let rest = claim_similar(otexts, texts, claims, avail, i + 1);
        assert(claims[i] is None);
        assert(first_similar_from(otexts, avail, texts[i], 0) == 0);
        assert forall|k: int| 0 <= k < texts.len() - i implies
            (#[trigger] claim_similar(otexts, texts, claims, avail, i)[k]) is None by {
            if k > 0 {
                assert(claim_similar(otexts, texts, claims, avail, i)[k] == rest[k - 1]);
            }
        }
    }
}

/// Spans that claim nothing put the text back together as it was.
proof fn lemma_assemble_unclaimed(
    t: Seq<char>,
    sp: Seq<(int, int)>,
    otexts: Seq<Seq<char>>,
    claims: Seq<Option<usize>>,
    k: int,
    last: int,
)
    requires
        0 <= k <= sp.len(),
        0 <= last <= t.len(),
        spans_ordered(sp, 0, t.len() as int),
        k < sp.len() ==> last <= sp[k].0,
        claims.len() >= sp.len(),
        forall|j: int| k <= j < sp.len() ==> (#[trigger] claims[j]) is None,
    ensures
        assemble(t, sp, otexts, claims, k, last) == t.subrange(last, t.len() as int),
    decreases sp.len() - k,
{
    if k < sp.len() {
        assert(claims[k] is None);
        lemma_assemble_unclaimed(t, sp, otexts, claims, k + 1, sp[k].1);
        assert(t.subrange(last, sp[k].0) + t.subrange(sp[k].0, sp[k].1) + t.subrange(sp[k].1, t.len() as int)
            =~= t.subrange(last, t.len() as int));
    }
}

/// Law: literals come back only from a source that has some; where the
/// source has no string constant or quoted identifier, the output is
/// returned unchanged.
pub proof fn law_restore_without_source_literals(source: Seq<char>, output: Seq<char>)
    requires
        quoted_spans_of(source).len() == 0,
    ensures
        restored(source, output) == output,
{
    let otexts = texts_of(source, quoted_spans_of(source));
    let sp = quoted_spans_of(output);
    let texts = texts_of(output, sp);
    let avail = Seq::new(otexts.len(), |k: int| k as usize);
    assert(avail.len() == 0);
    lemma_claim_exact_none(otexts, texts, avail, 0);
    let first = claim_exact(otexts, texts, avail, 0);
    lemma_claim_similar_keeps(otexts, texts, first.0, first.1, 0);
    lemma_spans_ordered(output, 0);
    lemma_assemble_unclaimed(output, sp, otexts, claim_similar(otexts, texts, first.0, first.1, 0), 0, 0);
    assert(output.subrange(0, output.len() as int) =~= output);
}

/// Law: an output without string constants or quoted identifiers has no
/// literal to put back and is returned unchanged.
pub proof fn law_restore_without_output_literals(source: Seq<char>, output: Seq<char>)
    requires
        quoted_spans_of(output).len() == 0,
    ensures
        restored(source, output) == output,
{
    assert(output.subrange(0, output.len() as int) =~= output);
}

/// Law: the whitespace pass never leaves whitespace at the start of a text.
pub proof fn law_collapse_trims_start(s: Seq<char>)
    ensures
        collapsed(s).len() > 0 ==> !is_whitespace_char(collapsed(s)[0]),
{
    lemma_collapse_no_leading_ws(s, 0, Seq::empty(), false);
}

proof fn lemma_collapse_copies(s: Seq<char>, i: int, after_comment: bool)
    requires
        0 <= i <= s.len(),
        forall|k: int| 0 <= k < s.len() ==> !is_whitespace_char(#[trigger] s[k]),
    ensures
        collapse_from(s, i, s.take(i), after_comment) == s,
    decreases s.len() - i,
{
    if i < s.len() {
        lemma_scan_advances(s, i);
        match scan_at(s, i) {
            Some((span, end)) => {
                assert(s.take(i) + s.subrange(i, end) =~= s.take(end));
                lemma_collapse_copies(s, end, span == Span::LineComment);
            },
            None => {
                assert(s.take(i).push(s[i]) =~= s.take(i + 1));
                lemma_collapse_copies(s, i + 1, false);
            },
        }
    } else {
        assert(s.take(i) =~= s);
    }
}

/// Law: a text without whitespace passes through the whitespace pass unchanged.
pub proof fn law_collapse_keeps_text_without_whitespace(s: Seq<char>)
    requires
        forall|k: int| 0 <= k < s.len() ==> !is_whitespace_char(#[trigger] s[k]),
    ensures
        collapsed(s) == s,
{
    assert(s.take(0) =~= Seq::<char>::empty());
    lemma_collapse_copies(s, 0, false);
}

} // verus!
