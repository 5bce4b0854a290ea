//! Expression formatting: renders the expression nodes of the syntax tree as
//! inline SQL text.
//!
//! Every formatting method takes a call budget `b`: the number of nested
//! formatting calls it may still make. A method whose budget is spent gives
//! back the node's source text. The budget that `Formatter::format_root`
//! starts from grows with the size of the tree.
#![verifier::loop_isolation(false)]

use vstd::prelude::*;
use crate::chars::{push_str, push_char, to_upper, to_lower, is_ascii_digit};
use crate::config::{Formatter, cased, node_text};
use crate::tree::{first_of_kind_at, kind_among};
use crate::strs::{has_prefix, lemma_wraps, lemma_prefix_self, lemma_prefix_append, concat_views};
use crate::expr::{collapse_double_dots_outside_quotes, collapse_whitespace_outside_quotes,
    has_top_level_space, is_sql_builtin_function, string_views, total_chars, join_with};
use crate::strs::{char_count, concat, join, owned, same, spaces_str, starts_with, ends_with,
    contains, trim, trim_start, trim_end, lines_of_str, slice_chars, last_char, has_suffix,
    lemma_join_ends_with_last};
use crate::text::{small, spaces};
use crate::strs::opens_with;
use crate::tree::{SyntaxNode, flatten_list, flat_items, named_of, first_named, lemma_found_named, lemma_no_named,
    first_kid, lemma_no_kid};
use crate::stmt::trim_of;

verus! {

/// The wrapper kinds that the grammar puts around character and bit types.
pub open spec fn type_wrapper_kinds() -> Seq<&'static str> {
    seq!["CharacterWithLength", "CharacterWithoutLength", "character",
        "BitWithLength", "BitWithoutLength", "bit", "opt_varying"]
}

/// The keyword kinds of the built-in numeric and boolean types.
pub open spec fn base_type_kinds() -> Seq<&'static str> {
    seq!["kw_integer", "kw_int", "kw_smallint", "kw_bigint", "kw_real", "kw_boolean",
        "kw_float", "kw_decimal", "kw_numeric"]
}

/// The items of a type name with children `cs`: each child, a named
/// wrapper replaced by its own items (while the budget `b` lasts).
pub open spec fn type_items_of(cs: Seq<SyntaxNode>, b: nat) -> Seq<SyntaxNode>
    decreases b, cs.len(),
{
    if cs.len() == 0 {
        Seq::empty()
    } else {
        let c = cs.last();
        type_items_of(cs.drop_last(), b) + if c.named && kind_among(c.kind@, type_wrapper_kinds()) && b > 0 {
            type_items_of(c.children@, (b - 1) as nat)
        } else {
            seq![c]
        }
    }
}

/// The time-zone words of the named nodes `ns` of an `opt_timezone`: WITH,
/// WITHOUT, TIME and ZONE in the style's case.
pub open spec fn zone_words(config: crate::config::StyleConfig, ns: Seq<SyntaxNode>) -> Seq<Seq<char>>
    decreases ns.len(),
{
    if ns.len() == 0 {
        Seq::empty()
    } else {
        let k = ns.last().kind@;
        zone_words(config, ns.drop_last()) + if k == "kw_with"@ {
            seq![cased(config, "WITH"@)]
        } else if k == "kw_without"@ {
            seq![cased(config, "WITHOUT"@)]
        } else if k == "kw_time"@ {
            seq![cased(config, "TIME"@)]
        } else if k == "kw_zone"@ {
            seq![cased(config, "ZONE"@)]
        } else {
            Seq::empty()
        }
    }
}

/// A type name being read: its base name, its modifiers, its extra keywords
/// and its time-zone keywords.
pub type TypeState = (Seq<char>, Seq<char>, Seq<Seq<char>>, Seq<Seq<char>>);

/// One item `c` of a type name read, `p` being what formatting it gave where
/// its layout uses that.
pub open spec fn type_step(config: crate::config::StyleConfig, chars: Seq<char>, st: TypeState, c: SyntaxNode,
    p: Seq<char>) -> TypeState
{
    let (base, mods, extras, zone) = st;
    let k = c.kind@;
    if !c.named {
        st
    } else if kind_among(k, base_type_kinds()) {
        (crate::expr::mapped_type_name(config.upper_keywords, crate::chars::lower_text(node_text(chars, c))),
            mods, extras, zone)
    } else if k == "kw_double"@ {
        ("DOUBLE"@, mods, extras, zone)
    } else if k == "kw_precision"@ {
        if base == "DOUBLE"@ {
            ("DOUBLE PRECISION"@, mods, extras, zone)
        } else {
            (base, mods, extras.push(cased(config, "PRECISION"@)), zone)
        }
    } else if k == "kw_varying"@ {
        (base, mods, extras.push(cased(config, "VARYING"@)), zone)
    } else if k == "opt_timezone"@ {
        (base, mods, extras, zone + zone_words(config, named_of(c.children@)))
    } else if k == "kw_with"@ {
        (base, mods, extras, zone.push(cased(config, "WITH"@)))
    } else if k == "kw_without"@ {
        (base, mods, extras, zone.push(cased(config, "WITHOUT"@)))
    } else if k == "kw_time"@ {
        if base.len() == 0 {
            (cased(config, "TIME"@), mods, extras, zone)
        } else {
            (base, mods, extras, zone.push(cased(config, "TIME"@)))
        }
    } else if k == "kw_zone"@ {
        (base, mods, extras, zone.push(cased(config, "ZONE"@)))
    } else if k == "kw_timestamp"@ {
        (cased(config, "TIMESTAMP"@), mods, extras, zone)
    } else if k == "type_function_name"@ || k == "unreserved_keyword"@ {
        (crate::expr::mapped_type_name(config.upper_keywords, crate::chars::lower_text(p)), mods, extras, zone)
    } else if k == "opt_type_modifiers"@ {
        (base, p, extras, zone)
    } else if k == "Iconst"@ {
        (base, "("@ + trim_of(node_text(chars, c)) + ")"@, extras, zone)
    } else if k == "expr_list"@ {
        (base, "("@ + p + ")"@, extras, zone)
    } else if k == "attrs"@ {
        (base + p, mods, extras, zone)
    } else if k == "opt_float"@ {
        if trim_of(node_text(chars, c)).len() > 0 { (base, node_text(chars, c), extras, zone) } else { st }
    } else if has_prefix(k, "kw_"@) {
        (base, mods, extras.push(cased(config, node_text(chars, c))), zone)
    } else if base.len() == 0 {
        (p, mods, extras, zone)
    } else {
        st
    }
}

/// The items `its` of a type name, with their pieces `ps`, read one after
/// the other.
pub open spec fn type_fold(config: crate::config::StyleConfig, chars: Seq<char>, its: Seq<SyntaxNode>,
    ps: Seq<Seq<char>>) -> TypeState
    decreases its.len(),
{
    if its.len() == 0 || ps.len() != its.len() {
        (Seq::empty(), Seq::empty(), Seq::empty(), Seq::empty())
    } else {
        type_step(config, chars, type_fold(config, chars, its.drop_last(), ps.drop_last()), its.last(), ps.last())
    }
}

/// The type name from the state after its last item.
pub open spec fn type_text(config: crate::config::StyleConfig, st: TypeState) -> Seq<char> {
    type_layout(cased(config, st.0), st.2, st.1, st.3)
}

/// `head`, then a space and `extras` joined by spaces (where there are any),
/// then `mods` directly, then a space and `zone` joined by spaces (where there
/// are any); no space is put at the very start.
pub open spec fn type_layout(head: Seq<char>, extras: Seq<Seq<char>>, mods: Seq<char>, zone: Seq<Seq<char>>) -> Seq<char> {
    let a = if extras.len() == 0 {
        head
    } else if head.len() == 0 {
        join_with(extras, seq![' '])
    } else {
        head + seq![' '] + join_with(extras, seq![' '])
    };
    let m = a + mods;
    if zone.len() == 0 {
        m
    } else if m.len() == 0 {
        join_with(zone, seq![' '])
    } else {
        m + seq![' '] + join_with(zone, seq![' '])
    }
}

/// `parts` with `p` attached to the last part (a field selector, the last
/// part parenthesised where it is not already; or a subscript after ARRAY),
/// or else pushed as a part of its own.
pub open spec fn attach_or_push(parts: Seq<Seq<char>>, p: Seq<char>) -> Seq<Seq<char>> {
    if parts.len() > 0 && has_prefix(p, "."@) {
        let l = parts.last();
        parts.drop_last().push((if has_prefix(l, "("@) && has_suffix(l, ")"@) { l } else { "("@ + l + ")"@ }) + p)
    } else if parts.len() > 0 && has_prefix(p, "["@) && (parts.last() == "ARRAY"@ || parts.last() == "array"@) {
        parts.drop_last().push(parts.last() + p)
    } else {
        parts.push(p)
    }
}

/// Where the pieces of an expression stand while its children are read: the
/// parts so far, the parts inside the open parenthesis, how deep the
/// parentheses are open, and whether a subquery laid out on lines was seen.
pub type CExprState = (Seq<Seq<char>>, Seq<Seq<char>>, nat, bool);

/// One child read, whose piece is `p` (its formatted text where it is
/// named, its trimmed text where it is a token).
pub open spec fn c_expr_step(st: CExprState, named: bool, subquery: bool, p: Seq<char>) -> CExprState {
    let (parts, inner, depth, block) = st;
    if named {
        let block2 = block || (subquery && has_prefix(p, "(\n"@));
        if depth > 0 {
            (parts, attach_or_push(inner, p), depth, block2)
        } else {
            (attach_or_push(parts, p), inner, depth, block2)
        }
    } else if p == "("@ {
        (parts, if depth > 0 { inner.push("("@) } else { inner }, depth + 1, block)
    } else if p == ")"@ && depth > 0 {
        if depth == 1 {
            let j = join_with(inner, " "@);
            let group = if inner.len() == 1 && !crate::strs::occurs_in(j, " "@) && !crate::strs::occurs_in(j, "\n"@) {
                j
            } else {
                "("@ + j + ")"@
            };
            (parts.push(group), Seq::empty(), 0, block)
        } else {
            (parts, inner.push(")"@), (depth - 1) as nat, block)
        }
    } else if p.len() > 0 {
        if depth > 0 { (parts, inner.push(p), depth, block) } else { (parts.push(p), inner, depth, block) }
    } else {
        st
    }
}

/// The piece `p` of a named child `c` where `c` is the EXISTS, ROW or ARRAY
/// keyword: that keyword in the style's case.
pub open spec fn keyword_piece(config: crate::config::StyleConfig, c: SyntaxNode, p: Seq<char>) -> bool {
    &&& (c.kind@ == "kw_exists"@ ==> p == cased(config, "EXISTS"@))
    &&& (c.kind@ == "kw_row"@ ==> p == cased(config, "ROW"@))
    &&& (c.kind@ == "kw_array"@ ==> p == cased(config, "ARRAY"@))
}

/// The children `cs`, with their pieces `ps`, read one after the other.
pub open spec fn c_expr_fold(cs: Seq<SyntaxNode>, ps: Seq<Seq<char>>) -> CExprState
    decreases cs.len(),
{
    if cs.len() == 0 || ps.len() != cs.len() {
        (Seq::empty(), Seq::empty(), 0, false)
    } else {
        c_expr_step(c_expr_fold(cs.drop_last(), ps.drop_last()), cs.last().named,
            cs.last().kind@ == "select_with_parens"@, ps.last())
    }
}

/// The expression's text from the state after its last child: a group
/// left open is closed off as `(` and its parts; the parts are then joined
/// by spaces where a subquery is laid out on lines, else with continuation
/// lines aligned under where each part starts (by spaces where the parts
/// are too long to measure).
pub open spec fn c_expr_text(st: CExprState) -> Seq<char> {
    let (parts, inner, depth, block) = st;
    let all = if depth > 0 { parts.push("("@ + join_with(inner, " "@)) } else { parts };
    if block {
        join_with(all, " "@)
    } else if total_chars(all) + all.len() <= usize::MAX / 8 {
        crate::expr::joined_with_indent(all)
    } else {
        join_with(all, " "@)
    }
}

/// `r` is `s` with each line squeezed, wherever every line of `s` is of a
/// size that the squeezing handles.
pub open spec fn squeezes_to(s: Seq<char>, r: Seq<char>) -> bool {
    (forall|k: int| 0 <= k < crate::text::lines_of(s).len() ==> small(#[trigger] crate::text::lines_of(s)[k]))
        ==> r == join_with(crate::text::lines_of(s).map_values(|l: Seq<char>| squeezed_line(l)), "\n"@)
}

/// A line with its leading whitespace kept and the rest squeezed.
pub open spec fn squeezed_line(l: Seq<char>) -> Seq<char> {
    let f = crate::stmt::first_non_ws_from(l, 0);
    l.take(f) + crate::expr::ws_quotes_from(l.skip(f), 0, false, false, false, false, Seq::empty())
}

/// `parts` one after the other.
pub open spec fn glued(parts: Seq<Seq<char>>) -> Seq<char>
    decreases parts.len(),
{
    if parts.len() == 0 {
        Seq::empty()
    } else {
        glued(parts.drop_last()) + parts.last()
    }
}

/// Where the first node of `s` of kind `a` or `b` stands, looking from `k`.
pub open spec fn first_of_either_from(s: Seq<SyntaxNode>, a: Seq<char>, b: Seq<char>, k: int) -> Option<int>
    decreases s.len() - k,
{
    if k < 0 || k >= s.len() {
        None
    } else if s[k].kind@ == a || s[k].kind@ == b {
        Some(k)
    } else {
        first_of_either_from(s, a, b, k + 1)
    }
}

/// Whether `s` is short enough for the character-level passes.
pub fn fits(s: &str) -> (r: bool)
    ensures
        r == small(s@),
{
    char_count(s) <= usize::MAX / 8
}

/// `s` with runs of dots outside double quotes collapsed to one dot.
pub fn dedot(s: &str) -> (r: String)
    ensures
        small(s@) ==> r@ == crate::expr::dots_from(s@, 0, false, false, Seq::empty()),
{
    if fits(s) {
        collapse_double_dots_outside_quotes(s)
    } else {
        owned(s)
    }
}

/// `s` with runs of whitespace outside quotes collapsed to one space.
pub fn squeeze(s: &str) -> (r: String)
    ensures
        small(s@) ==> r@ == crate::expr::ws_quotes_from(s@, 0, false, false, false, false, Seq::empty()),
{
    if fits(s) {
        collapse_whitespace_outside_quotes(s)
    } else {
        owned(s)
    }
}

/// Whether `s` holds whitespace outside brackets and quotes.
pub fn top_level_space(s: &str) -> (r: bool)
    ensures
        small(s@) ==> r == crate::expr::top_level_space_from(s@, 0, 0, false, false, false),
{
    if fits(s) {
        has_top_level_space(s)
    } else {
        false
    }
}

/// Whether the parts are short enough to be joined with indentation.
fn parts_fit(parts: &[String]) -> (r: bool)
    ensures
        r == (total_chars(string_views(parts@)) + parts@.len() <= usize::MAX / 8),
{
    let mut t: usize = 0;
    let mut k: usize = 0;
    while k < parts.len()
        invariant
            k <= parts@.len(),
            t == total_chars(string_views(parts@.take(k as int))) + k,
            t <= usize::MAX / 8,
        decreases parts.len() - k,
    {
        let n = char_count(parts[k].as_str());
        proof {
            crate::expr::lemma_total_chars_prefix(string_views(parts@), k as int);
            assert(string_views(parts@.take(k + 1)) =~= string_views(parts@).take(k + 1));
            assert(string_views(parts@.take(k as int)) =~= string_views(parts@).take(k as int));
        }
        if n > usize::MAX / 8 - t || n + 1 > usize::MAX / 8 - t {
            return false;
        }
        assert(string_views(parts@.take(k + 1)).drop_last() =~= string_views(parts@.take(k as int)));
        t = t + n + 1;
        k += 1;
    }
    assert(parts@.take(parts@.len() as int) =~= parts@);
    true
}

/// Join parts with spaces, indenting the continuation lines of a multi-line
/// part to the column where that part starts.
pub fn join_parts(parts: &[String]) -> (r: String)
    ensures
        total_chars(string_views(parts@)) + parts@.len() <= usize::MAX / 8
            ==> r@ == crate::expr::joined_with_indent(string_views(parts@)),
        total_chars(string_views(parts@)) + parts@.len() > usize::MAX / 8
            ==> r@ == join_with(string_views(parts@), " "@),
{
    if parts_fit(parts) {
        Formatter::join_with_multiline_indent(parts)
    } else {
        join(parts, " ")
    }
}

/// Append `tail` to the last of `parts`, if there is one.
pub fn append_last(parts: &mut Vec<String>, tail: &str)
    ensures
        final(parts)@.len() == old(parts)@.len(),
        old(parts)@.len() > 0 ==> final(parts)@.last()@ == old(parts)@.last()@ + tail@,
        forall|k: int| 0 <= k < old(parts)@.len() - 1 ==> final(parts)@[k] == old(parts)@[k],
{
    let n = parts.len();
    if n > 0 {
        let mut last = parts[n - 1].clone();
        push_str(&mut last, tail);
        parts.set(n - 1, last);
    }
}

/// `!=` spelled as `<>`; any other operator as it is.
pub fn normalize_op(op: &str) -> (r: String)
    ensures
        r@ == (if op@ == "!="@ { "<>"@ } else { op@ }),
{
    if same(op, "!=") {
        owned("<>")
    } else {
        owned(op)
    }
}

/// Whether every character of `s` is an ASCII digit.
pub fn all_digits(s: &str) -> (r: bool)
    ensures
        r == (forall|k: int| 0 <= k < s@.len() ==> crate::chars::is_ascii_digit_char(#[trigger] s@[k])),
{
    let c = crate::chars::chars_of(s);
    let mut k: usize = 0;
    while k < c.len()
        invariant
            k <= c@.len(),
            c@ == s@,
            forall|x: int| 0 <= x < k ==> crate::chars::is_ascii_digit_char(#[trigger] s@[x]),
        decreases c.len() - k,
    {
        if !is_ascii_digit(c[k]) {
            return false;
        }
        k += 1;
    }
    true
}

/// Whether `c` is the ELSE branch of a CASE expression with an expression
/// in it.
pub open spec fn is_case_default(c: SyntaxNode) -> bool {
    c.kind@ == "case_default"@ && exists|j: int| 0 <= j < c.children@.len() && #[trigger] c.children@[j].named
        && (c.children@[j].kind@ == "a_expr"@ || c.children@[j].kind@ == "c_expr"@
            || c.children@[j].kind@ == "a_expr_prec"@)
}

/// Whether a CASE expression has an ELSE branch.
pub open spec fn case_has_else(node: SyntaxNode) -> bool {
    exists|i: int| 0 <= i < named_of(node.children@).len() && is_case_default(#[trigger] named_of(node.children@)[i])
}

/// Whether `p` is what formatting the WHEN clause `item` with budget `b`
/// gives: its source text where the budget is spent, else text that opens
/// with the cased WHEN keyword where the clause does.
pub open spec fn when_formatted(config: crate::config::StyleConfig, chars: Seq<char>, item: SyntaxNode, b: nat,
    p: Seq<char>) -> bool {
    &&& b == 0 ==> p == node_text(chars, item)
    &&& b > 0 && named_of(item.children@).len() > 0 && named_of(item.children@)[0].kind@ == "kw_when"@
        ==> has_prefix(p, cased(config, "WHEN"@))
}

/// The WHEN clauses of a CASE expression whose named children are `ns`, in
/// order.
pub open spec fn case_when_items(ns: Seq<SyntaxNode>) -> Seq<SyntaxNode>
    decreases ns.len(),
{
    if ns.len() == 0 {
        Seq::empty()
    } else {
        case_when_items(ns.drop_last()) + if ns.last().kind@ == "when_clause_list"@ {
            flat_items(ns.last(), "when_clause_list"@)
        } else {
            Seq::empty()
        }
    }
}

/// Whether child `j` of `c` is an ASC or DESC keyword.
pub open spec fn direction_kw_at(c: SyntaxNode, j: int) -> bool {
    0 <= j < c.children@.len() && c.children@[j].named
        && (c.children@[j].kind@ == "kw_asc"@ || c.children@[j].kind@ == "kw_desc"@)
}

/// Whether a NULLS order names FIRST.
pub open spec fn nulls_first(c: SyntaxNode) -> bool {
    exists|j: int| 0 <= j < c.children@.len() && #[trigger] c.children@[j].named && c.children@[j].kind@ == "kw_first"@
}

/// Whether `q` is what the named child `c` of a sort key adds to it: one
/// piece for the key's expression; the cased ASC or DESC keyword where the
/// direction names one, else nothing; the cased NULLS FIRST or NULLS LAST for
/// a NULLS order; nothing for any other child.
pub open spec fn sortby_child_parts(config: crate::config::StyleConfig, chars: Seq<char>, c: SyntaxNode,
    q: Seq<Seq<char>>) -> bool {
    if c.kind@ == "a_expr"@ || c.kind@ == "c_expr"@ {
        q.len() == 1
    } else if c.kind@ == "opt_asc_desc"@ {
        (q.len() == 0 && !exists|j: int| direction_kw_at(c, j))
            || (q.len() == 1 && exists|j: int| direction_kw_at(c, j)
                && q[0] == cased(config, node_text(chars, c.children@[j])))
    } else if c.kind@ == "opt_nulls_order"@ {
        q == seq![cased(config, "NULLS"@),
            if nulls_first(c) {
                cased(config, "FIRST"@)
            } else {
                cased(config, "LAST"@)
            }]
    } else {
        q.len() == 0
    }
}

/// Whether `p` is what formatting the sort key `item` with budget `b` gives:
/// its source text where the budget is spent, else the pieces that its named
/// children add, in order, joined by single spaces.
pub open spec fn sortby_formatted(config: crate::config::StyleConfig, chars: Seq<char>, item: SyntaxNode, b: nat,
    p: Seq<char>) -> bool {
    if b == 0 {
        p == node_text(chars, item)
    } else {
        exists|qs: Seq<Seq<Seq<char>>>| #![trigger qs.flatten_alt()] qs.len() == named_of(item.children@).len()
            && (forall|j: int| 0 <= j < qs.len()
                ==> sortby_child_parts(config, chars, named_of(item.children@)[j], #[trigger] qs[j]))
            && p == join_with(qs.flatten_alt(), " "@)
    }
}

impl<'a> Formatter<'a> {
    /// The node's text, trimmed.
    pub(crate) fn trimmed_text(&self, node: &SyntaxNode) -> (r: String)
        ensures
            r@ == crate::stmt::trim_of(crate::config::node_text(self.chars@, *node)),
    {
        let t = self.text(node);
        trim(t.as_str())
    }

    /// A keyword node, cased as the style asks.
    pub(crate) fn format_keyword_node(&self, node: &SyntaxNode) -> (r: String)
        ensures
            r@ == crate::config::cased(self.config, crate::config::node_text(self.chars@, *node)),
    {
        let t = self.text(node);
        self.kw(t.as_str())
    }

    /// Format each of `items` as an expression.
    pub(crate) fn format_each(&self, items: &Vec<&SyntaxNode>, b: usize) -> (r: Vec<String>)
        ensures
            r@.len() == items@.len(),
        decreases b,
    {
        let mut out: Vec<String> = Vec::new();
        let mut k: usize = 0;
        while k < items.len()
            invariant
                k <= items@.len(),
                out@.len() == k,
            decreases items.len() - k,
        {
            let s = if b == 0 { self.text(items[k]) } else { self.format_expr(items[k], b - 1) };
            out.push(s);
            k += 1;
        }
        out
    }

    /// The items of the list `node` (flattened through `list_kind`), each
    /// formatted as an expression, joined with `", "`.
    pub(crate) fn format_list(&self, node: &SyntaxNode, list_kind: &str, b: usize) -> (r: String)
        ensures
            b == 0 ==> r@ == node_text(self.chars@, *node),
            b > 0 ==> exists|ps: Seq<Seq<char>>| ps.len() == flat_items(*node, list_kind@).len()
                && r@ == join_with(ps, ", "@),
        decreases b,
    {
        if b == 0 {
            return self.text(node);
        }
        let items = flatten_list(node, list_kind);
        let formatted = self.format_each(&items, b - 1);
        let r = join(&formatted, ", ");
        proof { assert(string_views(formatted@).len() == flat_items(*node, list_kind@).len()); }
        r
    }

    /// Format any expression node into inline SQL text.
    pub(crate) fn format_expr(&self, node: &SyntaxNode, b: usize) -> (r: String)
        decreases b,
    {
        if b == 0 {
            return self.text(node);
        }
        let d = b - 1;
        if node.is("a_expr") || node.is("b_expr") {
            self.format_a_expr(node, d)
        } else if node.is("a_expr_prec") {
            self.format_a_expr_prec(node, d)
        } else if node.is("c_expr") {
            self.format_c_expr(node, d)
        } else if node.is("columnref") {
            self.format_columnref(node, d)
        } else if node.is("AexprConst") {
            self.format_const(node, d)
        } else if node.is("func_expr") || node.is("func_application") {
            self.format_func(node, d)
        } else if node.is("case_expr") {
            self.format_case_expr(node, d)
        } else if node.is("target_el") {
            self.format_target_el(node, d)
        } else if node.is("Typename") {
            self.format_typename(node, d)
        } else if node.is("SimpleTypename") {
            self.format_simple_typename(node, d)
        } else if node.is("select_with_parens") {
            self.format_select_with_parens(node, d)
        } else if node.is("Sconst") || node.is("string_literal") {
            self.format_string_const(node)
        } else if node.is_any(&["Iconst", "integer_literal", "Fconst", "float_literal", "identifier",
            "unreserved_keyword", "ERROR"]) {
            self.text(node)
        } else if node.is("sortby") {
            self.format_sortby(node, d)
        } else if node.is_any(&["type_function_name", "ColLabel", "attr_name", "func_arg_expr", "group_by_item"]) {
            self.format_first_named_child(node, d)
        } else if node.is("ColId") {
            self.format_col_id(node, d)
        } else if node.is("qualified_name") || node.is("any_name") {
            self.format_qualified_name(node, d)
        } else if node.is("indirection") {
            self.format_indirection(node, d)
        } else if node.is("indirection_el") {
            self.format_indirection_el(node, d)
        } else if node.is("relation_expr") {
            self.format_relation_expr(node, d)
        } else if node.is("func_name") {
            self.format_func_name(node, d)
        } else if node.is("Numeric") || node.is("GenericType") {
            self.format_typename_inner(node, d)
        } else if node.is("expr_list") {
            self.format_list(node, "expr_list", d)
        } else if node.is("array_expr") {
            self.format_array_expr(node, d)
        } else if node.is("opt_alias_clause") || node.is("alias_clause") {
            self.format_alias(node, d)
        } else if node.kind_starts_with("kw_") {
            self.format_keyword_node(node)
        } else if node.named_child_count() == 0 {
            self.text(node)
        } else {
            self.format_first_named_child(node, d)
        }
    }

    /// The keyword that an operator-position keyword node stands for, cased.
    pub(crate) fn operator_keyword(&self, child: &SyntaxNode) -> (r: Option<String>)
        ensures
            r matches Some(w) ==> w@ == cased(self.config, crate::chars::upper_text(child.kind@.skip(3))),
            r is Some <==> child.kind@.len() >= 3 && kind_among(child.kind@, seq!["kw_and", "kw_or", "kw_not",
                "kw_is", "kw_null", "kw_true", "kw_false", "kw_in", "kw_any", "kw_all", "kw_some", "kw_like",
                "kw_ilike", "kw_between", "kw_exists", "kw_as"]),
    {
        if child.is_any(&["kw_and", "kw_or", "kw_not", "kw_is", "kw_null", "kw_true", "kw_false",
            "kw_in", "kw_any", "kw_all", "kw_some", "kw_like", "kw_ilike", "kw_between",
            "kw_exists", "kw_as"]) {
            let n = char_count(child.kind.as_str());
            if 3 <= n {
                let word = slice_chars(child.kind.as_str(), 3, n);
                proof { assert(word@ =~= child.kind@.skip(3)); }
                let upper = to_upper(word.as_str());
                return Some(self.kw(upper.as_str()));
            }
        }
        None
    }

    /// Format an `a_expr` node (the main expression type with operators).
    pub(crate) fn format_a_expr(&self, node: &SyntaxNode, b: usize) -> (r: String)
        decreases b,
    {
        if b == 0 {
            return self.text(node);
        }
        let d = b - 1;
        let mut parts: Vec<String> = Vec::new();
        // An inline expr_list (as in IN (...)) is parenthesized with its
        // items, so the unnamed parens around it are skipped.
        let has_expr_list = node.find_child("expr_list").is_some();
        let mut pending_cast = false;
        let mut i: usize = 0;
        while i < node.children.len()
            decreases node.children.len() - i,
        {
            let child = &node.children[i];
            i += 1;
            if child.named {
                if pending_cast {
                    // After `::` the next named child is a type name, glued to
                    // the previous part.
                    pending_cast = false;
                    let typename = self.format_expr(child, d);
                    let tail = concat(&["::", typename.as_str()]);
                    append_last(&mut parts, tail.as_str());
                } else if child.is("a_expr_prec") || child.is("a_expr") || child.is("c_expr") {
                    parts.push(self.format_expr(child, d));
                } else if let Some(k) = self.operator_keyword(child) {
                    parts.push(k);
                } else if child.is("select_with_parens") {
                    parts.push(self.format_select_with_parens(child, d));
                } else if child.is("in_expr") {
                    parts.push(self.format_in_expr(child, d));
                } else if child.is("expr_list") {
                    let inner = self.format_list(child, "expr_list", d);
                    parts.push(concat(&["(", inner.as_str(), ")"]));
                } else if child.is_any(&["qual_all_Op", "all_Op", "MathOp", "sub_type", "qual_Op"]) {
                    let op = self.trimmed_text(child);
                    parts.push(normalize_op(op.as_str()));
                } else if child.kind_starts_with("kw_") {
                    parts.push(self.format_keyword_node(child));
                } else {
                    parts.push(self.format_expr(child, d));
                }
            } else {
                // Unnamed children are operators like =, <, >, !=.
                let text = self.trimmed_text(child);
                if !text.as_str().is_empty() {
                    if same(text.as_str(), "::") {
                        pending_cast = true;
                    } else if has_expr_list && (same(text.as_str(), "(") || same(text.as_str(), ")")) {
                    } else {
                        parts.push(normalize_op(text.as_str()));
                    }
                }
            }
        }
        join_parts(&parts)
    }

    pub(crate) fn format_a_expr_prec(&self, node: &SyntaxNode, b: usize) -> (r: String)
        decreases b,
    {
        if b == 0 {
            return self.text(node);
        }
        let d = b - 1;
        let mut parts: Vec<String> = Vec::new();
        let mut pending_cast = false;
        let mut i: usize = 0;
        while i < node.children.len()
            decreases node.children.len() - i,
        {
            let child = &node.children[i];
            i += 1;
            if child.named {
                if pending_cast {
                    pending_cast = false;
                    let typename = self.format_expr(child, d);
                    let tail = concat(&["::", typename.as_str()]);
                    append_last(&mut parts, tail.as_str());
                } else {
                    parts.push(self.format_expr(child, d));
                }
            } else {
                let text = self.trimmed_text(child);
                if !text.as_str().is_empty() {
                    if same(text.as_str(), "::") {
                        pending_cast = true;
                    } else {
                        parts.push(normalize_op(text.as_str()));
                    }
                }
            }
        }
        join_parts(&parts)
    }

    /// One formatted named child of a `c_expr`.
    pub(crate) fn c_expr_piece(&self, child: &SyntaxNode, b: usize) -> (r: String)
        ensures
            b == 0 ==> r@ == node_text(self.chars@, *child),
            b > 0 && child.kind@ == "kw_exists"@ ==> r@ == cased(self.config, "EXISTS"@),
            b > 0 && child.kind@ == "kw_row"@ ==> r@ == cased(self.config, "ROW"@),
            b > 0 && child.kind@ == "kw_array"@ ==> r@ == cased(self.config, "ARRAY"@),
        decreases b,
    {
        if b == 0 {
            return self.text(child);
        }
        let d = b - 1;
        proof {
            reveal_strlit("columnref");
            reveal_strlit("AexprConst");
            reveal_strlit("func_expr");
            reveal_strlit("func_application");
            reveal_strlit("case_expr");
            reveal_strlit("select_with_parens");
            reveal_strlit("kw_exists");
            reveal_strlit("kw_row");
            reveal_strlit("kw_array");
            assert("columnref"@[0] == 'c' && "AexprConst"@[0] == 'A' && "func_expr"@[0] == 'f');
            assert("func_application"@[0] == 'f' && "case_expr"@[0] == 'c' && "select_with_parens"@[0] == 's');
            assert("kw_exists"@[0] == 'k' && "kw_row"@[0] == 'k' && "kw_array"@[0] == 'k');
            assert("kw_exists"@.len() == 9 && "kw_row"@.len() == 6 && "kw_array"@.len() == 8);
        }
        if child.is("columnref") {
            self.format_columnref(child, d)
        } else if child.is("AexprConst") {
            self.format_const(child, d)
        } else if child.is("func_expr") || child.is("func_application") {
            self.format_func(child, d)
        } else if child.is("case_expr") {
            self.format_case_expr(child, d)
        } else if child.is("select_with_parens") {
            self.format_select_with_parens(child, d)
        } else if child.is("kw_exists") {
            self.kw("EXISTS")
        } else if child.is("kw_row") {
            self.kw("ROW")
        } else if child.is("kw_array") {
            self.kw("ARRAY")
        } else if child.is("array_expr") {
            self.format_array_expr(child, d)
        } else if child.kind_starts_with("kw_") {
            self.format_keyword_node(child)
        } else {
            self.format_expr(child, d)
        }
    }

    /// Attach `formatted` to the last of `target` where it continues it: an
    /// array subscript after `ARRAY`, or a field selection `.name` (re-wrapping
    /// the base in parentheses unless it already is). Gives back whether it did.
    pub(crate) fn attach_to_last(target: &mut Vec<String>, formatted: &str) -> (r: bool)
        ensures
            r == (old(target)@.len() > 0 && (has_prefix(formatted@, "."@) || (has_prefix(formatted@, "["@)
                && (old(target)@.last()@ == "ARRAY"@ || old(target)@.last()@ == "array"@)))),
            final(target)@.len() == old(target)@.len(),
            forall|k: int| 0 <= k < old(target)@.len() - 1 ==> final(target)@[k] == old(target)@[k],
            !r ==> final(target)@ == old(target)@,
            r && has_prefix(formatted@, "["@) ==> final(target)@.last()@ == old(target)@.last()@ + formatted@,
            r && has_prefix(formatted@, "."@) ==> final(target)@.last()@ == (if has_prefix(old(target)@.last()@, "("@)
                && has_suffix(old(target)@.last()@, ")"@) {
                old(target)@.last()@
            } else {
                "("@ + old(target)@.last()@ + ")"@
            }) + formatted@,
    {
        proof {
            reveal_strlit("[");
            reveal_strlit(".");
            if has_prefix(formatted@, "["@) && has_prefix(formatted@, "."@) {
                assert(formatted@.take(1)[0] == "["@[0]);
                assert(formatted@.take(1)[0] == "."@[0]);
            }
        }
        let n = target.len();
        if n == 0 {
            return false;
        }
        if starts_with(formatted, "[") {
            let last = target[n - 1].clone();
            if same(last.as_str(), "ARRAY") || same(last.as_str(), "array") {
                append_last(target, formatted);
                return true;
            }
        }
        if starts_with(formatted, ".") {
            let last = target[n - 1].clone();
            let base = if !(starts_with(last.as_str(), "(") && ends_with(last.as_str(), ")")) {
                let w = concat(&["(", last.as_str(), ")"]);
                proof { reveal_with_fuel(crate::strs::concat_views, 4); assert(w@ =~= "("@ + last@ + ")"@); }
                w
            } else {
                last
            };
            let joined = concat(&[base.as_str(), formatted]);
            proof { reveal_with_fuel(crate::strs::concat_views, 3); assert(joined@ =~= base@ + formatted@); }
            target.set(n - 1, joined);
            return true;
        }
        false
    }

    /// `formatted` attached to the last of `target` where `attach_to_last`
    /// attaches it, else pushed.
    pub(crate) fn attach_or_push_to(target: &mut Vec<String>, formatted: String)
        ensures
            string_views(final(target)@) == attach_or_push(string_views(old(target)@), formatted@),
    {
        let ghost v0 = string_views(target@);
        let attached = Self::attach_to_last(target, formatted.as_str());
        proof {
            reveal_strlit("."); reveal_strlit("["); reveal_strlit("("); reveal_strlit(")");
            reveal_strlit("ARRAY"); reveal_strlit("array");
            if attached {
                assert(string_views(target@) =~= attach_or_push(v0, formatted@));
            }
        }
        if !attached {
            let ghost t0 = target@;
            target.push(formatted);
            proof {
                assert(string_views(target@) =~= string_views(t0).push(target@.last()@));
                assert(string_views(target@) =~= attach_or_push(v0, target@.last()@));
            }
        }
    }

    /// The expression's children read one after the other into pieces
    /// (`c_expr_fold`: a parenthesised group folded into one piece, field
    /// selectors and subscripts attached), the pieces joined (`c_expr_text`),
    /// then each line squeezed. The piece of each token child is its trimmed
    /// text; that of a named child its formatted text.
    #[verifier::rlimit(100)]
    #[verifier::spinoff_prover]
    pub(crate) fn format_c_expr(&self, node: &SyntaxNode, b: usize) -> (r: String)
        ensures
            b == 0 ==> r@ == node_text(self.chars@, *node),
            b > 0 ==> exists|ps: Seq<Seq<char>>| ps.len() == node.children@.len()
                && (forall|k: int| 0 <= k < ps.len() && !node.children@[k].named
                    ==> #[trigger] ps[k] == trim_of(node_text(self.chars@, node.children@[k])))
                && (forall|k: int| 0 <= k < ps.len() && node.children@[k].named && b > 1
                    ==> keyword_piece(self.config, node.children@[k], #[trigger] ps[k]))
                && #[trigger] squeezes_to(c_expr_text(c_expr_fold(node.children@, ps)), r@),
        decreases b,
    {
        if b == 0 {
            return self.text(node);
        }
        let d = b - 1;
        let mut parts: Vec<String> = Vec::new();
        let mut has_block_subquery = false;
        let mut paren_depth: usize = 0;
        let mut paren_parts: Vec<String> = Vec::new();
        let ghost mut ps: Seq<Seq<char>> = Seq::empty();
        proof {
            reveal_strlit("("); reveal_strlit(")"); reveal_strlit(" "); reveal_strlit("\n");
            reveal_strlit("(\n");
            assert(node.children@.take(0) =~= Seq::<SyntaxNode>::empty());
        }
        let mut i: usize = 0;
        while i < node.children.len()
            invariant
                i <= node.children@.len(),
                paren_depth <= i,
                ps.len() == i,
                forall|k: int| 0 <= k < i && !node.children@[k].named
                    ==> #[trigger] ps[k] == trim_of(node_text(self.chars@, node.children@[k])),
                forall|k: int| 0 <= k < i && node.children@[k].named && d > 0
                    ==> keyword_piece(self.config, node.children@[k], #[trigger] ps[k]),
                (string_views(parts@), string_views(paren_parts@), paren_depth as nat, has_block_subquery)
                    == c_expr_fold(node.children@.take(i as int), ps),
            decreases node.children.len() - i,
        {
            let ghost st0: CExprState = (string_views(parts@), string_views(paren_parts@), paren_depth as nat,
                has_block_subquery);
            let ghost at = i as int;
            let child = &node.children[i];
            i += 1;
            let ghost piece: Seq<char>;
            if child.named {
                let formatted = self.c_expr_piece(child, d);
                proof {
                    piece = formatted@;
                    if d > 0 { assert(keyword_piece(self.config, *child, piece)); }
                }
                if child.is("select_with_parens") && starts_with(formatted.as_str(), "(\n") {
                    has_block_subquery = true;
                }
                if paren_depth > 0 {
                    Self::attach_or_push_to(&mut paren_parts, formatted);
                } else {
                    Self::attach_or_push_to(&mut parts, formatted);
                }
            } else {
                let text = self.trimmed_text(child);
                proof { piece = text@; }
                if same(text.as_str(), "(") {
                    if paren_depth > 0 {
                        // A nested paren is kept as content.
                        paren_parts.push(owned("("));
                    }
                    paren_depth += 1;
                } else if same(text.as_str(), ")") && paren_depth > 0 {
                    paren_depth -= 1;
                    if paren_depth == 0 {
                        let inner = join(&paren_parts, " ");
                        // Redundant parens around a single simple expression
                        // are dropped.
                        if paren_parts.len() == 1 && !contains(inner.as_str(), " ")
                            && !contains(inner.as_str(), "\n") {
                            parts.push(inner);
                        } else {
                            let g = concat(&["(", inner.as_str(), ")"]);
                            proof { reveal_with_fuel(crate::strs::concat_views, 4); assert(g@ =~= "("@ + inner@ + ")"@); }
                            parts.push(g);
                        }
                        paren_parts = Vec::new();
                    } else {
                        paren_parts.push(owned(")"));
                    }
                } else if !text.as_str().is_empty() {
                    if paren_depth > 0 {
                        paren_parts.push(text);
                    } else {
                        parts.push(text);
                    }
                }
            }
            proof {
                let cs = node.children@;
                assert(cs.take(at + 1).drop_last() =~= cs.take(at));
                assert(ps.push(piece).drop_last() =~= ps);
                assert(cs.take(at + 1).last() == cs[at]);
                assert((string_views(parts@), string_views(paren_parts@), paren_depth as nat, has_block_subquery)
                    =~~= c_expr_step(st0, cs[at].named, cs[at].kind@ == "select_with_parens"@, piece));
                ps = ps.push(piece);
            }
        }
        proof { assert(node.children@.take(node.children@.len() as int) =~= node.children@); }
        let ghost st1: CExprState = (string_views(parts@), string_views(paren_parts@), paren_depth as nat,
            has_block_subquery);
        if paren_depth > 0 {
            let inner = join(&paren_parts, " ");
            let g = concat(&["(", inner.as_str()]);
            proof { reveal_with_fuel(crate::strs::concat_views, 3); assert(g@ =~= "("@ + inner@); }
            parts.push(g);
        }
        let result = if has_block_subquery {
            join(&parts, " ")
        } else {
            join_parts(&parts)
        };
        let r = squeeze_lines(result.as_str());
        proof {
            let all = string_views(parts@);
            if st1.2 > 0 {
                assert(all =~= st1.0.push("("@ + join_with(st1.1, " "@)));
            } else {
                assert(all =~= st1.0);
            }
            assert(result@ == c_expr_text(st1));
            assert(squeezes_to(result@, r@));
        }
        r
    }

    pub(crate) fn format_columnref(&self, node: &SyntaxNode, b: usize) -> (r: String)
        ensures
            b == 0 ==> r@ == node_text(self.chars@, *node),
            b > 0 ==> exists|ps: Seq<Seq<char>>| ps.len() == named_of(node.children@).len()
                && r@ == join_with(ps, ""@),
        decreases b,
    {
        if b == 0 {
            return self.text(node);
        }
        let d = b - 1;
        let named = node.named_children();
        let mut parts: Vec<String> = Vec::new();
        let mut k: usize = 0;
        while k < named.len()
            invariant
                k <= named@.len(),
                named@.map_values(|c: &SyntaxNode| *c) == named_of(node.children@),
                parts@.len() == k,
            decreases named.len() - k,
        {
            let child = named[k];
            k += 1;
            if child.is("ColId") {
                parts.push(self.format_col_id(child, d));
            } else if child.is("indirection") {
                parts.push(self.format_indirection(child, d));
            } else {
                parts.push(self.format_expr(child, d));
            }
        }
        let r = join(&parts, "");
        proof { assert(string_views(parts@).len() == named_of(node.children@).len()); }
        r
    }

    pub(crate) fn format_col_id(&self, node: &SyntaxNode, b: usize) -> (r: String)
        ensures
            b == 0 ==> r@ == node_text(self.chars@, *node),
            b > 0 ==> match first_named(*node) {
                None => r@ == node_text(self.chars@, *node),
                Some(c) => (c.kind@ == "identifier"@ ==> r@ == node_text(self.chars@, c))
                    && (c.kind@ == "unreserved_keyword"@ ==> r@ == (if first_named(c) matches Some(k)
                        && k.kind@ == "kw_value"@ { "value"@ } else { node_text(self.chars@, c) })),
            },
        decreases b,
    {
        if b == 0 {
            return self.text(node);
        }
        let d = b - 1;
        proof {
            reveal_strlit("identifier");
            reveal_strlit("unreserved_keyword");
            assert("identifier"@.len() == 10);
            assert("unreserved_keyword"@.len() == 18);
        }
        match node.first_named_child() {
            Some(child) => {
                proof { lemma_found_named(*node, *child); }
                if child.is("identifier") {
                    self.text(child)
                } else if child.is("unreserved_keyword") {
                    // Pseudo-variables like VALUE in a domain CHECK are
                    // lowercased whatever the keyword casing.
                    match child.first_named_child() {
                        Some(kw) => {
                            proof { lemma_found_named(*child, *kw); }
                            if kw.is("kw_value") {
                                owned("value")
                            } else {
                                self.text(child)
                            }
                        },
                        None => {
                            proof { lemma_no_named(*child); }
                            self.text(child)
                        },
                    }
                } else {
                    self.format_expr(child, d)
                }
            },
            None => {
                proof { lemma_no_named(*node); }
                self.text(node)
            },
        }
    }

    pub(crate) fn format_indirection(&self, node: &SyntaxNode, b: usize) -> (r: String)
        ensures
            b == 0 ==> r@ == node_text(self.chars@, *node),
            b > 0 ==> exists|ps: Seq<Seq<char>>| ps.len() == named_of(node.children@).len() && r@ == glued(ps),
            b > 0 && named_of(node.children@).len() == 0 ==> r@.len() == 0,
        decreases b,
    {
        if b == 0 {
            return self.text(node);
        }
        let d = b - 1;
        let named = node.named_children();
        let mut result = String::new();
        let ghost mut ps: Seq<Seq<char>> = Seq::empty();
        let mut k: usize = 0;
        while k < named.len()
            invariant
                k <= named@.len(),
                named@.map_values(|c: &SyntaxNode| *c) == named_of(node.children@),
                ps.len() == k,
                result@ == glued(ps),
            decreases named.len() - k,
        {
            let el = self.format_indirection_el(named[k], d);
            proof {
                assert(ps.push(el@).drop_last() =~= ps);
                ps = ps.push(el@);
            }
            push_str(&mut result, el.as_str());
            k += 1;
        }
        result
    }

    pub(crate) fn format_indirection_el(&self, node: &SyntaxNode, b: usize) -> (r: String)
        ensures
            b == 0 ==> r@ == node_text(self.chars@, *node),
            b > 0 ==> exists|ps: Seq<Seq<char>>| ps.len() == node.children@.len() && r@ == glued(ps)
                && forall|i: int| 0 <= i < ps.len() && !node.children@[i].named
                    ==> #[trigger] ps[i] == node_text(self.chars@, node.children@[i]),
        decreases b,
    {
        if b == 0 {
            return self.text(node);
        }
        let d = b - 1;
        let mut result = String::new();
        let ghost mut ps: Seq<Seq<char>> = Seq::empty();
        let mut i: usize = 0;
        while i < node.children.len()
            invariant
                i <= node.children@.len(),
                ps.len() == i,
                result@ == glued(ps),
                forall|x: int| 0 <= x < ps.len() && !node.children@[x].named
                    ==> #[trigger] ps[x] == node_text(self.chars@, node.children@[x]),
            decreases node.children.len() - i,
        {
            let child = &node.children[i];
            i += 1;
            let piece = if child.named { self.format_expr(child, d) } else { self.text(child) };
            proof {
                assert(ps.push(piece@).drop_last() =~= ps);
                ps = ps.push(piece@);
            }
            push_str(&mut result, piece.as_str());
        }
        result
    }

    pub(crate) fn format_const(&self, node: &SyntaxNode, b: usize) -> (r: String)
        ensures
            b == 0 ==> r@ == node_text(self.chars@, *node),
            b > 0 && named_of(node.children@).len() == 1 ==> {
                let c = named_of(node.children@)[0];
                &&& (c.kind@ == "kw_true"@ ==> r@ == cased(self.config, "TRUE"@))
                &&& (c.kind@ == "kw_false"@ ==> r@ == cased(self.config, "FALSE"@))
                &&& (c.kind@ == "kw_null"@ ==> r@ == cased(self.config, "NULL"@))
                &&& (c.kind@ == "Iconst"@ || c.kind@ == "integer_literal"@ ==> r@ == node_text(self.chars@, c))
            },
        decreases b,
    {
        if b == 0 {
            return self.text(node);
        }
        let d = b - 1;
        let named = node.named_children();
        // A single named child is a plain literal or a boolean/null keyword.
        if named.len() == 1 {
            proof {
                assert(named_of(node.children@)[0] == *named@[0]);
                reveal_strlit("Sconst");
                reveal_strlit("string_literal");
                reveal_strlit("Iconst");
                reveal_strlit("integer_literal");
                reveal_strlit("kw_true");
                reveal_strlit("kw_false");
                reveal_strlit("kw_null");
                assert("Sconst"@[0] == 'S' && "string_literal"@.len() == 14 && "Iconst"@[0] == 'I');
                assert("integer_literal"@.len() == 15 && "kw_true"@[3] == 't' && "kw_null"@[3] == 'n');
                assert("kw_true"@.len() == 7 && "kw_false"@.len() == 8 && "kw_null"@.len() == 7);
                assert("Sconst"@.len() == 6 && "Iconst"@.len() == 6);
                reveal_strlit("Fconst");
                reveal_strlit("float_literal");
                assert("Fconst"@.len() == 6 && "Fconst"@[0] == 'F' && "float_literal"@.len() == 13);
            }
            let child = named[0];
            return if child.is("Sconst") || child.is("string_literal") {
                self.format_string_const(child)
            } else if child.is_any(&["Iconst", "integer_literal", "Fconst", "float_literal"]) {
                self.text(child)
            } else if child.is("kw_true") {
                self.kw("TRUE")
            } else if child.is("kw_false") {
                self.kw("FALSE")
            } else if child.is("kw_null") {
                self.kw("NULL")
            } else if child.kind_starts_with("kw_") {
                self.format_keyword_node(child)
            } else {
                self.format_expr(child, d)
            };
        }
        // Several children: a typed string literal such as `INTERVAL '2 days'`,
        // `DATE '2020-01-01'`, `INTERVAL '2' DAY` or `INTERVAL(6) '2 days'`.
        if named.len() > 0 {
            let mut result = String::new();
            let mut i: usize = 0;
            while i < node.children.len()
                decreases node.children.len() - i,
            {
                let child = &node.children[i];
                i += 1;
                if child.named {
                    if child.is("Sconst") || child.is("string_literal") {
                        push_char(&mut result, ' ');
                        let s = self.format_string_const(child);
                        push_str(&mut result, s.as_str());
                    } else if child.is("Iconst") || child.is("integer_literal") {
                        let s = self.text(child);
                        push_str(&mut result, s.as_str());
                    } else if child.is("opt_interval") {
                        push_char(&mut result, ' ');
                        let s = self.format_opt_interval(child, d);
                        push_str(&mut result, s.as_str());
                    } else {
                        let s = self.format_expr(child, d);
                        push_str(&mut result, s.as_str());
                    }
                } else {
                    let t = self.trimmed_text(child);
                    if same(t.as_str(), "(") {
                        push_char(&mut result, '(');
                    } else if same(t.as_str(), ")") {
                        push_char(&mut result, ')');
                    }
                }
            }
            return result;
        }
        self.text(node)
    }

    /// Format an interval qualifier, e.g. `DAY` or `HOUR TO MINUTE`.
    pub(crate) fn format_opt_interval(&self, node: &SyntaxNode, b: usize) -> (r: String)
        ensures
            b == 0 ==> r@ == node_text(self.chars@, *node),
            b > 0 && named_of(node.children@).len() == 0 ==> r@ == trim_of(node_text(self.chars@, *node)),
            b > 0 && named_of(node.children@).len() > 0 ==> exists|ps: Seq<Seq<char>>|
                ps.len() == named_of(node.children@).len() && r@ == join_with(ps, " "@),
        decreases b,
    {
        if b == 0 {
            return self.text(node);
        }
        let named = node.named_children();
        if named.len() == 0 {
            return self.trimmed_text(node);
        }
        let parts = self.format_each(&named, b - 1);
        let r = join(&parts, " ");
        proof { assert(string_views(parts@).len() == named_of(node.children@).len()); }
        r
    }

    pub(crate) fn format_string_const(&self, node: &SyntaxNode) -> (r: String)
        ensures
            forall|i: int| #[trigger] first_of_kind_at(*node, i, "string_literal"@)
                ==> r@ == node_text(self.chars@, node.children@[i]),
            !(exists|i: int| 0 <= i < node.children@.len() && #[trigger] node.children@[i].named
                && node.children@[i].kind@ == "string_literal"@) ==> r@ == node_text(self.chars@, *node),
    {
        match node.find_child("string_literal") {
            Some(child) => {
                let ghost i0 = choose|i: int| first_of_kind_at(*node, i, "string_literal"@) && *child == #[trigger] node.children@[i];
                proof {
                    assert forall|i: int| #[trigger] first_of_kind_at(*node, i, "string_literal"@) implies i == i0 by {
                        if i < i0 { assert(!(node.children@[i].named && node.children@[i].kind@ == "string_literal"@)); }
                        if i0 < i { assert(!(node.children@[i0].named && node.children@[i0].kind@ == "string_literal"@)); }
                    }
                }
                self.text(child)
            },
            None => {
                proof {
                    assert forall|i: int| #[trigger] first_of_kind_at(*node, i, "string_literal"@) implies false by {
                        assert(!(node.children@[i].named && node.children@[i].kind@ == "string_literal"@));
                    }
                }
                self.text(node)
            },
        }
    }

    pub(crate) fn format_func(&self, node: &SyntaxNode, b: usize) -> (r: String)
        decreases b,
    {
        if b == 0 {
            return self.text(node);
        }
        let d = b - 1;
        if node.is("func_expr") {
            if let Some(app) = node.find_child("func_application") {
                let mut result = self.format_func(app, d);
                // Trailing clauses in grammar order: WITHIN GROUP, FILTER,
                // RESPECT/IGNORE NULLS, OVER.
                if let Some(wg) = node.find_child("within_group_clause") {
                    let s = self.format_within_group_clause(wg, d);
                    push_char(&mut result, ' ');
                    push_str(&mut result, s.as_str());
                }
                if let Some(filter) = node.find_child("filter_clause") {
                    let s = self.format_filter_clause(filter, d);
                    push_char(&mut result, ' ');
                    push_str(&mut result, s.as_str());
                }
                if let Some(nt) = node.find_child("null_treatment") {
                    let s = self.format_null_treatment(nt);
                    push_char(&mut result, ' ');
                    push_str(&mut result, s.as_str());
                }
                if let Some(over) = node.find_child("over_clause") {
                    let s = self.format_over_clause(over, d);
                    push_char(&mut result, ' ');
                    push_str(&mut result, s.as_str());
                }
                return result;
            }
            self.format_func_expr_common(node, d)
        } else if node.is("func_application") {
            self.format_func_application(node, d)
        } else {
            self.text(node)
        }
    }

    pub(crate) fn format_func_application(&self, node: &SyntaxNode, b: usize) -> (r: String)
        decreases b,
    {
        if b == 0 {
            return self.text(node);
        }
        let d = b - 1;
        let name = match node.find_child("func_name") {
            Some(n) => self.format_func_name(n, d),
            None => String::new(),
        };
        let mut args = String::new();
        let mut has_star = false;
        let mut has_distinct = false;
        let mut over_clause: Option<&SyntaxNode> = None;
        let mut i: usize = 0;
        while i < node.children.len()
            decreases node.children.len() - i,
        {
            let child = &node.children[i];
            i += 1;
            if !child.named {
                let text = self.text(child);
                if same(text.as_str(), "*") {
                    has_star = true;
                }
            } else if child.is("func_arg_list") {
                args = self.format_list(child, "func_arg_list", d);
            } else if child.is("distinct_clause") || child.is("kw_distinct") {
                has_distinct = true;
            } else if child.is("over_clause") {
                over_clause = Some(child);
            }
        }
        // Keyword casing applies to built-in function names only.
        let cased_name = if is_sql_builtin_function(name.as_str()) {
            self.kw(name.as_str())
        } else {
            name
        };
        let inner = if has_star {
            owned("*")
        } else if has_distinct {
            let k = self.kw("DISTINCT");
            concat(&[k.as_str(), " ", args.as_str()])
        } else {
            args
        };
        // ANY, ALL and SOME take a space before the opening paren.
        let lower = to_lower(cased_name.as_str());
        let space = if same(lower.as_str(), "any") || same(lower.as_str(), "all") || same(lower.as_str(), "some") {
            " "
        } else {
            ""
        };
        let mut result = concat(&[cased_name.as_str(), space, "(", inner.as_str(), ")"]);
        if let Some(over) = over_clause {
            let s = self.format_over_clause(over, d);
            push_char(&mut result, ' ');
            push_str(&mut result, s.as_str());
        }
        result
    }

    pub(crate) fn format_func_expr_common(&self, node: &SyntaxNode, b: usize) -> (r: String)
        decreases b,
    {
        if b == 0 {
            return self.text(node);
        }
        let d = b - 1;
        let subexpr = match node.find_child("func_expr_common_subexpr") {
            Some(s) => s,
            None => node,
        };
        // CAST(expr AS type) becomes expr::type, the operand parenthesized
        // when it has an operator at top level (`::` binds tighter).
        if subexpr.has_child("kw_cast") {
            if let Some(expr) = subexpr.find_child_any(&["a_expr", "c_expr"]) {
                if let Some(typename) = subexpr.find_child("Typename") {
                    let formatted = self.format_expr(expr, d);
                    let t = self.format_typename(typename, d);
                    return if top_level_space(formatted.as_str()) {
                        concat(&["(", formatted.as_str(), ")::", t.as_str()])
                    } else {
                        concat(&[formatted.as_str(), "::", t.as_str()])
                    };
                }
            }
        }
        // COALESCE, GREATEST, LEAST, NULLIF and the like: KEYWORD(args).
        if let Some(expr_list) = subexpr.find_child("expr_list") {
            let items = flatten_list(expr_list, "expr_list");
            let mut formatted = self.format_each(&items, d);
            // Merge decimal fragments split by ERROR nodes ("0" + ".00").
            let mut i: usize = 0;
            while formatted.len() > 1 && i < formatted.len() - 1
                invariant
                    i <= formatted@.len(),
                decreases formatted.len() - i,
            {
                let a = formatted[i].clone();
                let c = formatted[i + 1].clone();
                let n = char_count(c.as_str());
                if all_digits(a.as_str()) && starts_with(c.as_str(), ".") && n >= 1
                    && all_digits(slice_chars(c.as_str(), 1, n).as_str()) {
                    let merged = concat(&[a.as_str(), c.as_str()]);
                    formatted.set(i, merged);
                    formatted.remove(i + 1);
                } else {
                    i += 1;
                }
            }
            let mut name = String::new();
            let named = subexpr.named_children();
            let mut k: usize = 0;
            while k < named.len()
                decreases named.len() - k,
            {
                let child = named[k];
                k += 1;
                if child.kind_starts_with("kw_") {
                    name = self.format_keyword_node(child);
                    break;
                }
            }
            let args = join(&formatted, ", ");
            return concat(&[name.as_str(), "(", args.as_str(), ")"]);
        }
        // Other forms (CURRENT_TIMESTAMP and the like).
        let mut parts: Vec<String> = Vec::new();
        let mut i: usize = 0;
        while i < subexpr.children.len()
            decreases subexpr.children.len() - i,
        {
            let child = &subexpr.children[i];
            i += 1;
            if child.named {
                if child.is("func_application") {
                    return self.format_func(child, d);
                } else if child.kind_starts_with("kw_") {
                    parts.push(self.format_keyword_node(child));
                } else {
                    parts.push(self.format_expr(child, d));
                }
            } else {
                let text = self.trimmed_text(child);
                if same(text.as_str(), ")") && parts.len() > 0 && same(parts[parts.len() - 1].as_str(), "(") {
                    // An empty argument list stays tight: `MERGE_ACTION()`.
                    parts.pop();
                    append_last(&mut parts, "()");
                } else if !text.as_str().is_empty() {
                    parts.push(text);
                }
            }
        }
        join(&parts, " ")
    }

    pub(crate) fn format_func_name(&self, node: &SyntaxNode, b: usize) -> (r: String)
        ensures
            b == 0 ==> r@ == node_text(self.chars@, *node),
            b > 0 ==> exists|ps: Seq<Seq<char>>| ps.len() == named_of(node.children@).len()
                && r@ == join_with(ps, ""@),
        decreases b,
    {
        if b == 0 {
            return self.text(node);
        }
        let d = b - 1;
        let named = node.named_children();
        let mut parts: Vec<String> = Vec::new();
        let mut k: usize = 0;
        while k < named.len()
            invariant
                k <= named@.len(),
                named@.map_values(|c: &SyntaxNode| *c) == named_of(node.children@),
                parts@.len() == k,
            decreases named.len() - k,
        {
            let child = named[k];
            k += 1;
            if child.is("type_function_name") {
                parts.push(self.format_first_named_child(child, d));
            } else if child.is("ColId") {
                parts.push(self.format_col_id(child, d));
            } else if child.is("indirection") {
                parts.push(self.format_indirection(child, d));
            } else {
                parts.push(self.format_expr(child, d));
            }
        }
        let r = join(&parts, "");
        proof { assert(string_views(parts@).len() == named_of(node.children@).len()); }
        r
    }

    /// Format a `WITHIN GROUP (ORDER BY ...)` clause.
    pub(crate) fn format_within_group_clause(&self, node: &SyntaxNode, b: usize) -> (r: String)
        ensures
            b == 0 ==> r@ == node_text(self.chars@, *node),
            b > 0 ==> has_prefix(r@, cased(self.config, "WITHIN"@) + seq![' '] + cased(self.config, "GROUP"@)
                + seq![' ', '(']) && has_suffix(r@, seq![')']),
        decreases b,
    {
        if b == 0 {
            return self.text(node);
        }
        let order = match node.find_child("sort_clause") {
            Some(sc) => self.format_sort_clause_inline(sc, b - 1),
            None => String::new(),
        };
        let k = self.kw_pair("WITHIN", "GROUP");
        let r = concat(&[k.as_str(), " (", order.as_str(), ")"]);
        proof {
            reveal_with_fuel(crate::strs::concat_views, 5);
            reveal_strlit(" ("); reveal_strlit(")");
            assert(r@ == (k@ + seq![' ', '(']) + order@ + seq![')']);
            lemma_wraps(k@ + seq![' ', '('], order@, seq![')']);
        }
        r
    }

    /// Format a `FILTER (WHERE <condition>)` clause.
    pub(crate) fn format_filter_clause(&self, node: &SyntaxNode, b: usize) -> (r: String)
        ensures
            b == 0 ==> r@ == node_text(self.chars@, *node),
            b > 0 ==> has_prefix(r@, cased(self.config, "FILTER"@) + seq![' ', '('] + cased(self.config, "WHERE"@)
                + seq![' ']) && has_suffix(r@, seq![')']),
        decreases b,
    {
        if b == 0 {
            return self.text(node);
        }
        let cond = match node.find_child_any(&["a_expr", "c_expr"]) {
            Some(e) => self.format_expr(e, b - 1),
            None => String::new(),
        };
        let f = self.kw("FILTER");
        let w = self.kw("WHERE");
        let r = concat(&[f.as_str(), " (", w.as_str(), " ", cond.as_str(), ")"]);
        proof {
            reveal_with_fuel(crate::strs::concat_views, 7);
            reveal_strlit(" ("); reveal_strlit(")"); reveal_strlit(" ");
            let pre = f@ + seq![' ', '('] + w@ + seq![' '];
            assert(r@ == pre + cond@ + seq![')']);
            lemma_wraps(pre, cond@, seq![')']);
        }
        r
    }

    /// Format `RESPECT NULLS` or `IGNORE NULLS`.
    pub(crate) fn format_null_treatment(&self, node: &SyntaxNode) -> (r: String)
        ensures
            r@ == (if (exists|i: int| 0 <= i < node.children@.len() && #[trigger] node.children@[i].named
                && node.children@[i].kind@ == "kw_ignore"@) { cased(self.config, "IGNORE"@) } else { cased(self.config, "RESPECT"@) })
                + seq![' '] + cased(self.config, "NULLS"@),
    {
        let leading = if node.has_child("kw_ignore") { self.kw("IGNORE") } else { self.kw("RESPECT") };
        let n = self.kw("NULLS");
        let r = concat(&[leading.as_str(), " ", n.as_str()]);
        proof {
            reveal_with_fuel(crate::strs::concat_views, 4);
            reveal_strlit(" ");
        }
        r
    }

    pub(crate) fn format_over_clause(&self, node: &SyntaxNode, b: usize) -> (r: String)
        ensures
            b == 0 ==> r@ == node_text(self.chars@, *node),
            b > 0 ==> has_prefix(r@, cased(self.config, "OVER"@) + seq![' ']),
            b > 0 && !(exists|i: int| 0 <= i < node.children@.len() && #[trigger] node.children@[i].named
                && node.children@[i].kind@ == "ColId"@) ==> has_prefix(r@, cased(self.config, "OVER"@) + seq![' ', '('])
                && has_suffix(r@, seq![')']),
        decreases b,
    {
        if b == 0 {
            return self.text(node);
        }
        let d = b - 1;
        let over = self.kw("OVER");
        proof { reveal_with_fuel(crate::strs::concat_views, 5); reveal_strlit(" ("); reveal_strlit(")"); reveal_strlit(" "); }
        // An inline window specification stays parenthesized.
        if let Some(spec) = node.find_child("window_specification") {
            let body = self.format_window_spec_body(spec, d);
            let r = concat(&[over.as_str(), " (", body.as_str(), ")"]);
            proof {
                assert(r@ == (over@ + seq![' ', '(']) + body@ + seq![')']);
                lemma_wraps(over@ + seq![' ', '('], body@, seq![')']);
                lemma_wraps(over@ + seq![' '], seq!['('] + body@, seq![')']);
                assert(r@ == (over@ + seq![' ']) + (seq!['('] + body@) + seq![')']);
            }
            return r;
        }
        // `OVER window_name` names a window of the WINDOW clause; it keeps
        // its bare form.
        if let Some(name) = node.find_child("ColId") {
            let n = self.format_expr(name, d);
            let r = concat(&[over.as_str(), " ", n.as_str()]);
            proof {
                assert(r@ == (over@ + seq![' ']) + n@ + Seq::<char>::empty());
                lemma_wraps(over@ + seq![' '], n@, Seq::<char>::empty());
            }
            return r;
        }
        let body = self.format_window_spec_body(node, d);
        let r = concat(&[over.as_str(), " (", body.as_str(), ")"]);
        proof {
            assert(r@ == (over@ + seq![' ', '(']) + body@ + seq![')']);
            lemma_wraps(over@ + seq![' ', '('], body@, seq![')']);
            lemma_wraps(over@ + seq![' '], seq!['('] + body@, seq![')']);
            assert(r@ == (over@ + seq![' ']) + (seq!['('] + body@) + seq![')']);
        }
        r
    }

    /// The PARTITION BY / ORDER BY / frame contents of a window
    /// specification, without the parentheses.
    pub(crate) fn format_window_spec_body(&self, spec: &SyntaxNode, b: usize) -> (r: String)
        ensures
            b == 0 ==> r@ == node_text(self.chars@, *spec),
            b > 0 ==> exists|ps: Seq<Seq<char>>| ps.len() <= named_of(spec.children@).len()
                && r@ == join_with(ps, " "@),
        decreases b,
    {
        if b == 0 {
            return self.text(spec);
        }
        let d = b - 1;
        let named = spec.named_children();
        let mut inner: Vec<String> = Vec::new();
        let mut k: usize = 0;
        while k < named.len()
            invariant
                k <= named@.len(),
                named@.map_values(|c: &SyntaxNode| *c) == named_of(spec.children@),
                inner@.len() <= k,
            decreases named.len() - k,
        {
            let child = named[k];
            k += 1;
            if child.is("opt_partition_clause") {
                inner.push(self.format_partition_clause(child, d));
            } else if child.is("opt_sort_clause") || child.is("sort_clause") {
                inner.push(self.format_sort_clause_inline(child, d));
            } else if child.is("kw_over") {
            } else {
                inner.push(self.format_expr(child, d));
            }
        }
        let r = join(&inner, " ");
        proof { assert(string_views(inner@).len() == inner@.len()); }
        r
    }

    pub(crate) fn format_partition_clause(&self, node: &SyntaxNode, b: usize) -> (r: String)
        ensures
            b == 0 ==> r@ == node_text(self.chars@, *node),
            b > 0 ==> has_prefix(r@, cased(self.config, "PARTITION"@) + seq![' ']),
        decreases b,
    {
        if b == 0 {
            return self.text(node);
        }
        let mut parts: Vec<String> = Vec::new();
        let p = self.kw("PARTITION");
        let ghost pv = p@;
        parts.push(p);
        parts.push(self.kw("BY"));
        if let Some(list) = node.find_child("expr_list") {
            parts.push(self.format_list(list, "expr_list", b - 1));
        }
        let r = join(&parts, " ");
        proof {
            reveal_strlit(" ");
            assert(" "@ == seq![' ']);
            assert(string_views(parts@)[0] == pv);
            assert(string_views(parts@).len() >= 2);
            crate::strs::lemma_join_leads(string_views(parts@), " "@);
        }
        r
    }

    pub(crate) fn format_sort_clause_inline(&self, node: &SyntaxNode, b: usize) -> (r: String)
        ensures
            b == 0 ==> r@ == node_text(self.chars@, *node),
            b > 0 ==> has_prefix(r@, cased(self.config, "ORDER"@) + seq![' ']),
        decreases b,
    {
        if b == 0 {
            return self.text(node);
        }
        let d = b - 1;
        let actual = if node.is("opt_sort_clause") {
            match node.find_child("sort_clause") {
                Some(s) => s,
                None => node,
            }
        } else {
            node
        };
        let mut parts: Vec<String> = Vec::new();
        let o = self.kw("ORDER");
        let ghost ov = o@;
        parts.push(o);
        parts.push(self.kw("BY"));
        if let Some(list) = actual.find_child("sortby_list") {
            let items = flatten_list(list, "sortby_list");
            let mut formatted: Vec<String> = Vec::new();
            let mut k: usize = 0;
            while k < items.len()
                decreases items.len() - k,
            {
                formatted.push(self.format_sortby(items[k], d));
                k += 1;
            }
            parts.push(join(&formatted, ", "));
        }
        let r = join(&parts, " ");
        proof {
            reveal_strlit(" ");
            assert(" "@ == seq![' ']);
            assert(string_views(parts@)[0] == ov);
            crate::strs::lemma_join_leads(string_views(parts@), " "@);
        }
        r
    }

    pub(crate) fn format_sortby(&self, node: &SyntaxNode, b: usize) -> (r: String)
        ensures
            b == 0 ==> r@ == node_text(self.chars@, *node),
            b > 0 ==> exists|ps: Seq<Seq<char>>| ps.len() <= 2 * named_of(node.children@).len()
                && r@ == join_with(ps, " "@),
            sortby_formatted(self.config, self.chars@, *node, b as nat, r@),
        decreases b,
    {
        if b == 0 {
            return self.text(node);
        }
        let d = b - 1;
        let named = node.named_children();
        let ghost ns = named_of(node.children@);
        let ghost mut qs: Seq<Seq<Seq<char>>> = Seq::empty();
        let mut parts: Vec<String> = Vec::new();
        let mut k: usize = 0;
        while k < named.len()
            invariant
                k <= named@.len(),
                named@.map_values(|c: &SyntaxNode| *c) == ns,
                ns == named_of(node.children@),
                parts@.len() <= 2 * k,
                qs.len() == k,
                forall|j: int| 0 <= j < k ==> sortby_child_parts(self.config, self.chars@, ns[j], #[trigger] qs[j]),
                string_views(parts@) == qs.flatten_alt(),
            decreases named.len() - k,
        {
            proof { assert(ns[k as int] == *named@[k as int]); }
            let ghost p0 = string_views(parts@);
            let child = named[k];
            k += 1;
            if child.is("a_expr") || child.is("c_expr") {
                parts.push(self.format_expr(child, d));
                proof { assert(string_views(parts@).skip(p0.len() as int).len() == 1); }
            } else if child.is("opt_asc_desc") {
                let kinds = ["kw_asc", "kw_desc"];
                if let Some(kw) = child.find_child_any(&kinds) {
                    parts.push(self.format_keyword_node(kw));
                    proof {
                        let j = choose|j: int| 0 <= j < child.children@.len() && *kw == #[trigger] child.children@[j]
                            && kind_among(kw.kind@, kinds@)
                            && forall|x: int| 0 <= x < j ==> !(#[trigger] child.children@[x].named
                                && kind_among(child.children@[x].kind@, kinds@));
                        let kk = choose|kk: int| 0 <= kk < kinds@.len() && kw.kind@ == (#[trigger] kinds@[kk])@;
                        assert(kinds@[kk]@ == "kw_asc"@ || kinds@[kk]@ == "kw_desc"@);
                        assert(direction_kw_at(*child, j));
                        assert(string_views(parts@).skip(p0.len() as int)
                            =~= seq![cased(self.config, node_text(self.chars@, child.children@[j]))]);
                    }
                } else {
                    proof {
                        if exists|j: int| direction_kw_at(*child, j) {
                            let j = choose|j: int| direction_kw_at(*child, j);
                            let kk: int = if child.children@[j].kind@ == "kw_asc"@ { 0 } else { 1 };
                            assert(child.children@[j].kind@ == kinds@[kk]@);
                            assert(kind_among(child.children@[j].kind@, kinds@));
                        }
                        assert(string_views(parts@).skip(p0.len() as int) =~= Seq::<Seq<char>>::empty());
                    }
                }
            } else if child.is("opt_nulls_order") {
                parts.push(self.kw("NULLS"));
                if child.has_child("kw_first") {
                    parts.push(self.kw("FIRST"));
                } else {
                    parts.push(self.kw("LAST"));
                }
                proof {
                    let w = if nulls_first(*child) {
                        cased(self.config, "FIRST"@)
                    } else {
                        cased(self.config, "LAST"@)
                    };
                    assert(string_views(parts@).skip(p0.len() as int) =~= seq![cased(self.config, "NULLS"@), w]);
                }
            } else {
                proof { assert(string_views(parts@).skip(p0.len() as int) =~= Seq::<Seq<char>>::empty()); }
            }
            proof {
                let q = string_views(parts@).skip(p0.len() as int);
                assert(string_views(parts@) =~= p0 + q);
                assert(sortby_child_parts(self.config, self.chars@, ns[k - 1], q));
                let qs1 = qs.push(q);
                assert(qs1.drop_last() =~= qs);
                assert(qs1.flatten_alt() == qs.flatten_alt() + q);
                assert forall|j: int| 0 <= j < k implies sortby_child_parts(self.config, self.chars@, ns[j], #[trigger] qs1[j]) by {
                    if j < k - 1 { assert(qs1[j] == qs[j]); }
                }
                qs = qs1;
            }
        }
        let r = join(&parts, " ");
        proof {
            assert(string_views(parts@).len() == parts@.len());
            assert(named@.len() == ns.len());
            assert(r@ == join_with(qs.flatten_alt(), " "@));
        }
        r
    }

    pub(crate) fn format_case_expr(&self, node: &SyntaxNode, b: usize) -> (r: String)
        ensures
            b > 0 ==> has_suffix(r@, cased(self.config, "END"@)),
            b > 0 && case_has_else(*node) ==> (!self.config.wrap_case_else
                && exists|ps: Seq<Seq<char>>| #![trigger join_with(ps, " "@)] ps.len() >= 3 && r@ == join_with(ps, " "@)
                    && ps[0] == cased(self.config, "CASE"@) && ps.last() == cased(self.config, "END"@)
                    && has_prefix(ps[ps.len() - 2], cased(self.config, "ELSE"@) + seq![' ']))
                || (exists|ls: Seq<Seq<char>>| #![trigger join_with(ls, "\n"@)] ls.len() >= 2 && r@ == join_with(ls, "\n"@)
                    && ls.last() == seq![' '] + cased(self.config, "END"@)
                    && opens_with(ls[ls.len() - 2], cased(self.config, "ELSE"@) + seq![' '])),
            b > 0 && case_has_else(*node) ==> exists|ws: Seq<Seq<char>>| #![trigger ws.len()]
                ws.len() == case_when_items(named_of(node.children@)).len()
                && (forall|j: int| 0 <= j < ws.len() ==> when_formatted(self.config, self.chars@,
                    #[trigger] case_when_items(named_of(node.children@))[j], (b - 1) as nat, ws[j]))
                && ((exists|ps: Seq<Seq<char>>| #![trigger join_with(ps, " "@)] r@ == join_with(ps, " "@)
                    && ws.len() + 3 <= ps.len() <= ws.len() + 4
                    && ps.subrange(ps.len() - 2 - ws.len(), ps.len() - 2) == ws)
                || (exists|ls: Seq<Seq<char>>| #![trigger join_with(ls, "\n"@)] r@ == join_with(ls, "\n"@)
                    && ls.len() == ws.len() + 2
                    && forall|j: int| 0 <= j < ws.len() ==> has_suffix(#[trigger] ls[j], ws[j]))),
        decreases b,
    {
        if b == 0 {
            return self.text(node);
        }
        let d = b - 1;
        let case_kw = self.kw("CASE");
        let end_kw = self.kw("END");
        let mut case_arg: Option<String> = None;
        let mut when_clauses: Vec<String> = Vec::new();
        let mut else_parts: Option<String> = None;
        let named = node.named_children();
        let ghost ns = named_of(node.children@);
        let ghost else_lead = cased(self.config, "ELSE"@) + seq![' '];
        let mut k: usize = 0;
        while k < named.len()
            invariant
                k <= named@.len(),
                named@.map_values(|c: &SyntaxNode| *c) == ns,
                else_parts matches Some(ep) ==> has_prefix(ep@, else_lead),
                (exists|i: int| 0 <= i < k && is_case_default(#[trigger] ns[i])) ==> else_parts is Some,
                when_clauses@.len() == case_when_items(ns.take(k as int)).len(),
                forall|i: int| 0 <= i < when_clauses@.len() ==> when_formatted(self.config, self.chars@,
                    case_when_items(ns.take(k as int))[i], d as nat, #[trigger] when_clauses@[i]@),
            decreases named.len() - k,
        {
            proof { assert(ns[k as int] == *named@[k as int]); }
            let ghost k0 = k as int;
            let ghost wi0 = case_when_items(ns.take(k0));
            proof {
                assert(ns.take(k0 + 1).drop_last() =~= ns.take(k0));
                assert(ns.take(k0 + 1).last() == ns[k0]);
                reveal_strlit("case_arg");
                reveal_strlit("case_default");
                reveal_strlit("when_clause_list");
                assert("case_arg"@.len() == 8 && "case_default"@.len() == 12 && "when_clause_list"@.len() == 16);
            }
            let child = named[k];
            k += 1;
            if child.is("case_arg") {
                if let Some(expr) = child.find_child_any(&["a_expr", "c_expr"]) {
                    case_arg = Some(self.format_expr(expr, d));
                }
            } else if child.is("when_clause_list") {
                let clauses = flatten_list(child, "when_clause_list");
                let ghost fl = flat_items(*child, "when_clause_list"@);
                let mut j: usize = 0;
                while j < clauses.len()
                    invariant
                        j <= clauses@.len(),
                        crate::tree::node_views(clauses@) == fl,
                        when_clauses@.len() == wi0.len() + j,
                        forall|i: int| 0 <= i < when_clauses@.len() ==> when_formatted(self.config, self.chars@,
                            (wi0 + fl)[i], d as nat, #[trigger] when_clauses@[i]@),
                    decreases clauses.len() - j,
                {
                    proof { assert(fl[j as int] == *clauses@[j as int]); }
                    when_clauses.push(self.format_when_clause(clauses[j], d));
                    j += 1;
                }
                proof {
                    assert(case_when_items(ns.take(k0 + 1)) =~= wi0 + fl);
                    assert(when_clauses@.len() == wi0.len() + fl.len());
                }
            } else if child.is("case_default") {
                let kinds = ["a_expr", "c_expr", "a_expr_prec"];
                if let Some(expr) = child.find_child_any(&kinds) {
                    let e = self.kw("ELSE");
                    let x = self.format_expr(expr, d);
                    else_parts = Some(concat(&[e.as_str(), " ", x.as_str()]));
                    proof {
                        reveal_with_fuel(crate::strs::concat_views, 4);
                        reveal_strlit(" ");
                        let ep = else_parts.unwrap();
                        assert(ep@.take(else_lead.len() as int) =~= else_lead);
                    }
                } else {
                    proof {
                        if is_case_default(*child) {
                            let j = choose|j: int| 0 <= j < child.children@.len() && #[trigger] child.children@[j].named
                                && (child.children@[j].kind@ == "a_expr"@ || child.children@[j].kind@ == "c_expr"@
                                    || child.children@[j].kind@ == "a_expr_prec"@);
                            let kk: int = if child.children@[j].kind@ == "a_expr"@ { 0 }
                                else if child.children@[j].kind@ == "c_expr"@ { 1 } else { 2 };
                            assert(child.children@[j].kind@ == kinds@[kk]@);
                            assert(kind_among(child.children@[j].kind@, kinds@));
                        }
                    }
                }
            }
            proof {
                if ns[k0].kind@ != "when_clause_list"@ {
                    assert(case_when_items(ns.take(k0 + 1)) =~= wi0);
                }
                if exists|i: int| 0 <= i < k && is_case_default(#[trigger] ns[i]) {
                    let i = choose|i: int| 0 <= i < k && is_case_default(#[trigger] ns[i]);
                    if i < k0 {
                        assert(exists|i2: int| 0 <= i2 < k0 && is_case_default(#[trigger] ns[i2]));
                    } else {
                        assert(*child == ns[k0]);
                        reveal_strlit("case_default");
                        reveal_strlit("case_arg");
                        reveal_strlit("when_clause_list");
                        assert("case_default"@[5] != "case_arg"@[5]);
                        assert(child.kind@ == "case_default"@);
                        assert(else_parts is Some);
                    }
                }
            }
        }
        // The single-line form first.
        let mut inline_parts: Vec<String> = Vec::new();
        inline_parts.push(case_kw.clone());
        if let Some(arg) = &case_arg {
            inline_parts.push(arg.clone());
        }
        let ghost a = inline_parts@.len();
        proof { assert(named@.len() == k); assert(ns.take(k as int) =~= ns); }
        let mut j: usize = 0;
        while j < when_clauses.len()
            invariant
                1 <= a <= 2,
                j <= when_clauses@.len(),
                inline_parts@.len() == a + j,
                inline_parts@[0]@ == case_kw@,
                forall|i: int| 0 <= i < j ==> #[trigger] inline_parts@[a + i]@ == when_clauses@[i]@,
            decreases when_clauses.len() - j,
        {
            inline_parts.push(when_clauses[j].clone());
            j += 1;
        }
        let ghost before_else = inline_parts@.len();
        if let Some(ep) = &else_parts {
            inline_parts.push(ep.clone());
        }
        proof {
            if else_parts is Some {
                assert(inline_parts@.len() == before_else + 1);
                assert(has_prefix(inline_parts@.last()@, else_lead));
            }
        }
        let ghost else_at = inline_parts@.len() - 1;
        inline_parts.push(end_kw.clone());
        let single_line = join(&inline_parts, " ");
        proof {
            lemma_join_ends_with_last(string_views(inline_parts@), " "@);
            let ps = string_views(inline_parts@);
            if else_parts is Some {
                assert(ps.len() >= 3);
                assert(ps[ps.len() - 2] == inline_parts@[else_at]@);
                assert(ps[0] == case_kw@);
                let ws = string_views(when_clauses@);
                assert(ps.len() == a + ws.len() + 2);
                let sub = ps.subrange(a as int, (a + ws.len()) as int);
                assert forall|i: int| 0 <= i < ws.len() implies #[trigger] sub[i] == ws[i] by {
                    assert(sub[i] == ps[a + i]);
                    assert(inline_parts@[a + i]@ == when_clauses@[i]@);
                }
                assert(sub =~= ws);
                assert(ps.len() - 2 - ws.len() == a);
            }
        }
        // Wrap where the style wraps CASE with ELSE, or the line is long.
        let should_wrap = if self.config.wrap_case_else && else_parts.is_some() {
            true
        } else {
            single_line.as_str().len() > 120
        };
        if !should_wrap {
            return single_line;
        }
        // WHEN/ELSE aligned under the first WHEN, END indented one space.
        let prefix = match &case_arg {
            Some(arg) => concat(&[case_kw.as_str(), " ", arg.as_str(), " "]),
            None => concat(&[case_kw.as_str(), " "]),
        };
        let when_indent = spaces_str(prefix.as_str().len());
        let mut lines: Vec<String> = Vec::new();
        let mut j: usize = 0;
        while j < when_clauses.len()
            invariant
                j <= when_clauses@.len(),
                lines@.len() == j,
                forall|i: int| 0 <= i < j ==> has_suffix(#[trigger] lines@[i]@, when_clauses@[i]@),
            decreases when_clauses.len() - j,
        {
            if j == 0 {
                lines.push(concat(&[prefix.as_str(), when_clauses[j].as_str()]));
            } else {
                lines.push(concat(&[when_indent.as_str(), when_clauses[j].as_str()]));
            }
            proof {
                reveal_with_fuel(crate::strs::concat_views, 3);
                let l = lines@.last()@;
                let w = when_clauses@[j as int]@;
                assert(l.skip(l.len() - w.len()) =~= w);
            }
            j += 1;
        }
        if let Some(ep) = &else_parts {
            lines.push(concat(&[when_indent.as_str(), ep.as_str()]));
            proof {
                reveal_with_fuel(crate::strs::concat_views, 3);
                let l = lines@.last()@;
                let n = when_indent@.len();
                assert(when_indent@ == spaces(n));
                assert(l.take((n + else_lead.len()) as int) =~= spaces(n) + else_lead);
                assert(has_prefix(l, spaces(n) + else_lead));
            }
        }
        let ghost else_line = lines@.len() - 1;
        let closing = [" ", end_kw.as_str()];
        let close_line = concat(&closing);
        proof {
            reveal_with_fuel(crate::strs::concat_views, 3);
            assert(close_line@ =~= " "@ + end_kw@);
            assert(close_line@.skip(close_line@.len() - end_kw@.len()) =~= end_kw@);
        }
        lines.push(close_line);
        let r = join(&lines, "\n");
        proof {
            lemma_join_ends_with_last(string_views(lines@), "\n"@);
            let ls = string_views(lines@);
            if else_parts is Some {
                assert(ls[ls.len() - 2] == lines@[else_line]@);
                reveal_strlit(" ");
                assert(ls.last() =~= seq![' '] + end_kw@);
                let ws = string_views(when_clauses@);
                assert(ls.len() == ws.len() + 2);
                assert forall|i: int| 0 <= i < ws.len() implies has_suffix(#[trigger] ls[i], ws[i]) by {
                    assert(ls[i] == lines@[i]@);
                }
            }
            let l = lines@.last()@;
            assert(r@.skip(r@.len() - end_kw@.len()) =~= l.skip(l.len() - end_kw@.len()));
        }
        r
    }

    pub(crate) fn format_when_clause(&self, node: &SyntaxNode, b: usize) -> (r: String)
        ensures
            b == 0 ==> r@ == node_text(self.chars@, *node),
            b > 0 && named_of(node.children@).len() > 0 && named_of(node.children@)[0].kind@ == "kw_when"@
                ==> has_prefix(r@, cased(self.config, "WHEN"@)),
        decreases b,
    {
        if b == 0 {
            return self.text(node);
        }
        let d = b - 1;
        let named = node.named_children();
        let ghost ns = named_of(node.children@);
        let ghost lead = ns.len() > 0 && ns[0].kind@ == "kw_when"@;
        let mut parts: Vec<String> = Vec::new();
        let mut k: usize = 0;
        while k < named.len()
            invariant
                k <= named@.len(),
                named@.map_values(|c: &SyntaxNode| *c) == ns,
                k == 0 ==> parts@.len() == 0,
                k > 0 && lead ==> parts@.len() >= 1 && parts@[0]@ == cased(self.config, "WHEN"@),
            decreases named.len() - k,
        {
            proof { assert(ns[k as int] == *named@[k as int]); }
            let child = named[k];
            k += 1;
            if child.is("kw_when") {
                parts.push(self.kw("WHEN"));
            } else if child.is("kw_then") {
                parts.push(self.kw("THEN"));
            } else if child.is_any(&["a_expr", "c_expr", "a_expr_prec"]) {
                parts.push(self.format_expr(child, d));
            }
        }
        let r = join(&parts, " ");
        proof {
            if lead {
                crate::strs::lemma_join_starts_with_first(string_views(parts@), " "@);
            }
        }
        r
    }

    pub(crate) fn format_array_expr(&self, node: &SyntaxNode, b: usize) -> (r: String)
        ensures
            b == 0 ==> r@ == node_text(self.chars@, *node),
            !(exists|i: int| 0 <= i < node.children@.len() && #[trigger] node.children@[i].named
                && node.children@[i].kind@ == "expr_list"@) ==> r@ == node_text(self.chars@, *node),
            b > 0 && (exists|i: int| 0 <= i < node.children@.len() && #[trigger] node.children@[i].named
                && node.children@[i].kind@ == "expr_list"@) ==> has_prefix(r@, seq!['[']) && has_suffix(r@, seq![']']),
        decreases b,
    {
        if b == 0 {
            return self.text(node);
        }
        if let Some(expr_list) = node.find_child("expr_list") {
            let inner = self.format_list(expr_list, "expr_list", b - 1);
            let r = concat(&["[", inner.as_str(), "]"]);
            proof {
                reveal_with_fuel(crate::strs::concat_views, 4);
                reveal_strlit("["); reveal_strlit("]");
                assert(r@ == seq!['['] + inner@ + seq![']']);
                lemma_wraps(seq!['['], inner@, seq![']']);
            }
            return r;
        }
        self.text(node)
    }

    pub(crate) fn format_in_expr(&self, node: &SyntaxNode, b: usize) -> (r: String)
        ensures
            b == 0 ==> r@ == node_text(self.chars@, *node),
            b > 0 ==> match first_of_either_from(named_of(node.children@), "select_with_parens"@, "expr_list"@, 0) {
                None => r@ == node_text(self.chars@, *node),
                Some(j) => named_of(node.children@)[j].kind@ == "expr_list"@
                    ==> has_prefix(r@, "("@) && has_suffix(r@, ")"@),
            },
        decreases b,
    {
        if b == 0 {
            return self.text(node);
        }
        let d = b - 1;
        proof {
            reveal_strlit("select_with_parens");
            reveal_strlit("expr_list");
            assert("select_with_parens"@.len() == 18);
            assert("expr_list"@.len() == 9);
        }
        let named = node.named_children();
        let ghost ns = named_of(node.children@);
        let mut k: usize = 0;
        while k < named.len()
            invariant
                k <= named@.len(),
                named@.map_values(|c: &SyntaxNode| *c) == ns,
                first_of_either_from(ns, "select_with_parens"@, "expr_list"@, k as int)
                    == first_of_either_from(ns, "select_with_parens"@, "expr_list"@, 0),
            decreases named.len() - k,
        {
            proof { assert(ns[k as int] == *named@[k as int]); }
            let child = named[k];
            k += 1;
            if child.is("select_with_parens") {
                return self.format_select_with_parens(child, d);
            } else if child.is("expr_list") {
                let inner = self.format_list(child, "expr_list", d);
                let r = concat(&["(", inner.as_str(), ")"]);
                proof {
                    reveal_with_fuel(crate::strs::concat_views, 4);
                    assert(r@ =~= "("@ + inner@ + ")"@);
                    lemma_wraps("("@, inner@, ")"@);
                }
                return r;
            }
        }
        self.text(node)
    }

    pub(crate) fn format_select_with_parens(&self, node: &SyntaxNode, b: usize) -> (r: String)
        ensures
            b == 0 ==> r@ == node_text(self.chars@, *node),
            b > 0 ==> r@.len() >= 2 && r@[0] == '(' && r@.last() == ')',
            b > 0 && first_kid(*node, "select_no_parens"@) is None
                ==> r@ == "("@ + trim_of(node_text(self.chars@, *node)) + ")"@,
        decreases b,
    {
        if b == 0 {
            return self.text(node);
        }
        let d = b - 1;
        proof { reveal_strlit("("); reveal_strlit(")"); reveal_strlit("(\n"); }
        match node.find_child("select_no_parens") {
            Some(snp) => {
                let inner = self.format_select_no_parens(snp, d);
                let lines = lines_of_str(inner.as_str());
                if lines.len() <= 1 {
                    let r = concat(&["(", inner.as_str(), ")"]);
                    proof {
                        reveal_with_fuel(crate::strs::concat_views, 4);
                        assert(r@ =~= "("@ + inner@ + ")"@);
                    }
                    return r;
                }
                if !self.config.river {
                    // Left-aligned styles: the body indented between a lone
                    // opening paren and a closing paren on its own line.
                    let indent = self.config.indent;
                    let mut result = owned("(\n");
                    let mut k: usize = 0;
                    while k < lines.len()
                        invariant
                            result@.len() >= 1,
                            result@[0] == '(',
                        decreases lines.len() - k,
                    {
                        if lines[k].as_str().is_empty() {
                            push_char(&mut result, '\n');
                        } else {
                            push_str(&mut result, indent);
                            push_str(&mut result, lines[k].as_str());
                            push_char(&mut result, '\n');
                        }
                        k += 1;
                    }
                    push_char(&mut result, ')');
                    return result;
                }
                // River styles: continuation lines indented past the '('.
                let mut result = concat(&["(", lines[0].as_str()]);
                proof {
                    reveal_with_fuel(crate::strs::concat_views, 3);
                    assert(result@ =~= "("@ + lines@[0]@);
                }
                let mut k: usize = 1;
                while k < lines.len()
                    invariant
                        result@.len() >= 1,
                        result@[0] == '(',
                    decreases lines.len() - k,
                {
                    push_char(&mut result, '\n');
                    push_char(&mut result, ' ');
                    push_str(&mut result, lines[k].as_str());
                    k += 1;
                }
                push_char(&mut result, ')');
                result
            },
            None => {
                proof { lemma_no_kid(*node, "select_no_parens"@); }
                let t = self.trimmed_text(node);
                let r = concat(&["(", t.as_str(), ")"]);
                proof {
                    reveal_with_fuel(crate::strs::concat_views, 4);
                    assert(r@ =~= "("@ + t@ + ")"@);
                }
                r
            },
        }
    }

    pub(crate) fn format_target_el(&self, node: &SyntaxNode, b: usize) -> (r: String)
        ensures
            b == 0 ==> r@ == node_text(self.chars@, *node),
        decreases b,
    {
        if b == 0 {
            return self.text(node);
        }
        let d = b - 1;
        let mut parts: Vec<String> = Vec::new();
        let mut i: usize = 0;
        while i < node.children.len()
            decreases node.children.len() - i,
        {
            let child = &node.children[i];
            i += 1;
            if child.named {
                if child.is("kw_as") {
                    parts.push(self.kw("AS"));
                } else {
                    parts.push(self.format_expr(child, d));
                }
            } else {
                let t = self.trimmed_text(child);
                if same(t.as_str(), "*") {
                    parts.push(owned("*"));
                }
            }
        }
        join_parts(&parts)
    }

    pub(crate) fn format_typename(&self, node: &SyntaxNode, b: usize) -> (r: String)
        ensures
            b == 0 ==> r@ == node_text(self.chars@, *node),
            b > 0 && crate::plpgsql::holds_kind(*node, "kw_setof"@)
                ==> has_prefix(r@, cased(self.config, "SETOF"@) + seq![' ']),
            b > 0 && crate::plpgsql::holds_kind(*node, "opt_array_bounds"@) ==> has_suffix(r@, "[]"@),
        decreases b,
    {
        if b == 0 {
            return self.text(node);
        }
        let d = b - 1;
        proof {
            reveal_strlit("SimpleTypename");
            reveal_strlit("kw_setof");
            reveal_strlit("opt_array_bounds");
            assert("SimpleTypename"@.len() == 14 && "kw_setof"@.len() == 8 && "opt_array_bounds"@.len() == 16);
        }
        let mut parts: Vec<String> = Vec::new();
        let mut has_setof = false;
        let mut has_array = false;
        let mut i: usize = 0;
        while i < node.children.len()
            invariant
                i <= node.children@.len(),
                has_setof <==> exists|x: int| 0 <= x < i && #[trigger] node.children@[x].named
                    && node.children@[x].kind@ == "kw_setof"@,
                has_array <==> exists|x: int| 0 <= x < i && #[trigger] node.children@[x].named
                    && node.children@[x].kind@ == "opt_array_bounds"@,
            decreases node.children.len() - i,
        {
            let child = &node.children[i];
            i += 1;
            if child.named {
                if child.is("SimpleTypename") {
                    parts.push(self.format_simple_typename(child, d));
                } else if child.is("kw_setof") {
                    has_setof = true;
                } else if child.is("opt_array_bounds") {
                    has_array = true;
                } else {
                    parts.push(self.format_expr(child, d));
                }
            }
        }
        let mut result = String::new();
        let ghost lead: Seq<char> = Seq::empty();
        if has_setof {
            let s = self.kw("SETOF");
            push_str(&mut result, s.as_str());
            push_char(&mut result, ' ');
            proof { lead = s@ + seq![' ']; assert(result@ =~= lead); }
        } else {
            proof { assert(result@ =~= lead); }
        }
        let joined = join(&parts, " ");
        let ghost before = result@;
        push_str(&mut result, joined.as_str());
        proof { crate::strs::lemma_prefix_self(lead); lemma_prefix_append(lead, joined@, lead); }
        if has_array {
            let ghost mid = result@;
            push_str(&mut result, "[]");
            proof {
                lemma_prefix_append(mid, "[]"@, lead);
                assert(result@.skip(result@.len() - "[]"@.len()) =~= "[]"@);
            }
        }
        result
    }

    pub(crate) fn format_simple_typename(&self, node: &SyntaxNode, b: usize) -> (r: String)
        ensures
            b == 0 ==> r@ == node_text(self.chars@, *node),
            (forall|i: int| 0 <= i < node.children@.len() ==> !(#[trigger] node.children@[i].named)) ==> r@ == node_text(self.chars@, *node),
        decreases b,
    {
        if b == 0 {
            return self.text(node);
        }
        let d = b - 1;
        match node.first_named_child() {
            Some(child) => {
                if child.is_any(&["Numeric", "GenericType", "Bit", "Character", "ConstDatetime", "ConstInterval"]) {
                    self.format_typename_inner(child, d)
                } else {
                    self.format_expr(child, d)
                }
            },
            None => self.text(node),
        }
    }

    /// Flatten the wrapper nodes the grammar puts around character and bit
    /// types, so the keyword, VARYING qualifier and length token are all
    /// direct items (`type_items_of`).
    pub(crate) fn flatten_type_children<'n>(&self, node: &'n SyntaxNode, out: &mut Vec<&'n SyntaxNode>, b: usize)
        ensures
            crate::tree::node_views(final(out)@) == crate::tree::node_views(old(out)@)
                + type_items_of(node.children@, b as nat),
        decreases b,
    {
        let ghost o0 = crate::tree::node_views(out@);
        let kinds = ["CharacterWithLength", "CharacterWithoutLength", "character",
            "BitWithLength", "BitWithoutLength", "bit", "opt_varying"];
        assert(kinds@ == type_wrapper_kinds());
        proof { assert(node.children@.take(0) =~= Seq::<SyntaxNode>::empty()); }
        let mut i: usize = 0;
        while i < node.children.len()
            invariant
                i <= node.children@.len(),
                kinds@ == type_wrapper_kinds(),
                crate::tree::node_views(out@) == o0 + type_items_of(node.children@.take(i as int), b as nat),
            decreases node.children.len() - i,
        {
            proof {
                let cs = node.children@;
                assert(cs.take(i + 1).drop_last() =~= cs.take(i as int));
                assert(cs.take(i + 1).last() == cs[i as int]);
            }
            let child = &node.children[i];
            i += 1;
            if child.named && child.is_any(&kinds) && b > 0 {
                self.flatten_type_children(child, out, b - 1);
                proof {
                    assert(crate::tree::node_views(out@) =~= o0 + type_items_of(node.children@.take(i as int), b as nat));
                }
            } else {
                let ghost before = out@;
                out.push(child);
                proof {
                    assert(crate::tree::node_views(before.push(child)) =~= crate::tree::node_views(before).push(*child));
                    assert(crate::tree::node_views(out@) =~= o0 + type_items_of(node.children@.take(i as int), b as nat));
                }
            }
        }
        proof { assert(node.children@.take(node.children@.len() as int) =~= node.children@); }
    }

    /// The type name laid out as `type_text` says, from the node's items
    /// (`type_items_of`) read one after the other (`type_fold`): the base
    /// name in the style's case, then the extra keywords, the modifiers and
    /// the time-zone keywords. The piece of an item is what formatting it
    /// gave, where its layout uses one.
    #[verifier::rlimit(100)]
    #[verifier::spinoff_prover]
    pub(crate) fn format_typename_inner(&self, node: &SyntaxNode, b: usize) -> (r: String)
        ensures
            b == 0 ==> r@ == node_text(self.chars@, *node),
            b > 0 ==> exists|ps: Seq<Seq<char>>|
                ps.len() == type_items_of(node.children@, (b - 1) as nat).len()
                && r@ == #[trigger] type_text(self.config,
                    type_fold(self.config, self.chars@, type_items_of(node.children@, (b - 1) as nat), ps)),
        decreases b,
    {
        if b == 0 {
            return self.text(node);
        }
        let d = b - 1;
        let mut base = String::new();
        let mut modifiers = String::new();
        let mut extra_keywords: Vec<String> = Vec::new();
        let mut timezone_keywords: Vec<String> = Vec::new();
        let mut items: Vec<&SyntaxNode> = Vec::new();
        self.flatten_type_children(node, &mut items, d);
        let ghost its = type_items_of(node.children@, d as nat);
        assert(crate::tree::node_views(items@) =~= its);
        let base_kinds = ["kw_integer", "kw_int", "kw_smallint", "kw_bigint", "kw_real", "kw_boolean",
            "kw_float", "kw_decimal", "kw_numeric"];
        assert(base_kinds@ == base_type_kinds());
        let ghost mut ps: Seq<Seq<char>> = Seq::empty();
        proof {
            reveal_strlit("DOUBLE"); reveal_strlit("DOUBLE PRECISION"); reveal_strlit("kw_");
            reveal_strlit("("); reveal_strlit(")");
            assert(its.take(0) =~= Seq::<SyntaxNode>::empty());
        }
        let mut k: usize = 0;
        while k < items.len()
            invariant
                k <= items@.len(),
                crate::tree::node_views(items@) == its,
                base_kinds@ == base_type_kinds(),
                ps.len() == k,
                (base@, modifiers@, string_views(extra_keywords@), string_views(timezone_keywords@))
                    == type_fold(self.config, self.chars@, its.take(k as int), ps),
            decreases items.len() - k,
        {
            let ghost st0: TypeState = (base@, modifiers@, string_views(extra_keywords@),
                string_views(timezone_keywords@));
            let ghost at = k as int;
            let child = items[k];
            proof {
                assert(its[at] == *child);
                assert(its.take(at + 1).drop_last() =~= its.take(at));
                assert(its.take(at + 1).last() == its[at]);
            }
            k += 1;
            let ghost mut piece: Seq<char> = Seq::empty();
            if !child.named {
            } else if child.is_any(&base_kinds) {
                let t = self.text(child);
                let lower = to_lower(t.as_str());
                base = self.map_type_name(lower.as_str());
            } else if child.is("kw_double") {
                base = owned("DOUBLE");
            } else if child.is("kw_precision") {
                if same(base.as_str(), "DOUBLE") {
                    base = owned("DOUBLE PRECISION");
                } else {
                    extra_keywords.push(self.kw("PRECISION"));
                }
            } else if child.is("kw_varying") {
                extra_keywords.push(self.kw("VARYING"));
            } else if child.is("opt_timezone") {
                // WITH/WITHOUT TIME ZONE follows the modifiers.
                let tz = child.named_children();
                let ghost z0 = string_views(timezone_keywords@);
                let ghost tn = named_of(child.children@);
                proof { assert(tn.take(0) =~= Seq::<SyntaxNode>::empty()); }
                let mut j: usize = 0;
                while j < tz.len()
                    invariant
                        j <= tz@.len(),
                        tz@.map_values(|c: &SyntaxNode| *c) == tn,
                        string_views(timezone_keywords@) == z0 + zone_words(self.config, tn.take(j as int)),
                    decreases tz.len() - j,
                {
                    let t = tz[j];
                    proof {
                        assert(tn[j as int] == *t);
                        assert(tn.take(j + 1).drop_last() =~= tn.take(j as int));
                        assert(tn.take(j + 1).last() == tn[j as int]);
                    }
                    let ghost zv = string_views(timezone_keywords@);
                    j += 1;
                    let ghost mut word: Seq<Seq<char>> = Seq::empty();
                    if t.is("kw_with") {
                        let w = self.kw("WITH");
                        proof { word = seq![w@]; }
                        timezone_keywords.push(w);
                    } else if t.is("kw_without") {
                        let w = self.kw("WITHOUT");
                        proof { word = seq![w@]; }
                        timezone_keywords.push(w);
                    } else if t.is("kw_time") {
                        let w = self.kw("TIME");
                        proof { word = seq![w@]; }
                        timezone_keywords.push(w);
                    } else if t.is("kw_zone") {
                        let w = self.kw("ZONE");
                        proof { word = seq![w@]; }
                        timezone_keywords.push(w);
                    }
                    proof {
                        assert(string_views(timezone_keywords@) =~= zv + word);
                        assert(zone_words(self.config, tn.take(j as int))
                            == zone_words(self.config, tn.take(j - 1)) + word);
                        assert(string_views(timezone_keywords@) =~= z0 + zone_words(self.config, tn.take(j as int)));
                    }
                }
                proof { assert(tn.take(tn.len() as int) =~= tn); }
            } else if child.is("kw_with") {
                timezone_keywords.push(self.kw("WITH"));
            } else if child.is("kw_without") {
                timezone_keywords.push(self.kw("WITHOUT"));
            } else if child.is("kw_time") {
                if base.as_str().is_empty() {
                    base = self.kw("TIME");
                } else {
                    timezone_keywords.push(self.kw("TIME"));
                }
            } else if child.is("kw_zone") {
                timezone_keywords.push(self.kw("ZONE"));
            } else if child.is("kw_timestamp") {
                base = self.kw("TIMESTAMP");
            } else if child.is("type_function_name") || child.is("unreserved_keyword") {
                let name = self.format_first_named_child(child, d);
                proof { piece = name@; }
                let lower = to_lower(name.as_str());
                base = self.map_type_name(lower.as_str());
            } else if child.is("opt_type_modifiers") {
                modifiers = self.format_type_modifiers(child, d);
                proof { piece = modifiers@; }
            } else if child.is("Iconst") {
                // A bare length token inside CharacterWithLength.
                let t = self.trimmed_text(child);
                modifiers = concat(&["(", t.as_str(), ")"]);
                proof { reveal_with_fuel(crate::strs::concat_views, 4); assert(modifiers@ =~= "("@ + t@ + ")"@); }
            } else if child.is("expr_list") {
                let inner = self.format_list(child, "expr_list", d);
                proof { piece = inner@; }
                modifiers = concat(&["(", inner.as_str(), ")"]);
                proof { reveal_with_fuel(crate::strs::concat_views, 4); assert(modifiers@ =~= "("@ + inner@ + ")"@); }
            } else if child.is("attrs") {
                let a = self.format_attrs(child, d);
                proof { piece = a@; }
                push_str(&mut base, a.as_str());
            } else if child.is("opt_float") {
                let t = self.text(child);
                let tt = trim(t.as_str());
                if !tt.as_str().is_empty() {
                    modifiers = t;
                }
            } else if child.kind_starts_with("kw_") {
                extra_keywords.push(self.format_keyword_node(child));
            } else if base.as_str().is_empty() {
                base = self.format_expr(child, d);
                proof { piece = base@; }
            }
            proof {
                let st1: TypeState = (base@, modifiers@, string_views(extra_keywords@),
                    string_views(timezone_keywords@));
                assert(st1 =~~= type_step(self.config, self.chars@, st0, *child, piece));
                assert(ps.push(piece).drop_last() =~= ps);
                ps = ps.push(piece);
            }
        }
        proof { assert(its.take(its.len() as int) =~= its); }
        let ghost fin: TypeState = (base@, modifiers@, string_views(extra_keywords@),
            string_views(timezone_keywords@));
        let mut result = if self.config.upper_keywords { to_upper(base.as_str()) } else { to_lower(base.as_str()) };
        if extra_keywords.len() > 0 {
            if !result.as_str().is_empty() {
                push_char(&mut result, ' ');
            }
            let e = join(&extra_keywords, " ");
            push_str(&mut result, e.as_str());
        }
        if !modifiers.as_str().is_empty() {
            push_str(&mut result, modifiers.as_str());
        }
        if timezone_keywords.len() > 0 {
            if !result.as_str().is_empty() {
                push_char(&mut result, ' ');
            }
            let t = join(&timezone_keywords, " ");
            push_str(&mut result, t.as_str());
        }
        proof {
            reveal_strlit(" ");
            assert(" "@ =~= seq![' ']);
            assert(result@ == type_text(self.config, fin));
            assert(result@ == type_text(self.config,
                type_fold(self.config, self.chars@, type_items_of(node.children@, (b - 1) as nat), ps)));
        }
        result
    }

    pub(crate) fn format_type_modifiers(&self, node: &SyntaxNode, b: usize) -> (r: String)
        ensures
            b == 0 ==> r@ == node_text(self.chars@, *node),
            b > 0 && !(exists|i: int| 0 <= i < node.children@.len() && #[trigger] node.children@[i].named
                && node.children@[i].kind@ == "expr_list"@) ==> r@.len() == 0,
            b > 0 ==> r@.len() == 0 || (has_prefix(r@, seq!['(']) && has_suffix(r@, seq![')'])),
        decreases b,
    {
        if b == 0 {
            return self.text(node);
        }
        let mut items: Vec<String> = Vec::new();
        if let Some(list) = node.find_child("expr_list") {
            let exprs = flatten_list(list, "expr_list");
            items = self.format_each(&exprs, b - 1);
        }
        if items.len() == 0 {
            return String::new();
        }
        let inner = join(&items, ", ");
        let r = concat(&["(", inner.as_str(), ")"]);
        proof {
            reveal_with_fuel(crate::strs::concat_views, 4);
            reveal_strlit("("); reveal_strlit(")");
            assert(r@ == seq!['('] + inner@ + seq![')']);
            lemma_wraps(seq!['('], inner@, seq![')']);
        }
        r
    }

    pub(crate) fn format_attrs(&self, node: &SyntaxNode, b: usize) -> (r: String)
        ensures
            b == 0 ==> r@ == node_text(self.chars@, *node),
            b > 0 ==> exists|ps: Seq<Seq<char>>| ps.len() == node.children@.len() && r@ == glued(ps)
                && forall|i: int| 0 <= i < ps.len() && !node.children@[i].named
                    ==> #[trigger] ps[i] == node_text(self.chars@, node.children@[i]),
        decreases b,
    {
        if b == 0 {
            return self.text(node);
        }
        let d = b - 1;
        let mut result = String::new();
        let ghost mut ps: Seq<Seq<char>> = Seq::empty();
        let mut i: usize = 0;
        while i < node.children.len()
            invariant
                i <= node.children@.len(),
                ps.len() == i,
                result@ == glued(ps),
                forall|x: int| 0 <= x < ps.len() && !node.children@[x].named
                    ==> #[trigger] ps[x] == node_text(self.chars@, node.children@[x]),
            decreases node.children.len() - i,
        {
            let child = &node.children[i];
            i += 1;
            let piece = if child.named { self.format_expr(child, d) } else { self.text(child) };
            proof {
                assert(ps.push(piece@).drop_last() =~= ps);
                ps = ps.push(piece@);
            }
            push_str(&mut result, piece.as_str());
        }
        result
    }

    pub(crate) fn format_qualified_name(&self, node: &SyntaxNode, b: usize) -> (r: String)
        decreases b,
    {
        if b == 0 {
            return self.text(node);
        }
        let d = b - 1;
        let mut parts: Vec<String> = Vec::new();
        let mut i: usize = 0;
        while i < node.children.len()
            decreases node.children.len() - i,
        {
            let child = &node.children[i];
            i += 1;
            if child.named {
                if child.is("ColId") {
                    parts.push(self.format_col_id(child, d));
                } else if child.is("indirection") {
                    parts.push(self.format_indirection(child, d));
                } else if child.is("attrs") {
                    parts.push(self.format_attrs(child, d));
                } else if child.is("attr_name") {
                    let a = self.format_expr(child, d);
                    parts.push(concat(&[".", a.as_str()]));
                } else {
                    parts.push(self.format_expr(child, d));
                }
            } else {
                let t = self.trimmed_text(child);
                if same(t.as_str(), ".") {
                    parts.push(owned("."));
                }
            }
        }
        // A separator dot next to an attr's own leading dot collapses; dots
        // inside quoted identifiers stay.
        let result = join(&parts, "");
        dedot(result.as_str())
    }

    pub(crate) fn format_relation_expr(&self, node: &SyntaxNode, b: usize) -> (r: String)
        ensures
            b == 0 ==> r@ == node_text(self.chars@, *node),
            !(exists|i: int| 0 <= i < node.children@.len() && #[trigger] node.children@[i].named
                && node.children@[i].kind@ == "qualified_name"@) ==> r@ == node_text(self.chars@, *node),
        decreases b,
    {
        if b == 0 {
            return self.text(node);
        }
        match node.find_child("qualified_name") {
            Some(qn) => self.format_qualified_name(qn, b - 1),
            None => self.text(node),
        }
    }

    pub(crate) fn format_alias(&self, node: &SyntaxNode, b: usize) -> (r: String)
        ensures
            b == 0 ==> r@ == node_text(self.chars@, *node),
            b > 0 && (node.kind@ != "opt_alias_clause"@ || first_kid(*node, "alias_clause"@) is None)
                && named_of(node.children@).len() > 0
                && (named_of(node.children@)[0].kind@ == "kw_as"@ || named_of(node.children@)[0].kind@ == "ColId"@)
                ==> has_prefix(r@, cased(self.config, "AS"@)),
            b > 0 && (node.kind@ != "opt_alias_clause"@ || first_kid(*node, "alias_clause"@) is None)
                && named_of(node.children@).len() == 0 ==> r@.len() == 0,
        decreases b,
    {
        if b == 0 {
            return self.text(node);
        }
        let d = b - 1;
        if node.is("opt_alias_clause") {
            if let Some(ac) = node.find_child("alias_clause") {
                proof { crate::tree::lemma_found_kid(*node, "alias_clause"@, *ac); }
                return self.format_alias(ac, d);
            } else {
                proof { lemma_no_kid(*node, "alias_clause"@); }
            }
        }
        let mut has_as = false;
        let mut parts: Vec<String> = Vec::new();
        let named = node.named_children();
        let ghost ns = named_of(node.children@);
        let ghost lead = ns.len() > 0 && (ns[0].kind@ == "kw_as"@ || ns[0].kind@ == "ColId"@);
        let mut k: usize = 0;
        while k < named.len()
            invariant
                k <= named@.len(),
                named@.map_values(|c: &SyntaxNode| *c) == ns,
                k == 0 ==> parts@.len() == 0 && !has_as,
                k > 0 && lead ==> parts@.len() >= 1 && parts@[0]@ == cased(self.config, "AS"@),
            decreases named.len() - k,
        {
            proof { assert(ns[k as int] == *named@[k as int]); }
            let child = named[k];
            k += 1;
            if child.is("kw_as") {
                has_as = true;
                parts.push(self.kw("AS"));
            } else if child.is("ColId") {
                // A bare alias gets AS.
                if !has_as {
                    parts.push(self.kw("AS"));
                }
                parts.push(self.format_col_id(child, d));
            } else {
                parts.push(self.format_expr(child, d));
            }
        }
        let r = join(&parts, " ");
        proof {
            if lead {
                crate::strs::lemma_join_starts_with_first(string_views(parts@), " "@);
            }
            if ns.len() == 0 {
                assert(string_views(parts@) =~= Seq::<Seq<char>>::empty());
            }
        }
        r
    }

    pub(crate) fn format_first_named_child(&self, node: &SyntaxNode, b: usize) -> (r: String)
        ensures
            b == 0 ==> r@ == node_text(self.chars@, *node),
            (forall|i: int| 0 <= i < node.children@.len() ==> !(#[trigger] node.children@[i].named)) ==> r@ == node_text(self.chars@, *node),
        decreases b,
    {
        if b == 0 {
            return self.text(node);
        }
        match node.first_named_child() {
            Some(child) => self.format_expr(child, b - 1),
            None => self.text(node),
        }
    }

    // GRAPH_TABLE (SQL/PGQ property graphs):
    // `GRAPH_TABLE (graph MATCH <pattern> COLUMNS (<exprs>)) [AS alias]`.
    // Vertex and edge elements of a pattern concatenate without separators;
    // the contents inside each `(...)`/`[...]` are space-separated.

    pub(crate) fn format_graph_table(&self, node: &SyntaxNode, b: usize) -> (r: String)
        ensures
            b == 0 ==> r@ == node_text(self.chars@, *node),
            b > 0 ==> has_prefix(r@, cased(self.config, "GRAPH_TABLE"@) + " (\n"@ + self.config.indent@),
        decreases b,
    {
        if b == 0 {
            return self.text(node);
        }
        let d = b - 1;
        let mut graph_name = String::new();
        let mut pattern = String::new();
        let mut columns = String::new();
        let mut alias = String::new();
        let named = node.named_children();
        let mut k: usize = 0;
        while k < named.len()
            decreases named.len() - k,
        {
            let child = named[k];
            k += 1;
            if child.is("qualified_name") {
                graph_name = self.format_expr(child, d);
            } else if child.is("graph_pattern") {
                pattern = self.format_graph_pattern(child, d);
            } else if child.is("labeled_expr_list") {
                columns = self.format_labeled_expr_list(child, d);
            } else if child.is("opt_alias_clause") || child.is("alias_clause") {
                alias = self.format_alias(child, d);
            }
        }
        // The graph name, MATCH and COLUMNS each on a line one indent in; the
        // closing paren back at the GRAPH_TABLE column.
        let indent = self.config.indent;
        let close = if alias.as_str().is_empty() { owned(")") } else { concat(&[") ", alias.as_str()]) };
        let gt = self.kw("GRAPH_TABLE");
        let match_kw = self.kw("MATCH");
        let cols_kw = self.kw("COLUMNS");
        let ps = [gt.as_str(), " (\n", indent, graph_name.as_str(), "\n", indent, match_kw.as_str(), " ",
            pattern.as_str(), "\n", indent, cols_kw.as_str(), " (", columns.as_str(), ")\n", close.as_str()];
        let r = concat(&ps);
        proof {
            crate::strs::lemma_concat_views_starts(ps@, 3);
            reveal_with_fuel(crate::strs::concat_views, 4);
            assert(concat_views(ps@.take(3)) =~= gt@ + " (\n"@ + indent@);
        }
        r
    }

    pub(crate) fn format_graph_pattern(&self, node: &SyntaxNode, b: usize) -> (r: String)
        ensures
            b == 0 ==> r@ == node_text(self.chars@, *node),
            b > 1 && first_kid(*node, "path_pattern_list"@) is None && first_kid(*node, "where_clause"@) is Some
                ==> has_prefix(r@, cased(self.config, "WHERE"@) + " "@),
            b > 0 && first_kid(*node, "path_pattern_list"@) is None && first_kid(*node, "where_clause"@) is None
                ==> r@.len() == 0,
        decreases b,
    {
        if b == 0 {
            return self.text(node);
        }
        let d = b - 1;
        let mut parts: Vec<String> = Vec::new();
        let found_list = node.find_child("path_pattern_list");
        proof {
            if found_list is None { lemma_no_kid(*node, "path_pattern_list"@); }
            else { crate::tree::lemma_found_kid(*node, "path_pattern_list"@, *found_list.unwrap()); }
        }
        if let Some(list) = found_list {
            let items = flatten_list(list, "path_pattern_list");
            let mut formatted: Vec<String> = Vec::new();
            let mut k: usize = 0;
            while k < items.len()
                decreases items.len() - k,
            {
                formatted.push(self.render_path(items[k], d));
                k += 1;
            }
            parts.push(join(&formatted, ", "));
        }
        if let Some(wc) = node.find_child("where_clause") {
            parts.push(self.format_graph_where(wc, d));
        } else {
            proof { lemma_no_kid(*node, "where_clause"@); }
        }
        let r = join(&parts, " ");
        proof {
            if parts@.len() == 0 {
                assert(string_views(parts@) =~= Seq::<Seq<char>>::empty());
            } else {
                crate::strs::lemma_join_starts_with_first(string_views(parts@), " "@);
                if b > 1 && found_list is None {
                    assert(string_views(parts@)[0] == parts@[0]@);
                    crate::strs::lemma_prefix_trans(r@, parts@[0]@, cased(self.config, "WHERE"@) + " "@);
                }
            }
        }
        r
    }

    /// Render a path element, concatenating vertices, edges and quantifiers
    /// without separators (e.g. `(a)-[e]->(b){2}`).
    pub(crate) fn render_path(&self, node: &SyntaxNode, b: usize) -> (r: String)
        ensures
            b == 0 ==> r@ == node_text(self.chars@, *node),
            b > 0 && node.kind@ == "opt_graph_pattern_quantifier"@
                ==> r@ == glued(node.children@.map_values(|c: SyntaxNode| node_text(self.chars@, c))),
            b > 0 && node.kind@ != "path_primary"@ && node.kind@ != "opt_graph_pattern_quantifier"@
                && named_of(node.children@).len() == 0 ==> r@.len() == 0,
        decreases b,
    {
        if b == 0 {
            return self.text(node);
        }
        let d = b - 1;
        proof {
            reveal_strlit("path_primary");
            reveal_strlit("opt_graph_pattern_quantifier");
            assert("path_primary"@.len() == 12 && "opt_graph_pattern_quantifier"@.len() == 28);
        }
        if node.is("path_primary") {
            self.format_path_primary(node, d)
        } else if node.is("opt_graph_pattern_quantifier") {
            let ghost ts = node.children@.map_values(|c: SyntaxNode| node_text(self.chars@, c));
            let mut out = String::new();
            let mut i: usize = 0;
            while i < node.children.len()
                invariant
                    i <= node.children@.len(),
                    out@ == glued(ts.take(i as int)),
                decreases node.children.len() - i,
            {
                let t = self.text(&node.children[i]);
                proof {
                    assert(ts.take(i + 1).drop_last() =~= ts.take(i as int));
                    assert(ts.take(i + 1).last() == t@);
                }
                push_str(&mut out, t.as_str());
                i += 1;
            }
            proof { assert(ts.take(node.children@.len() as int) =~= ts); }
            out
        } else {
            // Structural wrappers whose children concatenate directly.
            let named = node.named_children();
            let mut out = String::new();
            let mut k: usize = 0;
            while k < named.len()
                invariant
                    k <= named@.len(),
                    named@.map_values(|c: &SyntaxNode| *c) == named_of(node.children@),
                    k == 0 ==> out@.len() == 0,
                decreases named.len() - k,
            {
                let t = self.render_path(named[k], d);
                push_str(&mut out, t.as_str());
                k += 1;
            }
            out
        }
    }

    pub(crate) fn format_path_primary(&self, node: &SyntaxNode, b: usize) -> (r: String)
        decreases b,
    {
        if b == 0 {
            return self.text(node);
        }
        let d = b - 1;
        let n = node.children.len();
        let mut first: usize = n;
        let mut last: usize = 0;
        let mut i: usize = 0;
        while i < n
            invariant
                n == node.children@.len(),
                first <= n,
                last < n || last == 0,
                first < n ==> first <= last,
                first < n ==> first < i,
                i <= n,
            decreases n - i,
        {
            if node.children[i].named {
                if first == n {
                    first = i;
                }
                last = i;
            }
            i += 1;
        }
        // Bare connectors like `->` or `-` have no named children.
        if first == n {
            let mut out = String::new();
            let mut j: usize = 0;
            while j < n
                decreases n - j,
            {
                let t = self.text(&node.children[j]);
                push_str(&mut out, t.as_str());
                j += 1;
            }
            return out;
        }
        // Delimiters and arrows around the content glue directly.
        let mut prefix = String::new();
        let mut j: usize = 0;
        while j < first
            decreases first - j,
        {
            let t = self.text(&node.children[j]);
            push_str(&mut prefix, t.as_str());
            j += 1;
        }
        let mut suffix = String::new();
        let mut j: usize = last + 1;
        while j < n
            decreases n - j,
        {
            let t = self.text(&node.children[j]);
            push_str(&mut suffix, t.as_str());
            j += 1;
        }
        let mut inner: Vec<String> = Vec::new();
        let mut j: usize = first;
        while j <= last && j < n
            decreases n - j,
        {
            if node.children[j].named {
                inner.push(self.render_path_inner(&node.children[j], d));
            }
            j += 1;
        }
        let joined = join(&inner, " ");
        concat(&[prefix.as_str(), joined.as_str(), suffix.as_str()])
    }

    /// The space-separated contents of a vertex or edge pattern: an element
    /// variable, an `IS <label>` test, a `WHERE <cond>`.
    pub(crate) fn render_path_inner(&self, node: &SyntaxNode, b: usize) -> (r: String)
        decreases b,
    {
        if b == 0 {
            return self.text(node);
        }
        let d = b - 1;
        if node.is("opt_colid") {
            match node.find_child("ColId") {
                Some(c) => self.text(c),
                None => String::new(),
            }
        } else if node.is("opt_is_label_expression") {
            let label = match node.find_child("label_expression") {
                Some(l) => self.format_label_expression(l, d),
                None => String::new(),
            };
            let is_kw = self.kw("IS");
            concat(&[is_kw.as_str(), " ", label.as_str()])
        } else if node.is("where_clause") {
            self.format_graph_where(node, d)
        } else if node.is("path_pattern_expression") {
            self.render_path(node, d)
        } else {
            self.text(node)
        }
    }

    pub(crate) fn format_label_expression(&self, node: &SyntaxNode, b: usize) -> (r: String)
        ensures
            b == 0 ==> r@ == node_text(self.chars@, *node),
            b > 0 && node.kind@ == "label_term"@ ==> r@ == node_text(self.chars@, *node),
            b > 0 && node.kind@ != "label_disjunction"@ && first_named(*node) is None
                ==> r@ == node_text(self.chars@, *node),
            b > 0 && node.kind@ == "label_disjunction"@ ==> exists|ps: Seq<Seq<char>>|
                ps.len() == named_of(node.children@).len() && r@ == join_with(ps, " | "@),
        decreases b,
    {
        if b == 0 {
            return self.text(node);
        }
        let d = b - 1;
        proof {
            reveal_strlit("label_term");
            reveal_strlit("label_disjunction");
            assert("label_term"@.len() == 10 && "label_disjunction"@.len() == 17);
        }
        if node.is("label_disjunction") {
            // `A | B` label alternation.
            let named = node.named_children();
            let mut parts: Vec<String> = Vec::new();
            let mut k: usize = 0;
            while k < named.len()
                invariant
                    k <= named@.len(),
                    named@.map_values(|c: &SyntaxNode| *c) == named_of(node.children@),
                    parts@.len() == k,
                decreases named.len() - k,
            {
                parts.push(self.format_label_expression(named[k], d));
                k += 1;
            }
            let r = join(&parts, " | ");
            proof { assert(string_views(parts@).len() == named_of(node.children@).len()); }
            r
        } else if node.is("label_term") {
            self.text(node)
        } else {
            match node.first_named_child() {
                Some(child) => {
                    proof { lemma_found_named(*node, *child); }
                    self.format_label_expression(child, d)
                },
                None => {
                    proof { lemma_no_named(*node); }
                    self.text(node)
                },
            }
        }
    }

    pub(crate) fn format_graph_where(&self, node: &SyntaxNode, b: usize) -> (r: String)
        ensures
            b == 0 ==> r@ == node_text(self.chars@, *node),
            b > 0 ==> has_prefix(r@, cased(self.config, "WHERE"@) + " "@),
            b > 0 && (forall|i: int| 0 <= i < node.children@.len() ==> !(#[trigger] node.children@[i].named
                && kind_among(node.children@[i].kind@, seq!["a_expr", "c_expr"])))
                ==> r@ == cased(self.config, "WHERE"@) + " "@,
        decreases b,
    {
        if b == 0 {
            return self.text(node);
        }
        let cond = match node.find_child_any(&["a_expr", "c_expr"]) {
            Some(e) => self.format_expr(e, b - 1),
            None => String::new(),
        };
        let w = self.kw("WHERE");
        let r = concat(&[w.as_str(), " ", cond.as_str()]);
        proof {
            reveal_with_fuel(crate::strs::concat_views, 4);
            assert(r@ =~= w@ + " "@ + cond@);
            assert(r@.take((w@ + " "@).len() as int) =~= w@ + " "@);
        }
        r
    }

    pub(crate) fn format_labeled_expr_list(&self, node: &SyntaxNode, b: usize) -> (r: String)
        ensures
            b == 0 ==> r@ == node_text(self.chars@, *node),
            b > 0 ==> exists|ps: Seq<Seq<char>>| ps.len() == flat_items(*node, "labeled_expr_list"@).len()
                && r@ == join_with(ps, ", "@),
        decreases b,
    {
        if b == 0 {
            return self.text(node);
        }
        let items = flatten_list(node, "labeled_expr_list");
        let mut formatted: Vec<String> = Vec::new();
        let mut k: usize = 0;
        while k < items.len()
            invariant
                k <= items@.len(),
                formatted@.len() == k,
            decreases items.len() - k,
        {
            formatted.push(self.format_labeled_expr(items[k], b - 1));
            k += 1;
        }
        let r = join(&formatted, ", ");
        proof { assert(string_views(formatted@).len() == flat_items(*node, "labeled_expr_list"@).len()); }
        r
    }

    pub(crate) fn format_labeled_expr(&self, node: &SyntaxNode, b: usize) -> (r: String)
        ensures
            b == 0 ==> r@ == node_text(self.chars@, *node),
            b > 0 ==> match first_kid(*node, "ColLabel"@) {
                Some(l) => has_suffix(r@, " "@ + cased(self.config, "AS"@) + " "@ + node_text(self.chars@, l)),
                None => (forall|i: int| 0 <= i < node.children@.len() ==> !(#[trigger] node.children@[i].named
                    && kind_among(node.children@[i].kind@, seq!["a_expr", "c_expr"]))) ==> r@.len() == 0,
            },
        decreases b,
    {
        if b == 0 {
            return self.text(node);
        }
        let expr = match node.find_child_any(&["a_expr", "c_expr"]) {
            Some(e) => self.format_expr(e, b - 1),
            None => String::new(),
        };
        match node.find_child("ColLabel") {
            Some(label) => {
                proof { crate::tree::lemma_found_kid(*node, "ColLabel"@, *label); }
                let a = self.kw("AS");
                let l = self.text(label);
                let r = concat(&[expr.as_str(), " ", a.as_str(), " ", l.as_str()]);
                proof {
                    reveal_with_fuel(crate::strs::concat_views, 6);
                    let tail = " "@ + a@ + " "@ + l@;
                    assert(r@ =~= expr@ + tail);
                    assert(r@.skip(r@.len() - tail.len()) =~= tail);
                }
                r
            },
            None => {
                proof { lemma_no_kid(*node, "ColLabel"@); }
                expr
            },
        }
    }

    /// Format a `CREATE PROPERTY GRAPH` statement, its VERTEX/EDGE TABLES
    /// clauses laid out one element definition per line.
    pub(crate) fn format_create_prop_graph_stmt(&self, node: &SyntaxNode, b: usize) -> (r: String)
        ensures
            b == 0 ==> r@ == node_text(self.chars@, *node),
            b > 0 ==> has_prefix(r@, cased(self.config, "CREATE"@)),
        decreases b,
    {
        if b == 0 {
            return self.text(node);
        }
        let d = b - 1;
        let name = match node.find_child("qualified_name") {
            Some(n) => self.format_expr(n, d),
            None => String::new(),
        };
        let mut header = self.kw("CREATE");
        let ghost lead = header@;
        proof { lemma_prefix_self(lead); }
        if let Some(temp) = node.find_child("OptTemp") {
            let t = self.render_graph_inline(temp, d);
            let ghost h0 = header@;
            push_char(&mut header, ' ');
            push_str(&mut header, t.as_str());
            proof {
                assert(header@ =~= h0 + (seq![' '] + t@));
                lemma_prefix_append(h0, seq![' '] + t@, lead);
            }
        }
        let p = self.kw("PROPERTY");
        let g = self.kw("GRAPH");
        let tail = concat(&[" ", p.as_str(), " ", g.as_str(), " ", name.as_str()]);
        let ghost h1 = header@;
        push_str(&mut header, tail.as_str());
        proof { lemma_prefix_append(h1, tail@, lead); }
        let mut lines: Vec<String> = Vec::new();
        lines.push(header);
        let ghost first = lines@[0];
        if let Some(c) = node.find_child("opt_vertex_tables_clause") {
            if let Some(inner) = c.find_child_any(&["vertex_tables_clause", "edge_tables_clause"]) {
                self.format_graph_tables_clause(inner, "vertex_synonym", "vertex_table_list", "", &mut lines, d);
            }
        }
        if let Some(c) = node.find_child("opt_edge_tables_clause") {
            if let Some(inner) = c.find_child_any(&["vertex_tables_clause", "edge_tables_clause"]) {
                self.format_graph_tables_clause(inner, "edge_synonym", "edge_table_list", "", &mut lines, d);
            }
        }
        let r = join(&lines, "\n");
        proof {
            assert(lines@[0] == first);
            crate::strs::lemma_lines_lead(lines@, r@, lead);
        }
        r
    }

    pub(crate) fn format_alter_prop_graph_stmt(&self, node: &SyntaxNode, b: usize) -> (r: String)
        ensures
            b == 0 ==> r@ == node_text(self.chars@, *node),
            b > 0 && (crate::plpgsql::holds_kind(*node, "vertex_tables_clause"@)
                || crate::plpgsql::holds_kind(*node, "edge_tables_clause"@))
                ==> has_prefix(r@, cased(self.config, "ALTER"@) + " "@ + cased(self.config, "PROPERTY"@) + " "@
                    + cased(self.config, "GRAPH"@) + " "@),
        decreases b,
    {
        if b == 0 {
            return self.text(node);
        }
        let d = b - 1;
        let name = match node.find_child("qualified_name") {
            Some(n) => self.format_expr(n, d),
            None => String::new(),
        };
        // Only the `ADD ... TABLES` forms carry table clauses and get the
        // block layout; the other forms render on one line.
        let has_tables = node.has_child("vertex_tables_clause") || node.has_child("edge_tables_clause");
        if !has_tables {
            return self.render_graph_inline(node, d);
        }
        let add_kw = self.kw("ADD");
        let add = concat(&[add_kw.as_str(), " "]);
        let a = self.kw("ALTER");
        let p = self.kw("PROPERTY");
        let g = self.kw("GRAPH");
        let mut lines: Vec<String> = Vec::new();
        let first = concat(&[a.as_str(), " ", p.as_str(), " ", g.as_str(), " ", name.as_str()]);
        let ghost lead = a@ + " "@ + p@ + " "@ + g@ + " "@;
        proof {
            reveal_with_fuel(crate::strs::concat_views, 8);
            assert(first@.take(lead.len() as int) =~= lead);
        }
        lines.push(first);
        let named = node.named_children();
        let mut k: usize = 0;
        while k < named.len()
            invariant
                lines@.len() >= 1,
                lines@[0] == first,
            decreases named.len() - k,
        {
            let child = named[k];
            k += 1;
            if child.is("vertex_tables_clause") {
                self.format_graph_tables_clause(child, "vertex_synonym", "vertex_table_list", add.as_str(), &mut lines, d);
            } else if child.is("edge_tables_clause") {
                self.format_graph_tables_clause(child, "edge_synonym", "edge_table_list", add.as_str(), &mut lines, d);
            }
        }
        let r = join(&lines, "\n");
        proof { crate::strs::lemma_lines_lead(lines@, r@, lead); }
        r
    }

    pub(crate) fn format_graph_tables_clause(&self, clause: &SyntaxNode, synonym_kind: &str, list_kind: &str, lead: &str,
        lines: &mut Vec<String>, b: usize)
        ensures
            forall|k: int| 0 <= k < old(lines)@.len() ==> final(lines)@[k] == old(lines)@[k],
            b == 0 ==> final(lines)@ == old(lines)@,
            b > 0 ==> final(lines)@.len() >= old(lines)@.len() + 2
                && has_prefix(final(lines)@[old(lines)@.len() as int]@, self.config.indent@ + lead@)
                && final(lines)@.last()@ == self.config.indent@ + ")"@,
        decreases b,
    {
        if b == 0 {
            return;
        }
        let ghost l0 = lines@;
        let d = b - 1;
        let indent = self.config.indent;
        let synonym = match clause.find_child(synonym_kind) {
            Some(s) => self.format_keyword_node(s),
            None => String::new(),
        };
        let t = self.kw("TABLES");
        let head = concat(&[indent, lead, synonym.as_str(), " ", t.as_str(), " ("]);
        proof {
            reveal_with_fuel(crate::strs::concat_views, 7);
            assert(head@.take((indent@ + lead@).len() as int) =~= indent@ + lead@);
        }
        lines.push(head);
        if let Some(list) = clause.find_child(list_kind) {
            let defs = flatten_list(list, list_kind);
            if self.config.river {
                self.graph_defs_aligned(&defs, lines, d);
            } else {
                // One element per line; pg_dump's 4-space indent gives the
                // 8-space element indent that pg_get_propgraphdef emits.
                self.graph_defs_simple(&defs, lines, d);
            }
        }
        let close = concat(&[indent, ")"]);
        proof { reveal_with_fuel(crate::strs::concat_views, 3); assert(close@ =~= indent@ + ")"@); }
        lines.push(close);
    }

    /// One element per line, without column alignment.
    pub(crate) fn graph_defs_simple(&self, defs: &Vec<&SyntaxNode>, lines: &mut Vec<String>, b: usize)
        ensures
            forall|k: int| 0 <= k < old(lines)@.len() ==> final(lines)@[k] == old(lines)@[k],
            b == 0 ==> final(lines)@ == old(lines)@,
            b > 0 ==> final(lines)@.len() == old(lines)@.len() + defs@.len(),
            b > 0 ==> forall|k: int| old(lines)@.len() <= k < final(lines)@.len()
                ==> has_prefix(#[trigger] final(lines)@[k]@, self.config.indent@ + self.config.indent@),
        decreases b,
    {
        if b == 0 {
            return;
        }
        let ghost l0 = lines@;
        let elem = concat(&[self.config.indent, self.config.indent]);
        proof { reveal_with_fuel(crate::strs::concat_views, 3); assert(elem@ =~= self.config.indent@ + self.config.indent@); }
        let last = defs.len().saturating_sub(1);
        let mut i: usize = 0;
        while i < defs.len()
            invariant
                i <= defs@.len(),
                lines@.len() == l0.len() + i,
                forall|k: int| 0 <= k < l0.len() ==> lines@[k] == l0[k],
                forall|k: int| l0.len() <= k < lines@.len() ==> has_prefix(#[trigger] lines@[k]@, elem@),
            decreases defs.len() - i,
        {
            let comma = if i < last { "," } else { "" };
            let t = self.render_graph_inline(defs[i], b - 1);
            let l = concat(&[elem.as_str(), t.as_str(), comma]);
            proof {
                reveal_with_fuel(crate::strs::concat_views, 4);
                assert(l@.take(elem@.len() as int) =~= elem@);
            }
            lines.push(l);
            i += 1;
        }
    }

    /// One element per line, each field (name, KEY, SOURCE, DESTINATION,
    /// LABEL/PROPERTIES) padded into an aligned column.
    pub(crate) fn graph_defs_aligned(&self, defs: &Vec<&SyntaxNode>, lines: &mut Vec<String>, b: usize)
        ensures
            forall|k: int| 0 <= k < old(lines)@.len() ==> final(lines)@[k] == old(lines)@[k],
            b == 0 ==> final(lines)@ == old(lines)@,
            b > 0 ==> final(lines)@.len() == old(lines)@.len() + defs@.len(),
        decreases b,
    {
        if b == 0 {
            return;
        }
        let ghost l0 = lines@;
        let elem = concat(&[self.config.indent, self.config.indent]);
        let mut rows: Vec<Vec<String>> = Vec::new();
        let mut i: usize = 0;
        while i < defs.len()
            invariant
                i <= defs@.len(),
                rows@.len() == i,
                forall|r: int| 0 <= r < rows@.len() ==> #[trigger] rows@[r]@.len() == 5,
            decreases defs.len() - i,
        {
            rows.push(self.graph_element_cells(defs[i], b - 1));
            i += 1;
        }
        // Column widths over the fields present in at least one element.
        let mut widths: Vec<usize> = vec![0, 0, 0, 0, 0];
        let mut i: usize = 0;
        while i < rows.len()
            invariant
                widths@.len() == 5,
                rows@.len() == defs@.len(),
                forall|r: int| 0 <= r < rows@.len() ==> #[trigger] rows@[r]@.len() == 5,
            decreases rows.len() - i,
        {
            let mut c: usize = 0;
            while c < 5
                invariant
                    widths@.len() == 5,
                    i < rows@.len(),
                    rows@[i as int]@.len() == 5,
                decreases 5 - c,
            {
                let n = char_count(rows[i][c].as_str());
                if n > widths[c] {
                    widths.set(c, n);
                }
                c += 1;
            }
            i += 1;
        }
        let mut active: Vec<usize> = Vec::new();
        let mut c: usize = 0;
        while c < 5
            invariant
                widths@.len() == 5,
                rows@.len() == defs@.len(),
                forall|x: int| 0 <= x < active@.len() ==> #[trigger] active@[x] < 5,
            decreases 5 - c,
        {
            if widths[c] > 0 {
                active.push(c);
            }
            c += 1;
        }
        let last_row = rows.len().saturating_sub(1);
        let mut i: usize = 0;
        while i < rows.len()
            invariant
                widths@.len() == 5,
                rows@.len() == defs@.len(),
                i <= rows@.len(),
                lines@.len() == l0.len() + i,
                forall|k: int| 0 <= k < l0.len() ==> lines@[k] == l0[k],
                forall|r: int| 0 <= r < rows@.len() ==> #[trigger] rows@[r]@.len() == 5,
                forall|x: int| 0 <= x < active@.len() ==> #[trigger] active@[x] < 5,
            decreases rows.len() - i,
        {
            let mut line = elem.clone();
            let mut j: usize = 0;
            while j < active.len()
                invariant
                    widths@.len() == 5,
                    i < rows@.len(),
                    rows@[i as int]@.len() == 5,
                    forall|x: int| 0 <= x < active@.len() ==> #[trigger] active@[x] < 5,
                decreases active.len() - j,
            {
                let c = active[j];
                let cell = rows[i][c].as_str();
                push_str(&mut line, cell);
                if j + 1 < active.len() {
                    // Pad the field to its column width, then one space.
                    let n = char_count(cell);
                    let pad = widths[c].saturating_sub(n).saturating_add(1);
                    let sp = spaces_str(pad);
                    push_str(&mut line, sp.as_str());
                }
                j += 1;
            }
            let mut line = trim_end(line.as_str());
            if i < last_row {
                push_char(&mut line, ',');
            }
            lines.push(line);
            i += 1;
        }
    }

    /// The five aligned fields of an element definition: name (with any
    /// alias), KEY, SOURCE, DESTINATION, LABEL/PROPERTIES; absent ones empty.
    pub(crate) fn graph_element_cells(&self, def: &SyntaxNode, b: usize) -> (r: Vec<String>)
        ensures
            r@.len() == 5,
        decreases b,
    {
        let mut cells: Vec<String> = vec![String::new(), String::new(), String::new(), String::new(), String::new()];
        if b == 0 {
            return cells;
        }
        let d = b - 1;
        let named = def.named_children();
        let mut k: usize = 0;
        while k < named.len()
            invariant
                cells@.len() == 5,
            decreases named.len() - k,
        {
            let child = named[k];
            k += 1;
            if child.is("qualified_name") {
                cells.set(0, self.format_expr(child, d));
            } else if child.is("opt_propgraph_table_alias") {
                let t = self.render_graph_inline(child, d);
                let c0 = concat(&[cells[0].as_str(), " ", t.as_str()]);
                cells.set(0, c0);
            } else if child.is("opt_graph_table_key_clause") {
                cells.set(1, self.render_graph_inline(child, d));
            } else if child.is("source_vertex_table") {
                cells.set(2, self.render_graph_inline(child, d));
            } else if child.is("destination_vertex_table") {
                cells.set(3, self.render_graph_inline(child, d));
            } else if child.is("opt_element_table_label_and_properties") {
                cells.set(4, self.render_graph_inline(child, d));
            }
        }
        cells
    }

    /// Render a property-graph clause inline, casing keyword leaves and
    /// gluing punctuation.
    pub(crate) fn render_graph_inline(&self, node: &SyntaxNode, b: usize) -> (r: String)
        decreases b,
    {
        if b == 0 {
            return self.text(node);
        }
        let d = b - 1;
        if node.kind_starts_with("kw_") {
            return self.format_keyword_node(node);
        }
        if node.is("qualified_name") {
            return self.format_expr(node, d);
        }
        if node.is("labeled_expr_list") {
            return self.format_labeled_expr_list(node, d);
        }
        if node.is_any(&["name", "ColId", "columnref", "identifier", "quoted_identifier"]) {
            return self.text(node);
        }
        if node.children.len() == 0 {
            return self.text(node);
        }
        let mut out = String::new();
        let mut i: usize = 0;
        while i < node.children.len()
            decreases node.children.len() - i,
        {
            let child = &node.children[i];
            i += 1;
            let piece = self.render_graph_inline(child, d);
            if piece.as_str().is_empty() {
                continue;
            }
            if out.as_str().is_empty() {
                push_str(&mut out, piece.as_str());
                continue;
            }
            let tok = self.text(child);
            let last = match last_char(out.as_str()) {
                Some(c) => c,
                None => ' ',
            };
            if same(tok.as_str(), ")") || same(tok.as_str(), ",") || last == '(' {
                push_str(&mut out, piece.as_str());
            } else {
                push_char(&mut out, ' ');
                push_str(&mut out, piece.as_str());
            }
        }
        out
    }

    /// Format a table reference of a FROM clause: the table name with alias.
    pub(crate) fn format_table_ref(&self, node: &SyntaxNode, b: usize) -> (r: String)
        ensures
            b == 0 ==> r@ == node_text(self.chars@, *node),
            b > 1 && crate::plpgsql::holds_kind(*node, "kw_graph_table"@)
                ==> has_prefix(r@, cased(self.config, "GRAPH_TABLE"@) + " (\n"@ + self.config.indent@),
            b > 0 && !crate::plpgsql::holds_kind(*node, "kw_graph_table"@) && named_of(node.children@).len() == 0
                ==> r@.len() == 0,
        decreases b,
    {
        if b == 0 {
            return self.text(node);
        }
        let d = b - 1;
        if node.has_child("kw_graph_table") {
            return self.format_graph_table(node, d);
        }
        let named = node.named_children();
        let mut parts: Vec<String> = Vec::new();
        let mut k: usize = 0;
        while k < named.len()
            invariant
                k <= named@.len(),
                named@.map_values(|c: &SyntaxNode| *c) == named_of(node.children@),
                k == 0 ==> parts@.len() == 0,
            decreases named.len() - k,
        {
            let child = named[k];
            k += 1;
            if child.is("relation_expr") {
                parts.push(self.format_relation_expr(child, d));
            } else if child.is("opt_alias_clause") || child.is("alias_clause") {
                parts.push(self.format_alias(child, d));
            } else if child.is("joined_table") {
                return self.text(child);
            } else {
                parts.push(self.format_expr(child, d));
            }
        }
        let r = join(&parts, " ");
        proof {
            if named@.len() == 0 {
                assert(string_views(parts@) =~= Seq::<Seq<char>>::empty());
            }
        }
        r
    }
}

/// Each line of `s` with runs of whitespace after its indentation collapsed
/// to one space (outside quotes).
pub(crate) fn squeeze_lines(s: &str) -> (r: String)
    ensures
        (forall|k: int| 0 <= k < crate::text::lines_of(s@).len()
            ==> small(#[trigger] crate::text::lines_of(s@)[k]))
            ==> r@ == join_with(crate::text::lines_of(s@).map_values(|l: Seq<char>| squeezed_line(l)), "\n"@),
{
    let lines = lines_of_str(s);
    let ghost ls = crate::text::lines_of(s@);
    let mut out: Vec<String> = Vec::new();
    let mut k: usize = 0;
    while k < lines.len()
        invariant
            k <= lines@.len(),
            string_views(lines@) == ls,
            out@.len() == k,
            forall|x: int| 0 <= x < k && small(ls[x]) ==> (#[trigger] out@[x])@ == squeezed_line(ls[x]),
        decreases lines.len() - k,
    {
        let line = lines[k].as_str();
        proof {
            assert(string_views(lines@)[k as int] == lines@[k as int]@);
            crate::stmt::lemma_first_non_ws_bounds(line@, 0);
        }
        let rest = trim_start(line);
        let n = char_count(line);
        let m = char_count(rest.as_str());
        let lead = if m <= n { slice_chars(line, 0, n - m) } else { String::new() };
        let cleaned = squeeze(rest.as_str());
        let l = concat(&[lead.as_str(), cleaned.as_str()]);
        proof {
            reveal_with_fuel(crate::strs::concat_views, 3);
            if small(line@) {
                assert(small(rest@));
                assert(l@ =~= squeezed_line(line@));
            }
        }
        out.push(l);
        k += 1;
    }
    let r = join(&out, "\n");
    proof {
        if forall|x: int| 0 <= x < ls.len() ==> small(#[trigger] ls[x]) {
            assert(string_views(out@) =~= ls.map_values(|l: Seq<char>| squeezed_line(l)));
        }
    }
    r
}

} // verus!
