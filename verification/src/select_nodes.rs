//! SELECT statement formatting: clause collection, the river layout and the
//! left-aligned layout, CTEs and VALUES lists.
#![verifier::loop_isolation(false)]

use vstd::prelude::*;
use crate::chars::{push_char, push_str, chars_of, string_of};
use crate::config::{Formatter, StyleConfig, cased, node_text};
use crate::expr_nodes::fits;
use crate::select::river_line_text;
use crate::expr::{continuation_lines, string_views};
use crate::text::{spaces, lines_of};
use crate::strs::{has_suffix, lemma_join_ends_with_last, occurs_in, opens_with, has_prefix, lemma_prefix_self, lemma_prefix_append,
    lemma_opens_with_prefix, lemma_opens_with_trans, lemma_opens_with_shorter,
    lemma_opens_with_append, lemma_concat_starts_with_first, lemma_prefix_trans, lemma_lines_lead,
    lemma_join_starts_with_first, concat, contains, ends_with, join, lines_of_str, owned,
    spaces_str, trim, find, char_count, slice_chars};
use crate::style::Style;
use crate::stmt::trim_of;
use crate::text::small;
use crate::tree::{SyntaxNode, flatten_list, kind_among, named_of, lemma_named_of_contains, flat_items, first_kid, node_views,
    first_kid_within, lemma_found_kid, lemma_no_kid};
use crate::expr::join_with;
use crate::strs::lemma_wraps;
use crate::lexical::{occurs_at, copy_range};
use crate::strs::occurs_at_chars;
use crate::plpgsql::push_line;

verus! {

/// The clauses of a SELECT statement.
pub struct SelectClauses<'n> {
    pub distinct: Option<&'n SyntaxNode>,
    pub targets: Vec<&'n SyntaxNode>,
    pub from: Option<&'n SyntaxNode>,
    pub where_clause: Option<&'n SyntaxNode>,
    pub group_clause: Option<&'n SyntaxNode>,
    pub having_clause: Option<&'n SyntaxNode>,
    pub sort_clause: Option<&'n SyntaxNode>,
    pub limit_clause: Option<&'n SyntaxNode>,
    pub offset_clause: Option<&'n SyntaxNode>,
    pub with_clause: Option<&'n SyntaxNode>,
    /// UNION / INTERSECT / EXCEPT.
    pub set_op: Option<SetOp<'n>>,
    /// A VALUES list (INSERT ... VALUES).
    pub values_clause: Option<&'n SyntaxNode>,
}

/// A set operation and its right-hand side.
pub struct SetOp<'n> {
    pub keyword: String,
    pub quantifier: Option<String>,
    pub right: &'n SyntaxNode,
    /// Clauses of the right side gathered from loose siblings, where the
    /// parser recovered from an error.
    pub right_clauses: Option<Box<SelectClauses<'n>>>,
}

/// The kinds of node that hold a LIMIT (and possibly an OFFSET).
pub open spec fn limit_kind(k: Seq<char>) -> bool {
    k == "limit_clause"@ || k == "select_limit"@
}

/// Each clause slot holds a node of that clause's kind.
pub open spec fn clauses_kinded(c: SelectClauses) -> bool {
    &&& (c.with_clause matches Some(n) ==> n.kind@ == "with_clause"@)
    &&& (c.distinct matches Some(n) ==> n.kind@ == "distinct_clause"@)
    &&& (c.from matches Some(n) ==> n.kind@ == "from_clause"@)
    &&& (c.where_clause matches Some(n) ==> n.kind@ == "where_clause"@)
    &&& (c.group_clause matches Some(n) ==> n.kind@ == "group_clause"@)
    &&& (c.having_clause matches Some(n) ==> n.kind@ == "having_clause"@)
    &&& (c.sort_clause matches Some(n) ==> n.kind@ == "sort_clause"@)
    &&& (c.limit_clause matches Some(n) ==> limit_kind(n.kind@))
    &&& (c.offset_clause matches Some(n) ==> n.kind@ == "offset_clause"@ || limit_kind(n.kind@))
    &&& (c.values_clause matches Some(n) ==> n.kind@ == "values_clause"@)
}

/// Child `i` of `n` is its first named child of one of `kinds`.
pub open spec fn first_among_at(n: SyntaxNode, i: int, kinds: Seq<&str>) -> bool {
    &&& 0 <= i < n.children@.len()
    &&& n.children@[i].named && kind_among(n.children@[i].kind@, kinds)
    &&& forall|x: int| 0 <= x < i ==> !(#[trigger] n.children@[x].named && kind_among(n.children@[x].kind@, kinds))
}

/// Child `i` of `n` is its first named expression (`a_expr` or `c_expr`).
pub open spec fn first_expr_at(n: SyntaxNode, i: int) -> bool {
    first_among_at(n, i, seq!["a_expr", "c_expr"])
}

/// The AND and OR keywords among `s`, in order, cased by `config`.
pub open spec fn and_or_words(config: StyleConfig, s: Seq<SyntaxNode>) -> Seq<Seq<char>>
    decreases s.len(),
{
    if s.len() == 0 {
        Seq::empty()
    } else if s.last().kind@ == "kw_and"@ {
        and_or_words(config, s.drop_last()).push(cased(config, "AND"@))
    } else if s.last().kind@ == "kw_or"@ {
        and_or_words(config, s.drop_last()).push(cased(config, "OR"@))
    } else {
        and_or_words(config, s.drop_last())
    }
}

/// The keywords that join the conditions of `n`: those among its named
/// children where it is an `a_expr`, none otherwise.
pub open spec fn condition_words(config: StyleConfig, n: SyntaxNode) -> Seq<Seq<char>> {
    if n.kind@ == "a_expr"@ {
        and_or_words(config, named_of(n.children@))
    } else {
        Seq::empty()
    }
}

/// How many of `s` are of kind `kind`.
pub open spec fn kind_count(s: Seq<SyntaxNode>, kind: Seq<char>) -> nat
    decreases s.len(),
{
    if s.len() == 0 {
        0
    } else {
        kind_count(s.drop_last(), kind) + if s.last().kind@ == kind { 1nat } else { 0nat }
    }
}

/// Whether a set-operation keyword is of kind `k`.
pub open spec fn set_op_kind(k: Seq<char>) -> bool {
    k == "kw_union"@ || k == "kw_intersect"@ || k == "kw_except"@
}

/// None of the first `k` of `s` is a set-operation keyword.
pub open spec fn no_set_op_before(s: Seq<SyntaxNode>, k: int) -> bool {
    forall|y: int| 0 <= y < k && y < s.len() ==> !set_op_kind((#[trigger] s[y]).kind@)
}

/// Some node of kind `kind` in `s` comes before any set-operation keyword.
pub open spec fn clause_before_set_op(s: Seq<SyntaxNode>, kind: Seq<char>) -> bool {
    exists|x: int| 0 <= x < s.len() && (#[trigger] s[x]).kind@ == kind && no_set_op_before(s, x)
}

/// Every clause that `old` holds, `new` holds too.
pub open spec fn clauses_grow(old: SelectClauses, new: SelectClauses) -> bool {
    &&& (old.from is Some ==> new.from is Some)
    &&& (old.where_clause is Some ==> new.where_clause is Some)
    &&& (old.with_clause is Some ==> new.with_clause is Some)
    &&& (old.distinct is Some ==> new.distinct is Some)
    &&& (old.group_clause is Some ==> new.group_clause is Some)
    &&& (old.having_clause is Some ==> new.having_clause is Some)
    &&& (old.sort_clause is Some ==> new.sort_clause is Some)
    &&& (old.limit_clause is Some ==> new.limit_clause is Some)
    &&& (old.offset_clause is Some ==> new.offset_clause is Some)
    &&& (old.values_clause is Some ==> new.values_clause is Some)
    &&& (old.set_op is Some ==> new.set_op is Some)
}

/// Whether a VALUES list stands in the SELECT node `n`: a `values_clause`
/// child, or one within a `simple_select` or `select_clause` child.
pub open spec fn values_within(n: SyntaxNode) -> bool
    decreases n,
{
    exists|i: int| 0 <= i < n.children@.len() && #[trigger] n.children@[i].named
        && (n.children@[i].kind@ == "values_clause"@
            || ((n.children@[i].kind@ == "simple_select"@ || n.children@[i].kind@ == "select_clause"@)
                && values_within(n.children@[i])))
}

/// The node of a SelectStmt that holds its clauses: its `select_no_parens`
/// child where it has one, else the statement itself.
pub open spec fn select_body(n: SyntaxNode) -> SyntaxNode {
    match first_kid(n, "select_no_parens"@) {
        Some(s) => s,
        None => n,
    }
}

/// Whether `s` stands between two conditions: a space, the operator `op`
/// and at most one space more.
pub open spec fn condition_separator(s: Seq<char>, op: Seq<char>) -> bool {
    s == seq![' '] + op || s == seq![' '] + op + seq![' ']
}

/// The conditions `conds` are the pieces of `t` at `cuts`, each trimmed: the
/// first piece starts `t`, and between one piece and the next stands the
/// next condition's operator (`condition_separator`).
pub open spec fn conditions_cut(t: Seq<char>, conds: Seq<Condition>, cuts: Seq<(int, int)>) -> bool {
    &&& cuts.len() == conds.len()
    &&& (cuts.len() > 0 ==> cuts[0].0 == 0)
    &&& forall|k: int| 0 <= k < cuts.len() ==> 0 <= (#[trigger] cuts[k]).0 <= cuts[k].1 <= t.len()
        && conds[k].text@ == trim_of(t.subrange(cuts[k].0, cuts[k].1))
    &&& forall|k: int| 1 <= k < cuts.len() ==> cuts[k - 1].1 <= (#[trigger] cuts[k]).0
        && condition_separator(t.subrange(cuts[k - 1].1, cuts[k].0), conds[k].op@)
}

/// What follows the last condition, from `from` on: nothing, or a dangling
/// operator (`a` or `o`) and blanks.
pub open spec fn condition_tail(t: Seq<char>, from: int, a: Seq<char>, o: Seq<char>) -> bool {
    from == t.len() || exists|x: int| from <= x <= t.len()
        && (condition_separator(t.subrange(from, x), a) || condition_separator(t.subrange(from, x), o))
        && #[trigger] trim_of(t.subrange(x, t.len() as int)).len() == 0
}

/// Whether `r` is the text `t` split at its top-level AND/OR: one condition
/// that is all of `t`, or the trimmed pieces of `t` between the operators,
/// with nothing after the last but a dangling operator and blanks.
pub open spec fn splits_text(config: StyleConfig, t: Seq<char>, r: Seq<Condition>) -> bool {
    &&& (r.len() == 1 ==> r[0].text@ == t)
    &&& (r.len() >= 2 ==> exists|cuts: Seq<(int, int)>| #[trigger] conditions_cut(t, r, cuts)
        && condition_tail(t, cuts.last().1, cased(config, "AND"@), cased(config, "OR"@)))
}

/// Whether `c[start..i]` ends with `p`.
fn ends_here(c: &Vec<char>, start: usize, i: usize, p: &Vec<char>) -> (r: bool)
    requires
        start <= i <= c@.len(),
    ensures
        r == (p@.len() <= i - start && c@.subrange(i - p@.len(), i as int) == p@),
{
    if p.len() > i - start {
        return false;
    }
    let r = occurs_at_chars(c, p, i - p.len());
    proof {
        if r { assert(c@.subrange(i - p@.len(), i as int) == p@); }
    }
    r
}

/// Whether `n` has a named child of kind `kind`.
pub open spec fn has_kid_of(n: SyntaxNode, kind: Seq<char>) -> bool {
    exists|i: int| 0 <= i < n.children@.len() && #[trigger] n.children@[i].named && n.children@[i].kind@ == kind
}

/// Whether `n` has a named expression child: a condition.
pub open spec fn has_condition_kid(n: SyntaxNode) -> bool {
    exists|i: int| 0 <= i < n.children@.len() && #[trigger] n.children@[i].named
        && kind_among(n.children@[i].kind@, seq!["a_expr", "c_expr"])
}

/// Whether, where `present` holds, one of `ls` opens (after spaces) with `w`.
pub open spec fn line_opening(ls: Seq<Seq<char>>, present: bool, w: Seq<char>) -> bool {
    present ==> exists|i: int| 0 <= i < ls.len() && opens_with(#[trigger] ls[i], w)
}

/// The clause lines of a SELECT laid out as `ls`: a WHERE or HAVING with a
/// condition, a GROUP BY and an ORDER BY with items each open a line with
/// their keyword in the style's case, followed by `gap`.
pub open spec fn clause_lines(config: StyleConfig, c: SelectClauses, ls: Seq<Seq<char>>, gap: Seq<char>) -> bool {
    &&& line_opening(ls, c.where_clause matches Some(w) && has_condition_kid(*w), cased(config, "WHERE"@) + gap)
    &&& line_opening(ls, c.group_clause matches Some(g) && has_kid_of(*g, "group_by_list"@),
        cased(config, "GROUP"@) + seq![' '] + cased(config, "BY"@) + gap)
    &&& line_opening(ls, c.having_clause matches Some(h) && has_condition_kid(*h), cased(config, "HAVING"@) + gap)
    &&& line_opening(ls, c.sort_clause matches Some(o) && has_kid_of(*o, "sortby_list"@),
        cased(config, "ORDER"@) + seq![' '] + cased(config, "BY"@) + seq![' '])
}

/// A line that `appended` keeps stays as it was.
pub proof fn lemma_appended_line(a: Seq<String>, b: Seq<String>, i: int)
    requires
        appended(a, b),
        0 <= i < a.len(),
    ensures
        b[i]@ == a[i]@,
{
    assert(string_views(b).take(a.len() as int)[i] == string_views(a)[i]);
}

/// Where a SELECT layout puts its clause lines: each clause's line, added
/// after the earlier clauses, is kept by the later ones and follows the
/// target lines.
pub proof fn lemma_clause_lines_kept(config: StyleConfig, c: SelectClauses, t: Seq<String>, r1: Seq<String>,
    r2: Seq<String>, r3: Seq<String>, r4: Seq<String>, r5: Seq<String>, r7: Seq<String>, d: int, gap: Seq<char>)
    requires
        appended(r1, r7), appended(r2, r7), appended(r3, r7), appended(r4, r7), appended(r5, r7),
        d > 1 && (c.where_clause matches Some(w) && has_condition_kid(*w))
            ==> adds_line_opening(r1, r2, cased(config, "WHERE"@) + gap),
        d > 0 && (c.group_clause matches Some(g) && has_kid_of(*g, "group_by_list"@))
            ==> adds_line_opening(r2, r3, cased(config, "GROUP"@) + seq![' '] + cased(config, "BY"@) + gap),
        d > 1 && (c.having_clause matches Some(h) && has_condition_kid(*h))
            ==> adds_line_opening(r3, r4, cased(config, "HAVING"@) + gap),
        d > 0 && (c.sort_clause matches Some(o) && has_kid_of(*o, "sortby_list"@))
            ==> adds_line_opening(r4, r5, cased(config, "ORDER"@) + seq![' '] + cased(config, "BY"@) + seq![' ']),
        d > 1,
    ensures
        clause_lines(config, c, string_views(t) + string_views(r7), gap),
{
    let ls = string_views(t) + string_views(r7);
    if c.where_clause matches Some(w) && has_condition_kid(*w) {
        let k = r1.len() as int;
        lemma_appended_line(r2, r7, k);
        assert(ls[t.len() + k] == r7[k]@);
    }
    if c.group_clause matches Some(g) && has_kid_of(*g, "group_by_list"@) {
        let k = r2.len() as int;
        lemma_appended_line(r3, r7, k);
        assert(ls[t.len() + k] == r7[k]@);
    }
    if c.having_clause matches Some(h) && has_condition_kid(*h) {
        let k = r3.len() as int;
        lemma_appended_line(r4, r7, k);
        assert(ls[t.len() + k] == r7[k]@);
    }
    if c.sort_clause matches Some(o) && has_kid_of(*o, "sortby_list"@) {
        let k = r4.len() as int;
        lemma_appended_line(r5, r7, k);
        assert(ls[t.len() + k] == r7[k]@);
    }
}

/// Whether some of the first `k` of `s` is of kind `kind`.
pub open spec fn kind_within(s: Seq<SyntaxNode>, k: int, kind: Seq<char>) -> bool {
    exists|x: int| 0 <= x < k && x < s.len() && (#[trigger] s[x]).kind@ == kind
}

/// A node of kind `kind` among the first `k + 1` of `s` is among the first
/// `k` or is the one at `k`.
pub proof fn lemma_kind_within_step(s: Seq<SyntaxNode>, k: int, kind: Seq<char>)
    requires
        0 <= k < s.len(),
    ensures
        kind_within(s, k + 1, kind) == (kind_within(s, k, kind) || s[k].kind@ == kind),
{
    if kind_within(s, k + 1, kind) && !kind_within(s, k, kind) {
        let x = choose|x: int| 0 <= x < k + 1 && x < s.len() && (#[trigger] s[x]).kind@ == kind;
        assert(x == k);
    }
}

/// Each clause among the first `k` of `s` has been recorded in `c`: WITH,
/// DISTINCT, FROM, WHERE, GROUP BY, HAVING, ORDER BY, OFFSET and VALUES.
pub open spec fn clauses_recorded(s: Seq<SyntaxNode>, k: int, c: SelectClauses) -> bool {
    &&& (kind_within(s, k, "with_clause"@) ==> c.with_clause is Some)
    &&& (kind_within(s, k, "distinct_clause"@) ==> c.distinct is Some)
    &&& (kind_within(s, k, "from_clause"@) ==> c.from is Some)
    &&& (kind_within(s, k, "where_clause"@) ==> c.where_clause is Some)
    &&& (kind_within(s, k, "group_clause"@) ==> c.group_clause is Some)
    &&& (kind_within(s, k, "having_clause"@) ==> c.having_clause is Some)
    &&& (kind_within(s, k, "sort_clause"@) ==> c.sort_clause is Some)
    &&& (kind_within(s, k, "offset_clause"@) ==> c.offset_clause is Some)
    &&& (kind_within(s, k, "values_clause"@) ==> c.values_clause is Some)
}

/// Where `s` holds a set-operation keyword, the clauses before the first one
/// are recorded in `c`, and so is the set operation; otherwise every clause
/// of `s` is recorded.
pub open spec fn select_clauses_recorded(s: Seq<SyntaxNode>, c: SelectClauses) -> bool {
    &&& (forall|x: int| 0 <= x < s.len() && set_op_kind((#[trigger] s[x]).kind@) && no_set_op_before(s, x)
        ==> clauses_recorded(s, x, c) && c.set_op is Some)
    &&& (no_set_op_before(s, s.len() as int) ==> clauses_recorded(s, s.len() as int, c))
}

/// Whether `new` is `old` with lines added after it.
pub open spec fn appended(old: Seq<String>, new: Seq<String>) -> bool {
    old.len() <= new.len() && string_views(new).take(old.len() as int) == string_views(old)
}

/// Whether `new` adds at least one line to `old`, the first of them opening
/// (after spaces) with `w`.
pub open spec fn adds_line_opening(old: Seq<String>, new: Seq<String>, w: Seq<char>) -> bool {
    appended(old, new) && old.len() < new.len() && opens_with(new[old.len() as int]@, w)
}

/// Lines added after lines added are lines added.
pub proof fn lemma_appended_trans(a: Seq<String>, b: Seq<String>, c: Seq<String>)
    requires
        appended(a, b),
        appended(b, c),
    ensures
        appended(a, c),
{
    assert(string_views(c).take(a.len() as int) =~= string_views(b).take(a.len() as int));
}

/// Nothing added is lines added.
pub proof fn lemma_appended_self(a: Seq<String>)
    ensures
        appended(a, a),
{
    assert(string_views(a).take(a.len() as int) =~= string_views(a));
}

/// One line pushed is a line added.
pub proof fn lemma_appended_push(a: Seq<String>, l: String)
    ensures
        appended(a, a.push(l)),
{
    assert(string_views(a.push(l)).take(a.len() as int) =~= string_views(a));
}

impl<'n> SelectClauses<'n> {
    /// No clause.
    pub(crate) fn empty() -> (r: Self)
        ensures
            r.targets@.len() == 0,
            r.set_op.is_none(),
            r.values_clause is None,
            clauses_kinded(r),
    {
        SelectClauses {
            distinct: None,
            targets: Vec::new(),
            from: None,
            where_clause: None,
            group_clause: None,
            having_clause: None,
            sort_clause: None,
            limit_clause: None,
            offset_clause: None,
            with_clause: None,
            set_op: None,
            values_clause: None,
        }
    }
}

/// One condition of a WHERE/HAVING/ON expression and the AND/OR before it.
pub struct Condition {
    pub op: String,
    pub text: String,
}

/// Whether any of `lines`, trimmed, contains `JOIN `.
fn has_join_line(lines: &Vec<String>) -> (r: bool)
    ensures
        r == exists|k: int| 0 <= k < lines@.len() && occurs_in(trim_of((#[trigger] lines@[k])@), "JOIN "@),
{
    let mut k: usize = 0;
    while k < lines.len()
        invariant
            k <= lines@.len(),
            forall|x: int| 0 <= x < k ==> !occurs_in(trim_of((#[trigger] lines@[x])@), "JOIN "@),
        decreases lines.len() - k,
    {
        let t = trim(lines[k].as_str());
        if contains(t.as_str(), "JOIN ") {
            return true;
        }
        k += 1;
    }
    false
}

impl<'a> Formatter<'a> {
    /// A river line, where the keyword is short enough to be measured; else
    /// the keyword and content with one space.
    pub(crate) fn rline(&self, keyword: &str, content: &str, width: usize) -> (r: String)
        ensures
            small(keyword@) && width < usize::MAX ==> r@ == river_line_text(keyword@, content@, width as nat),
            opens_with(r@, keyword@ + seq![' ']),
    {
        if fits(keyword) && width < usize::MAX {
            let r = self.river_line(keyword, content, width);
            proof {
                let kb = crate::text::byte_len(keyword@);
                let n: nat = if kb < width { (width - kb) as nat } else { 0 };
                assert(spaces(0) =~= Seq::<char>::empty());
                let fl = spaces(n) + keyword@ + seq![' '];
                assert(spaces(n) + (keyword@ + seq![' ']) =~= fl);
                lemma_prefix_self(fl);
                if content@.contains('\n') {
                    let ls = lines_of(content@);
                    let head = if ls.len() > 0 { ls[0] } else { Seq::empty() };
                    let rest = head + continuation_lines(ls, 1, spaces(crate::text::byte_len(fl)));
                    lemma_prefix_append(fl, rest, fl);
                    assert(fl + head + continuation_lines(ls, 1, spaces(crate::text::byte_len(fl))) =~= fl + rest);
                } else {
                    lemma_prefix_append(fl, content@, fl);
                }
                assert(has_prefix(r@, spaces(n) + (keyword@ + seq![' '])));
            }
            r
        } else {
            let r = concat(&[keyword, " ", content]);
            proof {
                reveal_with_fuel(crate::strs::concat_views, 4);
                reveal_strlit(" ");
                let fl = keyword@ + seq![' '];
                lemma_prefix_self(fl);
                lemma_prefix_append(fl, content@, fl);
                assert(r@ =~= fl + content@);
                lemma_opens_with_prefix(r@, fl);
            }
            r
        }
    }

    /// Format a SelectStmt node.
    pub(crate) fn format_select_stmt(&self, node: &SyntaxNode, b: usize) -> (r: String)
        ensures
            b > 3 && !values_within(select_body(*node)) ==> crate::strs::has_text(r@),
        decreases b,
    {
        if b == 0 {
            return self.text(node);
        }
        let snp = match node.find_child("select_no_parens") {
            Some(s) => {
                proof { crate::tree::lemma_found_kid(*node, "select_no_parens"@, *s); }
                s
            },
            None => node,
        };
        self.format_select_no_parens(snp, b - 1)
    }

    /// Format a select_no_parens node.
    pub(crate) fn format_select_no_parens(&self, node: &SyntaxNode, b: usize) -> (r: String)
        ensures
            b > 2 && !values_within(*node) ==> crate::strs::has_text(r@),
        decreases b,
    {
        if b == 0 {
            return self.text(node);
        }
        let d = b - 1;
        let clauses = self.collect_select_clauses(node, d);
        if clauses.values_clause.is_some() {
            return self.format_values_only(&clauses, d);
        }
        if self.config.river {
            self.format_select_river(&clauses, d)
        } else {
            self.format_select_left_aligned(&clauses, d)
        }
    }

    /// Collect the clauses of a select_no_parens (or simple_select) tree.
    pub(crate) fn collect_select_clauses<'n>(&self, node: &'n SyntaxNode, b: usize) -> (r: SelectClauses<'n>)
        ensures
            clauses_kinded(r),
            r.values_clause is Some ==> values_within(*node),
        decreases b,
    {
        let mut clauses = SelectClauses::empty();
        if b > 0 {
            self.collect_clauses_recursive(node, &mut clauses, b - 1);
        }
        clauses
    }

    #[verifier::rlimit(100)]
    #[verifier::spinoff_prover]
    pub(crate) fn collect_clauses_recursive<'n>(&self, node: &'n SyntaxNode, clauses: &mut SelectClauses<'n>, b: usize)
        requires
            clauses_kinded(*old(clauses)),
        ensures
            clauses_kinded(*final(clauses)),
            clauses_grow(*old(clauses), *final(clauses)),
            b == 0 ==> *final(clauses) == *old(clauses),
            b > 0 ==> select_clauses_recorded(named_of(node.children@), *final(clauses)),
            final(clauses).values_clause is Some ==> old(clauses).values_clause is Some || values_within(*node),
            b > 0 && clause_before_set_op(named_of(node.children@), "from_clause"@) ==> final(clauses).from is Some,
            b > 0 && clause_before_set_op(named_of(node.children@), "where_clause"@)
                ==> final(clauses).where_clause is Some,
        decreases b,
    {
        if b == 0 {
            return;
        }
        let d = b - 1;
        let children = node.named_children();
        let ghost ns = named_of(node.children@);
        let ghost c0 = *clauses;
        proof {
            reveal_strlit("with_clause");
            reveal_strlit("simple_select");
            reveal_strlit("select_clause");
            reveal_strlit("distinct_clause");
            reveal_strlit("target_list");
            reveal_strlit("opt_target_list");
            reveal_strlit("from_clause");
            reveal_strlit("where_clause");
            assert("with_clause"@[0] == 'w' && "target_list"@[0] == 't' && "from_clause"@[0] == 'f');
            assert("with_clause"@.len() == 11 && "target_list"@.len() == 11 && "from_clause"@.len() == 11);
            assert("simple_select"@.len() == 13 && "select_clause"@.len() == 13 && "distinct_clause"@.len() == 15);
            assert("opt_target_list"@.len() == 15 && "where_clause"@.len() == 12);
            reveal_strlit("group_clause");
            reveal_strlit("having_clause");
            reveal_strlit("opt_sort_clause");
            reveal_strlit("sort_clause");
            reveal_strlit("select_limit");
            reveal_strlit("limit_clause");
            reveal_strlit("offset_clause");
            reveal_strlit("kw_union");
            reveal_strlit("kw_intersect");
            reveal_strlit("kw_except");
            assert("kw_union"@[0] == 'k' && "kw_intersect"@[0] == 'k' && "kw_except"@[0] == 'k');
            assert("with_clause"@[0] == 'w' && "simple_select"@[0] == 's' && "select_clause"@[0] == 's');
            assert("distinct_clause"@[0] == 'd' && "opt_target_list"@[0] == 'o' && "where_clause"@[0] == 'w');
            assert("group_clause"@[0] == 'g' && "having_clause"@[0] == 'h' && "opt_sort_clause"@[0] == 'o');
            assert("sort_clause"@[0] == 's' && "select_limit"@[0] == 's' && "limit_clause"@[0] == 'l');
            assert("offset_clause"@[0] == 'o');
            assert("offset_clause"@.len() == 13 && "opt_sort_clause"@.len() == 15);
            reveal_strlit("values_clause");
            assert("values_clause"@[0] == 'v' && "values_clause"@.len() == 13);
        }
        let mut k: usize = 0;
        while k < children.len()
            invariant
                clauses_kinded(*clauses),
                k <= children@.len(),
                children@.map_values(|c: &SyntaxNode| *c) == ns,
                clauses_grow(c0, *clauses),
                clauses_recorded(ns, k as int, *clauses),
                clauses.values_clause is Some ==> c0.values_clause is Some || values_within(*node),
                no_set_op_before(ns, k as int),
                (exists|x: int| 0 <= x < k && (#[trigger] ns[x]).kind@ == "from_clause"@) ==> clauses.from is Some,
                (exists|x: int| 0 <= x < k && (#[trigger] ns[x]).kind@ == "where_clause"@)
                    ==> clauses.where_clause is Some,
            decreases children.len() - k,
        {
            proof { assert(ns[k as int] == *children@[k as int]); }
            let child = children[k];
            let at = k;
            k += 1;
            proof {
                crate::tree::lemma_named_of_member(node.children@, at as int);
            }
            let ghost vals0 = clauses.values_clause is Some;
            if child.is("with_clause") {
                clauses.with_clause = Some(child);
            } else if child.is("simple_select") || child.is("select_clause") {
                self.collect_clauses_recursive(child, clauses, d);
                proof {
                    if clauses.values_clause is Some && !vals0 {
                        let j = choose|j: int| 0 <= j < node.children@.len()
                            && #[trigger] node.children@[j] == ns[at as int] && node.children@[j].named;
                        assert(values_within(*child));
                        assert(node.children@[j].named && (node.children@[j].kind@ == "simple_select"@
                            || node.children@[j].kind@ == "select_clause"@) && values_within(node.children@[j]));
                        assert(values_within(*node));
                    }
                }
            } else if child.is("distinct_clause") {
                clauses.distinct = Some(child);
            } else if child.is("target_list") {
                clauses.targets = flatten_list(child, "target_list");
            } else if child.is("opt_target_list") {
                if let Some(tl) = child.find_child("target_list") {
                    clauses.targets = flatten_list(tl, "target_list");
                }
            } else if child.is("from_clause") {
                clauses.from = Some(child);
            } else if child.is("where_clause") {
                clauses.where_clause = Some(child);
            } else if child.is("group_clause") {
                clauses.group_clause = Some(child);
            } else if child.is("having_clause") {
                clauses.having_clause = Some(child);
            } else if child.is("opt_sort_clause") {
                if let Some(sc) = child.find_child("sort_clause") {
                    clauses.sort_clause = Some(sc);
                }
            } else if child.is("sort_clause") {
                clauses.sort_clause = Some(child);
            } else if child.is("select_limit") || child.is("limit_clause") {
                let ghost before = *clauses;
                self.collect_limit_clauses(child, clauses);
                proof {
                    assert(before.offset_clause is Some ==> clauses.offset_clause is Some);
                    assert(before.limit_clause is Some ==> clauses.limit_clause is Some);
                }
            } else if child.is("offset_clause") {
                clauses.offset_clause = Some(child);
            } else if child.is("kw_union") || child.is("kw_intersect") || child.is("kw_except") {
                // A set operation: the clauses after it belong to its right
                // side, so collecting stops here.
                let keyword = self.format_keyword_node(child);
                let mut quantifier: Option<String> = None;
                let mut right_clause: Option<&'n SyntaxNode> = None;
                let mut j: usize = at + 1;
                while j < children.len()
                    decreases children.len() - j,
                {
                    let sib = children[j];
                    j += 1;
                    if sib.is("set_quantifier") {
                        quantifier = Some(self.format_set_quantifier(sib));
                    } else if sib.is("select_clause") || sib.is("simple_select") {
                        right_clause = Some(sib);
                        break;
                    }
                }
                match right_clause {
                    Some(right) => {
                        clauses.set_op = Some(SetOp { keyword, quantifier, right, right_clauses: None });
                    },
                    None => {
                        // Error recovery: the right side's tokens are loose
                        // siblings after the keyword.
                        let mut rc = SelectClauses::empty();
                        let mut j: usize = at + 1;
                        while j < children.len()
                            decreases children.len() - j,
                        {
                            let sib = children[j];
                            j += 1;
                            if sib.is("opt_target_list") {
                                if let Some(tl) = sib.find_child("target_list") {
                                    rc.targets = flatten_list(tl, "target_list");
                                }
                            } else if sib.is("target_list") {
                                rc.targets = flatten_list(sib, "target_list");
                            } else if sib.is("from_clause") {
                                rc.from = Some(sib);
                            } else if sib.is("where_clause") {
                                rc.where_clause = Some(sib);
                            } else if sib.is("group_clause") {
                                rc.group_clause = Some(sib);
                            } else if sib.is("having_clause") {
                                rc.having_clause = Some(sib);
                            } else if sib.is("sort_clause") {
                                rc.sort_clause = Some(sib);
                            }
                        }
                        clauses.set_op = Some(SetOp {
                            keyword,
                            quantifier,
                            right: node,
                            right_clauses: Some(Box::new(rc)),
                        });
                    },
                }
                proof {
                    assert(!no_set_op_before(ns, k as int));
                    assert(set_op_kind(ns[at as int].kind@));
                    assert forall|x: int| 0 <= x < ns.len() && set_op_kind((#[trigger] ns[x]).kind@)
                        && no_set_op_before(ns, x) implies clauses_recorded(ns, x, *clauses) && clauses.set_op is Some by {
                        assert(x == at) by {
                            if x < at { assert(!set_op_kind(ns[x].kind@)); }
                            if x > at { assert(!set_op_kind(ns[at as int].kind@)); }
                        }
                    }
                }
                break;
            } else if child.is("values_clause") {
                clauses.values_clause = Some(child);
                proof {
                    let j = choose|j: int| 0 <= j < node.children@.len()
                        && #[trigger] node.children@[j] == ns[at as int] && node.children@[j].named;
                    assert(node.children@[j].named && node.children@[j].kind@ == "values_clause"@);
                    assert(values_within(*node));
                }
            }
            proof {
                lemma_kind_within_step(ns, at as int, "with_clause"@);
                lemma_kind_within_step(ns, at as int, "distinct_clause"@);
                lemma_kind_within_step(ns, at as int, "from_clause"@);
                lemma_kind_within_step(ns, at as int, "where_clause"@);
                lemma_kind_within_step(ns, at as int, "group_clause"@);
                lemma_kind_within_step(ns, at as int, "having_clause"@);
                lemma_kind_within_step(ns, at as int, "sort_clause"@);
                lemma_kind_within_step(ns, at as int, "offset_clause"@);
                lemma_kind_within_step(ns, at as int, "values_clause"@);
            }
        }
    }

    pub(crate) fn collect_limit_clauses<'n>(&self, node: &'n SyntaxNode, clauses: &mut SelectClauses<'n>)
        requires
            clauses_kinded(*old(clauses)),
            limit_kind(node.kind@),
        ensures
            clauses_kinded(*final(clauses)),
            final(clauses).targets@ == old(clauses).targets@,
            final(clauses).from == old(clauses).from,
            final(clauses).where_clause == old(clauses).where_clause,
            final(clauses).sort_clause == old(clauses).sort_clause,
            final(clauses).with_clause == old(clauses).with_clause,
            final(clauses).distinct == old(clauses).distinct,
            final(clauses).group_clause == old(clauses).group_clause,
            final(clauses).having_clause == old(clauses).having_clause,
            final(clauses).values_clause == old(clauses).values_clause,
            final(clauses).set_op is Some == old(clauses).set_op is Some,
            (exists|x: int| 0 <= x < named_of(node.children@).len()
                && ((#[trigger] named_of(node.children@)[x]).kind@ == "limit_clause"@
                    || named_of(node.children@)[x].kind@ == "kw_limit"@))
                ==> final(clauses).limit_clause is Some,
            (exists|x: int| 0 <= x < named_of(node.children@).len()
                && ((#[trigger] named_of(node.children@)[x]).kind@ == "offset_clause"@
                    || named_of(node.children@)[x].kind@ == "kw_offset"@))
                ==> final(clauses).offset_clause is Some,
            !(exists|x: int| 0 <= x < named_of(node.children@).len()
                && ((#[trigger] named_of(node.children@)[x]).kind@ == "limit_clause"@
                    || named_of(node.children@)[x].kind@ == "kw_limit"@))
                ==> final(clauses).limit_clause == old(clauses).limit_clause,
            !(exists|x: int| 0 <= x < named_of(node.children@).len()
                && ((#[trigger] named_of(node.children@)[x]).kind@ == "offset_clause"@
                    || named_of(node.children@)[x].kind@ == "kw_offset"@))
                ==> final(clauses).offset_clause == old(clauses).offset_clause,
    {
        let ghost c0 = *clauses;
        let named = node.named_children();
        let ghost ns = named_of(node.children@);
        let mut k: usize = 0;
        while k < named.len()
            invariant
                clauses_kinded(*clauses),
                k <= named@.len(),
                named@.map_values(|c: &SyntaxNode| *c) == ns,
                clauses.targets@ == c0.targets@,
                clauses.from == c0.from,
                clauses.where_clause == c0.where_clause,
                clauses.sort_clause == c0.sort_clause,
                clauses.with_clause == c0.with_clause,
                clauses.distinct == c0.distinct,
                clauses.group_clause == c0.group_clause,
                clauses.having_clause == c0.having_clause,
                clauses.values_clause == c0.values_clause,
                clauses.set_op is Some == c0.set_op is Some,
                (exists|x: int| 0 <= x < k && ((#[trigger] ns[x]).kind@ == "limit_clause"@ || ns[x].kind@ == "kw_limit"@))
                    ==> clauses.limit_clause is Some,
                (exists|x: int| 0 <= x < k && ((#[trigger] ns[x]).kind@ == "offset_clause"@ || ns[x].kind@ == "kw_offset"@))
                    ==> clauses.offset_clause is Some,
                !(exists|x: int| 0 <= x < k && ((#[trigger] ns[x]).kind@ == "limit_clause"@ || ns[x].kind@ == "kw_limit"@))
                    ==> clauses.limit_clause == c0.limit_clause,
                !(exists|x: int| 0 <= x < k && ((#[trigger] ns[x]).kind@ == "offset_clause"@ || ns[x].kind@ == "kw_offset"@))
                    ==> clauses.offset_clause == c0.offset_clause,
            decreases named.len() - k,
        {
            proof {
                assert(ns[k as int] == *named@[k as int]);
                reveal_strlit("limit_clause");
                reveal_strlit("offset_clause");
                reveal_strlit("kw_limit");
                reveal_strlit("kw_offset");
                assert("limit_clause"@.len() == 12 && "offset_clause"@.len() == 13);
                assert("kw_limit"@.len() == 8 && "kw_offset"@.len() == 9);
            }
            let child = named[k];
            k += 1;
            if child.is("limit_clause") {
                clauses.limit_clause = Some(child);
            } else if child.is("offset_clause") {
                clauses.offset_clause = Some(child);
            } else if child.is("kw_limit") {
                // The node itself is the LIMIT clause.
                clauses.limit_clause = Some(node);
            } else if child.is("kw_offset") {
                clauses.offset_clause = Some(node);
            }
        }
    }

    pub(crate) fn format_set_quantifier(&self, node: &SyntaxNode) -> (r: String)
        ensures
            (forall|i: int| 0 <= i < node.children@.len() ==> !(#[trigger] node.children@[i].named
                && (node.children@[i].kind@ == "kw_all"@ || node.children@[i].kind@ == "kw_distinct"@)))
                ==> r@.len() == 0,
            (exists|i: int| 0 <= i < node.children@.len() && #[trigger] node.children@[i].named
                && (node.children@[i].kind@ == "kw_all"@ || node.children@[i].kind@ == "kw_distinct"@))
                ==> (r@ == cased(self.config, "ALL"@) || r@ == cased(self.config, "DISTINCT"@)),
    {
        let named = node.named_children();
        let mut k: usize = 0;
        while k < named.len()
            invariant
                k <= named@.len(),
                forall|x: int| 0 <= x < k ==> !((#[trigger] named@[x]).kind@ == "kw_all"@ || named@[x].kind@ == "kw_distinct"@),
            decreases named.len() - k,
        {
            let child = named[k];
            k += 1;
            if child.is("kw_all") {
                return self.kw("ALL");
            }
            if child.is("kw_distinct") {
                return self.kw("DISTINCT");
            }
        }
        proof {
            assert forall|i: int| 0 <= i < node.children@.len() implies !(#[trigger] node.children@[i].named
                && (node.children@[i].kind@ == "kw_all"@ || node.children@[i].kind@ == "kw_distinct"@)) by {
                if node.children@[i].named {
                    lemma_named_of_contains(node.children@, i);
                    let x = choose|x: int| 0 <= x < named_of(node.children@).len()
                        && named_of(node.children@)[x] == node.children@[i];
                    assert(named@.map_values(|c: &SyntaxNode| *c)[x] == *named@[x]);
                }
            }
        }
        String::new()
    }

    pub(crate) fn format_values_only(&self, clauses: &SelectClauses, b: usize) -> (r: String)
        ensures
            b == 0 || clauses.values_clause is None ==> r@.len() == 0,
            b > 1 ==> r@.len() == 0 || has_prefix(r@, cased(self.config, "VALUES"@)),
        decreases b,
    {
        if b == 0 {
            return String::new();
        }
        match clauses.values_clause {
            Some(vc) => self.format_values_clause(vc, b - 1),
            None => String::new(),
        }
    }

    /// `SELECT` or `SELECT DISTINCT ...`.
    pub(crate) fn select_keyword(&self, clauses: &SelectClauses, b: usize) -> (r: String)
        ensures
            has_prefix(r@, cased(self.config, "SELECT"@)),
        decreases b,
    {
        let select = self.kw("SELECT");
        match clauses.distinct {
            Some(dn) => {
                let distinct_text = if b == 0 { self.text(dn) } else { self.format_distinct(dn, b - 1) };
                let parts = [select.as_str(), " ", distinct_text.as_str()];
                let r = concat(&parts);
                proof { lemma_concat_starts_with_first(parts@); }
                r
            },
            None => {
                proof { lemma_prefix_self(select@); }
                select
            },
        }
    }

    // River-style SELECT.

    pub(crate) fn format_select_river(&self, clauses: &SelectClauses, b: usize) -> (r: String)
        ensures
            b > 1 && clauses.with_clause is None ==> opens_with(r@, cased(self.config, "SELECT"@)),
            b > 1 ==> crate::strs::has_text(r@),
            b > 2 ==> exists|ls: Seq<Seq<char>>| has_prefix(r@, #[trigger] join_with(ls, "\n"@))
                && clause_lines(self.config, *clauses, ls, seq![' ']),
        decreases b,
    {
        if b == 0 {
            return String::new();
        }
        let d = b - 1;
        let mut lines: Vec<String> = Vec::new();
        // The river width: the longest keyword that will appear.
        let keywords = self.collect_river_keywords(clauses, d);
        let mut river_width: usize = 0;
        let mut k: usize = 0;
        while k < keywords.len()
            decreases keywords.len() - k,
        {
            let n = keywords[k].as_str().len();
            if n > river_width {
                river_width = n;
            }
            k += 1;
        }
        if keywords.len() == 0 {
            river_width = 6;
        }
        if let Some(with) = clauses.with_clause {
            lines.push(self.format_with_clause_river(with, river_width, d));
        }
        let select_kw = self.select_keyword(clauses, d);
        let ghost was_empty = lines@.len() == 0;
        self.append_river_targets(select_kw.as_str(), &clauses.targets, river_width, &mut lines, d);
        let mut rest: Vec<String> = Vec::new();
        if let Some(from) = clauses.from {
            self.format_from_river(from, river_width, &mut rest, d);
        }
        let ghost r1 = rest@;
        if let Some(where_c) = clauses.where_clause {
            self.format_where_river(where_c, river_width, &mut rest, d);
        }
        let ghost r2 = rest@;
        if let Some(group) = clauses.group_clause {
            self.format_group_by_river(group, river_width, &mut rest, d);
        }
        let ghost r3 = rest@;
        if let Some(having) = clauses.having_clause {
            self.format_having_river(having, river_width, &mut rest, d);
        }
        let ghost r4 = rest@;
        if let Some(sort) = clauses.sort_clause {
            self.format_order_by_river(sort, river_width, &mut rest, d);
        }
        let ghost r5 = rest@;
        if let Some(limit) = clauses.limit_clause {
            self.format_limit_river(limit, river_width, &mut rest, d);
        }
        let ghost r6 = rest@;
        if let Some(offset) = clauses.offset_clause {
            self.format_offset_river(offset, river_width, &mut rest, d);
        }
        let ghost targets_done = lines@;
        let ghost r7 = rest@;
        proof {
            lemma_appended_self(r1); lemma_appended_self(r2); lemma_appended_self(r3);
            lemma_appended_self(r4); lemma_appended_self(r5); lemma_appended_self(r6); lemma_appended_self(r7);
            lemma_appended_trans(r5, r6, r7);
            lemma_appended_trans(r4, r5, r7);
            lemma_appended_trans(r3, r4, r7);
            lemma_appended_trans(r2, r3, r7);
            lemma_appended_trans(r1, r2, r7);
        }
        lines.append(&mut rest);
        proof {
            let ls = string_views(lines@);
            assert(ls =~= string_views(targets_done) + string_views(r7));
            if d > 1 {
                lemma_clause_lines_kept(self.config, *clauses, targets_done, r1, r2, r3, r4, r5, r7, d as int, seq![' ']);
            }
        }
        let mut result = join(&lines, "\n");
        let ghost lead = cased(self.config, "SELECT"@);
        proof {
            if d > 0 {
                let ps = string_views(lines@);
                assert(lines@.len() >= targets_done.len());
                if was_empty {
                    assert(lines@[0] == targets_done[0]);
                    crate::strs::lemma_opens_has_text(lines@[0]@, select_kw@);
                    assert(ps[0] == lines@[0]@);
                }
                crate::strs::lemma_join_has_text(ps);
            }
        }
        proof {
            if was_empty && d > 0 {
                assert(lines@[0] == targets_done[0]);
                lemma_join_starts_with_first(string_views(lines@), "\n"@);
                lemma_opens_with_trans(result@, lines@[0]@, select_kw@ + seq![' ']);
                lemma_prefix_append(select_kw@, seq![' '], lead);
                lemma_opens_with_shorter(result@, select_kw@ + seq![' '], lead);
            }
        }
        let ghost joined = result@;
        proof {
            assert(has_prefix(result@, join_with(string_views(lines@), "\n"@))) by {
                assert(result@.take(result@.len() as int) =~= result@);
            }
        }
        // Set operations: UNION, INTERSECT, EXCEPT.
        if let Some(set_op) = &clauses.set_op {
            let op_text = match &set_op.quantifier {
                Some(q) => concat(&[set_op.keyword.as_str(), " ", q.as_str()]),
                None => set_op.keyword.clone(),
            };
            let ghost before = result@;
            push_str(&mut result, "\n\n");
            push_str(&mut result, op_text.as_str());
            push_str(&mut result, "\n\n");
            let right = match &set_op.right_clauses {
                Some(rc) => self.format_select_river(rc, d),
                None => {
                    let right_clauses = self.collect_select_clauses(set_op.right, d);
                    self.format_select_river(&right_clauses, d)
                },
            };
            push_str(&mut result, right.as_str());
            proof {
                let added = result@.subrange(before.len() as int, result@.len() as int);
                assert(result@ =~= before + added);
                if was_empty && d > 0 {
                    lemma_opens_with_append(before, added, lead);
                }
                if d > 0 {
                    assert(result@.take(before.len() as int) =~= before);
                    crate::strs::lemma_prefix_has_text(result@, before);
                }
                assert(result@.take(joined.len() as int) =~= joined);
                crate::strs::lemma_prefix_trans(result@, joined, join_with(string_views(lines@), "\n"@));
            }
        }
        result
    }

    /// The keywords of this SELECT that the river width is measured from.
    /// Push `word` onto `keywords` where `present` holds.
    fn push_keyword_if(keywords: &mut Vec<String>, present: bool, word: String)
        ensures
            string_views(final(keywords)@) == string_views(old(keywords)@)
                + (if present { seq![word@] } else { Seq::<Seq<char>>::empty() }),
    {
        if present {
            proof { assert(string_views(keywords@.push(word)) =~= string_views(keywords@) + seq![word@]); }
            keywords.push(word);
        } else {
            proof { assert(string_views(keywords@) + Seq::<Seq<char>>::empty() =~= string_views(keywords@)); }
        }
    }

    #[verifier::rlimit(40)]
    pub(crate) fn collect_river_keywords(&self, clauses: &SelectClauses, b: usize) -> (r: Vec<String>)
        ensures
            r@.len() >= 1,
            r@[0]@ == cased(self.config, "SELECT"@),
            clauses.from is Some ==> r@.len() >= 2 && r@[1]@ == cased(self.config, "FROM"@),
        decreases b,
    {
        let mut keywords: Vec<String> = Vec::new();
        // SELECT alone: DISTINCT belongs to the content.
        keywords.push(self.kw("SELECT"));
        if clauses.from.is_some() {
            keywords.push(self.kw("FROM"));
        }
        let ghost head = keywords@;
        proof { lemma_appended_self(head); }
        if let Some(from) = clauses.from {
            if b > 0 {
                self.collect_join_keywords_for_river(from, &mut keywords, b - 1);
            }
        }
        if let Some(where_c) = clauses.where_clause {
            let w = self.kw("WHERE");
            proof {
                lemma_appended_push(keywords@, w);
                lemma_appended_trans(head, keywords@, keywords@.push(w));
            }
            keywords.push(w);
            let ghost k3 = keywords@;
            self.collect_condition_keywords(where_c, &mut keywords);
            proof { lemma_appended_trans(head, k3, keywords@); }
        }
        let ghost mid = keywords@;
        proof {
            assert(string_views(mid).take(head.len() as int)[0] == string_views(head)[0]);
            if clauses.from is Some {
                assert(string_views(mid).take(head.len() as int)[1] == string_views(head)[1]);
            }
        }
        Self::push_keyword_if(&mut keywords, clauses.group_clause.is_some(), self.kw_pair("GROUP", "BY"));
        Self::push_keyword_if(&mut keywords, clauses.having_clause.is_some(), self.kw("HAVING"));
        Self::push_keyword_if(&mut keywords, clauses.sort_clause.is_some(), self.kw_pair("ORDER", "BY"));
        Self::push_keyword_if(&mut keywords, clauses.limit_clause.is_some(), self.kw("LIMIT"));
        Self::push_keyword_if(&mut keywords, clauses.offset_clause.is_some(), self.kw("OFFSET"));
        proof {
            assert(string_views(keywords@).len() == keywords@.len());
            assert(string_views(keywords@)[0] == keywords@[0]@);
            assert(string_views(keywords@)[0] == string_views(mid)[0]);
            if clauses.from is Some {
                assert(string_views(keywords@)[1] == keywords@[1]@);
                assert(string_views(keywords@)[1] == string_views(mid)[1]);
            }
        }
        keywords
    }

    pub(crate) fn collect_join_keywords_for_river(&self, from_node: &SyntaxNode, keywords: &mut Vec<String>, b: usize)
        ensures
            appended(old(keywords)@, final(keywords)@),
            !self.config.joins_in_river || b == 0 ==> final(keywords)@ == old(keywords)@,
            self.config.joins_in_river && b > 1 && (first_kid(*from_node, "from_list"@) matches Some(l)
                && exists|x: int| 0 <= x < flat_items(l, "from_list"@).len()
                    && (#[trigger] flat_items(l, "from_list"@)[x]).kind@ == "joined_table"@)
                ==> final(keywords)@.len() > old(keywords)@.len(),
        decreases b,
    {
        let ghost k0 = keywords@;
        proof { lemma_appended_self(k0); }
        if !self.config.joins_in_river || b == 0 {
            return;
        }
        proof {
            reveal_strlit("table_ref");
            reveal_strlit("joined_table");
            assert("table_ref"@.len() == 9 && "joined_table"@.len() == 12);
        }
        if let Some(from_list) = from_node.find_child("from_list") {
            proof { lemma_found_kid(*from_node, "from_list"@, *from_list); }
            let tables = flatten_list(from_list, "from_list");
            let ghost fs = flat_items(*from_list, "from_list"@);
            let mut k: usize = 0;
            while k < tables.len()
                invariant
                    k <= tables@.len(),
                    node_views(tables@) == fs,
                    appended(k0, keywords@),
                    b > 1 && (exists|x: int| 0 <= x < k && (#[trigger] fs[x]).kind@ == "joined_table"@)
                        ==> keywords@.len() > k0.len(),
                decreases tables.len() - k,
            {
                proof { assert(fs[k as int] == *tables@[k as int]); }
                let table = tables[k];
                k += 1;
                let ghost before = keywords@;
                if table.is("table_ref") {
                    if let Some(jt) = table.find_child("joined_table") {
                        self.collect_join_keywords_inner(jt, keywords, b - 1);
                    } else {
                        proof { lemma_appended_self(before); }
                    }
                } else {
                    self.collect_join_keywords_inner(table, keywords, b - 1);
                }
                proof { lemma_appended_trans(k0, before, keywords@); }
            }
        } else {
            proof { lemma_no_kid(*from_node, "from_list"@); }
        }
    }

    pub(crate) fn collect_join_keywords_inner(&self, node: &SyntaxNode, keywords: &mut Vec<String>, b: usize)
        ensures
            appended(old(keywords)@, final(keywords)@),
            b == 0 || node.kind@ != "joined_table"@ ==> final(keywords)@ == old(keywords)@,
            b > 0 && node.kind@ == "joined_table"@ ==> final(keywords)@.len() > old(keywords)@.len()
                && has_suffix(final(keywords)@[old(keywords)@.len() as int]@, cased(self.config, "JOIN"@)),
        decreases b,
    {
        let ghost k0 = keywords@;
        proof { lemma_appended_self(k0); }
        if b == 0 || !node.is("joined_table") {
            return;
        }
        let jk = self.get_join_keyword(node);
        proof { lemma_appended_push(keywords@, jk); }
        keywords.push(jk);
        let ghost k1 = keywords@;
        proof { lemma_appended_self(k1); }
        if let Some(qual) = node.find_child("join_qual") {
            if qual.has_child("kw_on") {
                let on = self.kw("ON");
                proof { lemma_appended_push(keywords@, on); }
                keywords.push(on);
                let ghost k2 = keywords@;
                if let Some(expr) = qual.find_child_any(&["a_expr", "c_expr"]) {
                    self.collect_condition_keywords_from_expr(expr, keywords);
                    proof { lemma_appended_trans(k1, k2, keywords@); }
                }
            } else if qual.has_child("kw_using") {
                let u = self.kw("USING");
                proof { lemma_appended_push(keywords@, u); }
                keywords.push(u);
            }
        }
        // The left side may hold further joins.
        let named = node.named_children();
        let mut k: usize = 0;
        while k < named.len()
            invariant
                appended(k1, keywords@),
            decreases named.len() - k,
        {
            let child = named[k];
            k += 1;
            if child.is("table_ref") {
                if let Some(jt) = child.find_child("joined_table") {
                    let ghost k3 = keywords@;
                    self.collect_join_keywords_inner(jt, keywords, b - 1);
                    proof { lemma_appended_trans(k1, k3, keywords@); }
                }
            }
        }
        proof {
            lemma_appended_trans(k0, k1, keywords@);
            assert(string_views(keywords@).take(k1.len() as int)[k0.len() as int] == string_views(k1)[k0.len() as int]);
        }
    }

    pub(crate) fn collect_condition_keywords(&self, clause_node: &SyntaxNode, keywords: &mut Vec<String>)
        ensures
            appended(old(keywords)@, final(keywords)@),
            (forall|i: int| 0 <= i < clause_node.children@.len() ==> !(#[trigger] clause_node.children@[i].named
                && kind_among(clause_node.children@[i].kind@, seq!["a_expr", "c_expr"])))
                ==> final(keywords)@ == old(keywords)@,
            forall|i: int| #[trigger] first_expr_at(*clause_node, i)
                ==> string_views(final(keywords)@) == string_views(old(keywords)@)
                    + condition_words(self.config, clause_node.children@[i]),
    {
        if let Some(expr) = clause_node.find_child_any(&["a_expr", "c_expr"]) {
            let ghost i0 = choose|i: int| 0 <= i < clause_node.children@.len() && *expr == #[trigger] clause_node.children@[i]
                && kind_among(expr.kind@, seq!["a_expr", "c_expr"])
                && forall|x: int| 0 <= x < i ==> !(#[trigger] clause_node.children@[x].named
                    && kind_among(clause_node.children@[x].kind@, seq!["a_expr", "c_expr"]));
            proof {
                assert forall|i: int| #[trigger] first_expr_at(*clause_node, i) implies i == i0 by {
                    if i < i0 { assert(!(clause_node.children@[i].named
                        && kind_among(clause_node.children@[i].kind@, seq!["a_expr", "c_expr"]))); }
                    if i0 < i { assert(!(clause_node.children@[i0].named
                        && kind_among(clause_node.children@[i0].kind@, seq!["a_expr", "c_expr"]))); }
                }
            }
            self.collect_condition_keywords_from_expr(expr, keywords);
        } else {
            proof { lemma_appended_self(keywords@); }
        }
    }

    pub(crate) fn collect_condition_keywords_from_expr(&self, node: &SyntaxNode, keywords: &mut Vec<String>)
        ensures
            string_views(final(keywords)@) == string_views(old(keywords)@) + condition_words(self.config, *node),
            appended(old(keywords)@, final(keywords)@),
    {
        let ghost start = keywords@;
        if node.is("a_expr") {
            let ghost k0 = keywords@;
            let named = node.named_children();
            let ghost ns = named_of(node.children@);
            proof { assert(ns.take(0) =~= Seq::<SyntaxNode>::empty()); }
            let mut k: usize = 0;
            while k < named.len()
                invariant
                    k <= named@.len(),
                    named@.map_values(|c: &SyntaxNode| *c) == ns,
                    string_views(keywords@) == string_views(k0) + and_or_words(self.config, ns.take(k as int)),
                decreases named.len() - k,
            {
                proof {
                    assert(ns.take(k + 1).drop_last() =~= ns.take(k as int));
                    assert(ns.take(k + 1).last() == *named@[k as int]);
                }
                let child = named[k];
                k += 1;
                if child.is("kw_and") {
                    let w = self.kw("AND");
                    proof { assert(string_views(keywords@.push(w)) =~= string_views(keywords@).push(w@)); }
                    keywords.push(w);
                } else if child.is("kw_or") {
                    let w = self.kw("OR");
                    proof { assert(string_views(keywords@.push(w)) =~= string_views(keywords@).push(w@)); }
                    keywords.push(w);
                }
            }
            proof { assert(ns.take(named@.len() as int) =~= ns); }
        } else {
            proof { assert(string_views(keywords@) + Seq::<Seq<char>>::empty() =~= string_views(keywords@)); }
        }
        proof {
            assert(string_views(keywords@).take(start.len() as int) =~= string_views(start));
        }
    }

    /// Append the target list in river style.
    pub(crate) fn append_river_targets(&self, select_kw: &str, targets: &Vec<&SyntaxNode>, width: usize,
        lines: &mut Vec<String>, b: usize)
        ensures
            targets@.len() == 0 || b > 0 ==> final(lines)@.len() > old(lines)@.len()
                && opens_with(final(lines)@[old(lines)@.len() as int]@, select_kw@ + seq![' ']),
            forall|k: int| 0 <= k < old(lines)@.len() ==> final(lines)@[k] == old(lines)@[k],
        decreases b,
    {
        let ghost start = lines@.len();
        if targets.len() == 0 {
            lines.push(self.rline(select_kw, "*", width));
            return;
        }
        if b == 0 {
            return;
        }
        let d = b - 1;
        let first = self.format_target_el(targets[0], d);
        if targets.len() == 1 {
            lines.push(self.rline(select_kw, first.as_str(), width));
            return;
        }
        let content_col = width.saturating_add(1);
        if self.config.leading_commas {
            lines.push(self.rline(select_kw, first.as_str(), width));
            let ghost opened = lines@;
            let mut k: usize = 1;
            while k < targets.len()
                invariant
                    lines@.len() > start,
                    forall|x: int| 0 <= x <= start ==> #[trigger] lines@[x] == opened[x],
                decreases targets.len() - k,
            {
                let formatted = self.format_target_el(targets[k], d);
                let padding = spaces_str(content_col.saturating_sub(2));
                if contains(formatted.as_str(), "\n") {
                    let tl = lines_of_str(formatted.as_str());
                    let first_line = if tl.len() > 0 { tl[0].clone() } else { String::new() };
                    lines.push(concat(&[padding.as_str(), ", ", first_line.as_str()]));
                    let cont = spaces_str(content_col);
                    let mut j: usize = 1;
                    while j < tl.len()
                        invariant
                            lines@.len() > start,
                            forall|x: int| 0 <= x <= start ==> #[trigger] lines@[x] == opened[x],
                        decreases tl.len() - j,
                    {
                        lines.push(concat(&[cont.as_str(), tl[j].as_str()]));
                        j += 1;
                    }
                } else {
                    lines.push(concat(&[padding.as_str(), ", ", formatted.as_str()]));
                }
                k += 1;
            }
        } else {
            let with_comma = concat(&[first.as_str(), ","]);
            lines.push(self.rline(select_kw, with_comma.as_str(), width));
            let ghost opened = lines@;
            let mut k: usize = 1;
            while k < targets.len()
                invariant
                    lines@.len() > start,
                    forall|x: int| 0 <= x <= start ==> #[trigger] lines@[x] == opened[x],
                decreases targets.len() - k,
            {
                let formatted = self.format_target_el(targets[k], d);
                let padding = spaces_str(content_col);
                let suffix = if k + 1 < targets.len() { "," } else { "" };
                let ghost at = lines@.len();
                if contains(formatted.as_str(), "\n") {
                    // A multi-line target: continuation lines indented too.
                    let tl = lines_of_str(formatted.as_str());
                    let mut j: usize = 0;
                    while j < tl.len()
                        invariant
                            lines@.len() >= at + j,
                            forall|x: int| 0 <= x <= start ==> #[trigger] lines@[x] == opened[x],
                        decreases tl.len() - j,
                    {
                        lines.push(concat(&[padding.as_str(), tl[j].as_str()]));
                        j += 1;
                    }
                    if tl.len() == 0 {
                        lines.push(padding.clone());
                    }
                    if suffix.len() > 0 {
                        crate::expr_nodes::append_last(lines, suffix);
                    }
                } else {
                    lines.push(concat(&[padding.as_str(), formatted.as_str(), suffix]));
                }
                k += 1;
            }
        }
    }

    pub(crate) fn format_distinct(&self, node: &SyntaxNode, b: usize) -> (r: String)
        ensures
            has_prefix(r@, cased(self.config, "DISTINCT"@)),
        decreases b,
    {
        let kw = self.kw("DISTINCT");
        // DISTINCT ON (expr_list).
        match node.find_child("expr_list") {
            Some(list) => {
                let inner = if b == 0 { self.text(list) } else { self.format_list(list, "expr_list", b - 1) };
                let parts = [kw.as_str(), " ON (", inner.as_str(), ")"];
                let r = concat(&parts);
                proof { lemma_concat_starts_with_first(parts@); }
                r
            },
            None => {
                proof { lemma_prefix_self(kw@); }
                kw
            },
        }
    }

    pub(crate) fn format_from_river(&self, from_node: &SyntaxNode, width: usize, lines: &mut Vec<String>, b: usize)
        ensures
            appended(old(lines)@, final(lines)@),
            b > 0 && (first_kid(*from_node, "from_list"@) matches Some(l) && flat_items(l, "from_list"@).len() > 0
                && (flat_items(l, "from_list"@)[0].kind@ != "table_ref"@
                    || first_kid(flat_items(l, "from_list"@)[0], "joined_table"@) is None))
                ==> adds_line_opening(old(lines)@, final(lines)@, cased(self.config, "FROM"@) + seq![' ']),
        decreases b,
    {
        let ghost l0 = lines@;
        proof { lemma_appended_self(l0); }
        if b == 0 {
            return;
        }
        let d = b - 1;
        if let Some(from_list) = from_node.find_child("from_list") {
            proof { lemma_found_kid(*from_node, "from_list"@, *from_list); }
            let tables = flatten_list(from_list, "from_list");
            let ghost fs = node_views(tables@);
            let ghost plain = fs.len() > 0 && (fs[0].kind@ != "table_ref"@ || first_kid(fs[0], "joined_table"@) is None);
            let mut i: usize = 0;
            while i < tables.len()
                invariant
                    i <= tables@.len(),
                    fs == node_views(tables@),
                    appended(l0, lines@),
                    i == 0 ==> lines@ == l0,
                    i > 0 && plain ==> adds_line_opening(l0, lines@, cased(self.config, "FROM"@) + seq![' ']),
                decreases tables.len() - i,
            {
                proof { assert(fs[i as int] == *tables@[i as int]); }
                let table = tables[i];
                let ghost c = lines@;
                let jt = if table.is("table_ref") {
                    let j = table.find_child("joined_table");
                    proof {
                        if j is None { lemma_no_kid(*table, "joined_table"@); }
                        else { lemma_found_kid(*table, "joined_table"@, *j.unwrap()); }
                    }
                    j
                } else {
                    None
                };
                match jt {
                    Some(jt) => {
                        self.format_joined_table_river(jt, width, i == 0, lines, d);
                    },
                    None => {
                        let text = self.format_table_ref(table, d);
                        if i == 0 {
                            let kw = self.kw("FROM");
                            push_line(lines, self.rline(kw.as_str(), text.as_str(), width));
                        } else {
                            let padding = spaces_str(width.saturating_add(1));
                            push_line(lines, concat(&[padding.as_str(), text.as_str()]));
                        }
                    },
                }
                proof {
                    lemma_appended_trans(l0, c, lines@);
                    if i > 0 && plain {
                        assert(string_views(lines@).take(c.len() as int)[l0.len() as int]
                            == string_views(c)[l0.len() as int]);
                    }
                }
                i += 1;
            }
        } else {
            proof { lemma_no_kid(*from_node, "from_list"@); }
        }
    }

    pub(crate) fn format_joined_table_river(&self, node: &SyntaxNode, width: usize, is_first_from: bool,
        lines: &mut Vec<String>, b: usize)
        ensures
            appended(old(lines)@, final(lines)@),
            b > 0 && kind_count(named_of(node.children@), "table_ref"@) >= 2 ==> final(lines)@.len() > old(lines)@.len(),
        decreases b,
    {
        let ghost l0 = lines@;
        proof { lemma_appended_self(l0); }
        if b == 0 {
            return;
        }
        let d = b - 1;
        let ghost ns = named_of(node.children@);
        proof {
            assert(ns.take(0) =~= Seq::<SyntaxNode>::empty());
            reveal_strlit("table_ref");
            reveal_strlit("join_type");
            reveal_strlit("join_qual");
            assert("table_ref"@[0] == 't' && "join_type"@[0] == 'j' && "join_qual"@[0] == 'j');
        }
        // A joined_table has: left table_ref, join_type, JOIN, right
        // table_ref, join_qual; the left side may itself be a join.
        let named = node.named_children();
        let mut left_table: Option<&SyntaxNode> = None;
        let mut right_table: Option<&SyntaxNode> = None;
        let mut join_type_node: Option<&SyntaxNode> = None;
        let mut join_qual_node: Option<&SyntaxNode> = None;
        let mut table_count: usize = 0;
        let mut k: usize = 0;
        while k < named.len()
            invariant
                table_count <= k,
                k <= named@.len(),
                named@.map_values(|c: &SyntaxNode| *c) == ns,
                table_count == kind_count(ns.take(k as int), "table_ref"@),
                right_table is Some <==> table_count >= 2,
            decreases named.len() - k,
        {
            proof {
                assert(ns.take(k + 1).drop_last() =~= ns.take(k as int));
                assert(ns.take(k + 1).last() == *named@[k as int]);
            }
            let child = named[k];
            k += 1;
            if child.is("table_ref") {
                if table_count == 0 {
                    left_table = Some(child);
                } else {
                    right_table = Some(child);
                }
                table_count += 1;
            } else if child.is("join_type") {
                join_type_node = Some(child);
            } else if child.is("join_qual") {
                join_qual_node = Some(child);
            }
        }
        proof { assert(ns.take(named@.len() as int) =~= ns); }
        if let Some(left) = left_table {
            match left.find_child("joined_table") {
                Some(inner_jt) => self.format_joined_table_river(inner_jt, width, is_first_from, lines, d),
                None => {
                    let text = self.format_table_ref(left, d);
                    if is_first_from {
                        let kw = self.kw("FROM");
                        push_line(lines, self.rline(kw.as_str(), text.as_str(), width));
                    } else {
                        let padding = spaces_str(width.saturating_add(1));
                        push_line(lines, concat(&[padding.as_str(), text.as_str()]));
                    }
                },
            }
        }
        let ghost after_left = lines@;
        let join_kw = self.get_join_keyword(node);
        if let Some(right) = right_table {
            let right_text = self.format_table_ref(right, d);
            if self.config.joins_in_river {
                // JOINs take part in the river.
                push_line(lines, self.rline(join_kw.as_str(), right_text.as_str(), width));
            } else if join_type_node.is_some() {
                // Typed JOINs are indented under the FROM content, a blank
                // line between consecutive ones.
                let padding = spaces_str(width.saturating_add(1));
                proof { lemma_appended_self(lines@); }
                if has_join_line(lines) {
                    push_line(lines, String::new());
                }
                let ghost c = lines@;
                push_line(lines, concat(&[padding.as_str(), join_kw.as_str(), " ", right_text.as_str()]));
                proof { lemma_appended_trans(after_left, c, lines@); }
            } else {
                // A plain JOIN is river-aligned like FROM.
                push_line(lines, self.rline(join_kw.as_str(), right_text.as_str(), width));
            }
        } else {
            proof { lemma_appended_self(lines@); }
        }
        proof { lemma_appended_trans(l0, after_left, lines@); }
        let ghost after_right = lines@;
        let is_typed_join = join_type_node.is_some();
        if let Some(qual) = join_qual_node {
            self.format_join_qual_river(qual, width, is_typed_join, lines, d);
            proof { lemma_appended_trans(l0, after_right, lines@); }
        }
    }

    pub(crate) fn format_join_qual_river(&self, node: &SyntaxNode, width: usize, is_typed_join: bool,
        lines: &mut Vec<String>, b: usize)
        ensures
            appended(old(lines)@, final(lines)@),
            b > 0 && (exists|i: int| 0 <= i < node.children@.len() && #[trigger] node.children@[i].named
                && kind_among(node.children@[i].kind@, seq!["a_expr", "c_expr"]))
                ==> adds_line_opening(old(lines)@, final(lines)@, cased(self.config, "ON"@) + seq![' ']),
            b > 0 && !(exists|i: int| 0 <= i < node.children@.len() && #[trigger] node.children@[i].named
                && kind_among(node.children@[i].kind@, seq!["a_expr", "c_expr"]))
                && crate::plpgsql::holds_kind(*node, "kw_using"@)
                ==> adds_line_opening(old(lines)@, final(lines)@, cased(self.config, "USING"@) + seq![' ']),
            b == 0 ==> final(lines)@ == old(lines)@,
        decreases b,
    {
        let ghost l0 = lines@;
        proof { lemma_appended_self(l0); }
        if b == 0 {
            return;
        }
        let d = b - 1;
        let kinds = ["a_expr", "c_expr"];
        assert(kinds@ == seq!["a_expr", "c_expr"]);
        if let Some(on_expr) = node.find_child_any(&kinds) {
            let conditions = self.split_top_level_conditions(on_expr, d);
            let on_kw = self.kw("ON");
            let first = if self.config.joins_in_river || !is_typed_join {
                // ON takes part in the river.
                self.rline(on_kw.as_str(), conditions[0].text.as_str(), width)
            } else {
                // Typed JOINs: ON indented under the FROM content, AND
                // aligned with the start of ON's condition.
                let content_col = width.saturating_add(1);
                let padding = spaces_str(content_col);
                let l = concat(&[padding.as_str(), on_kw.as_str(), " ", conditions[0].text.as_str()]);
                proof {
                    reveal_with_fuel(crate::strs::concat_views, 5);
                    reveal_strlit(" ");
                    let p = padding@ + (on_kw@ + seq![' ']);
                    assert(l@.take(p.len() as int) =~= p);
                }
                l
            };
            proof { lemma_appended_push(lines@, first); }
            lines.push(first);
            let mut k: usize = 1;
            if self.config.joins_in_river || !is_typed_join {
                while k < conditions.len()
                    invariant
                        appended(l0, lines@),
                        lines@.len() > l0.len(),
                        lines@[l0.len() as int] == first,
                    decreases conditions.len() - k,
                {
                    let l = self.rline(conditions[k].op.as_str(), conditions[k].text.as_str(), width);
                    proof { lemma_appended_push(lines@, l); lemma_appended_trans(l0, lines@, lines@.push(l)); }
                    lines.push(l);
                    k += 1;
                }
            } else {
                let content_col = width.saturating_add(1);
                let and_indent = spaces_str(content_col.saturating_add(on_kw.as_str().len()).saturating_add(1));
                while k < conditions.len()
                    invariant
                        appended(l0, lines@),
                        lines@.len() > l0.len(),
                        lines@[l0.len() as int] == first,
                    decreases conditions.len() - k,
                {
                    let l = concat(&[and_indent.as_str(), conditions[k].op.as_str(), " ",
                        conditions[k].text.as_str()]);
                    proof { lemma_appended_push(lines@, l); lemma_appended_trans(l0, lines@, lines@.push(l)); }
                    lines.push(l);
                    k += 1;
                }
            }
        } else if node.has_child("kw_using") {
            let using_text = self.format_using_clause(node, d);
            let using_kw = self.kw("USING");
            let l = if self.config.joins_in_river || !is_typed_join {
                self.rline(using_kw.as_str(), using_text.as_str(), width)
            } else {
                let padding = spaces_str(width.saturating_add(1));
                let l = concat(&[padding.as_str(), using_kw.as_str(), " ", using_text.as_str()]);
                proof {
                    reveal_with_fuel(crate::strs::concat_views, 5);
                    reveal_strlit(" ");
                    let p = padding@ + (using_kw@ + seq![' ']);
                    assert(l@.take(p.len() as int) =~= p);
                }
                l
            };
            proof { lemma_appended_push(lines@, l); }
            lines.push(l);
        }
    }

    pub(crate) fn format_using_clause(&self, node: &SyntaxNode, b: usize) -> (r: String)
        ensures
            b == 0 ==> r@ == node_text(self.chars@, *node),
            b > 0 && (first_kid(*node, "name_list"@) is Some || first_kid(*node, "columnList"@) is Some)
                ==> has_prefix(r@, "("@) && has_suffix(r@, ")"@),
            b > 0 && first_kid(*node, "name_list"@) is None && first_kid(*node, "columnList"@) is None
                ==> (forall|j: int| !occurs_at(node_text(self.chars@, *node), "("@, j))
                    && r@ == node_text(self.chars@, *node)
                || exists|j: int| occurs_at(node_text(self.chars@, *node), "("@, j)
                    && (forall|i: int| 0 <= i < j ==> !occurs_at(node_text(self.chars@, *node), "("@, i))
                    && r@ == node_text(self.chars@, *node).subrange(j, node_text(self.chars@, *node).len() as int),
        decreases b,
    {
        if b == 0 {
            return self.text(node);
        }
        if let Some(list) = node.find_child("name_list") {
            let inner = self.format_list(list, "name_list", b - 1);
            let r = concat(&["(", inner.as_str(), ")"]);
            proof {
                reveal_with_fuel(crate::strs::concat_views, 4);
                assert(r@ =~= "("@ + inner@ + ")"@);
                lemma_wraps("("@, inner@, ")"@);
            }
            r
        } else if let Some(list) = node.find_child("columnList") {
            proof { lemma_no_kid(*node, "name_list"@); }
            let inner = self.format_list(list, "columnList", b - 1);
            let r = concat(&["(", inner.as_str(), ")"]);
            proof {
                reveal_with_fuel(crate::strs::concat_views, 4);
                assert(r@ =~= "("@ + inner@ + ")"@);
                lemma_wraps("("@, inner@, ")"@);
            }
            r
        } else {
            proof {
                lemma_no_kid(*node, "name_list"@);
                lemma_no_kid(*node, "columnList"@);
            }
            let text = self.text(node);
            match find(text.as_str(), "(") {
                Some(start) => slice_chars(text.as_str(), start, char_count(text.as_str())),
                None => text,
            }
        }
    }

    /// WHERE in river style.
    pub(crate) fn format_where_river(&self, node: &SyntaxNode, width: usize, lines: &mut Vec<String>, b: usize)
        ensures
            appended(old(lines)@, final(lines)@),
            b > 1 && (exists|i: int| 0 <= i < node.children@.len() && #[trigger] node.children@[i].named
                && kind_among(node.children@[i].kind@, seq!["a_expr", "c_expr"]))
                ==> adds_line_opening(old(lines)@, final(lines)@, cased(self.config, "WHERE"@) + seq![' ']),
        decreases b,
    {
        assert(string_views(lines@).take(lines@.len() as int) =~= string_views(lines@));
        if b > 0 {
            self.format_condition_clause_river(node, "WHERE", width, lines, b - 1);
        }
    }

    /// HAVING in river style.
    pub(crate) fn format_having_river(&self, node: &SyntaxNode, width: usize, lines: &mut Vec<String>, b: usize)
        ensures
            appended(old(lines)@, final(lines)@),
            b > 1 && (exists|i: int| 0 <= i < node.children@.len() && #[trigger] node.children@[i].named
                && kind_among(node.children@[i].kind@, seq!["a_expr", "c_expr"]))
                ==> adds_line_opening(old(lines)@, final(lines)@, cased(self.config, "HAVING"@) + seq![' ']),
        decreases b,
    {
        assert(string_views(lines@).take(lines@.len() as int) =~= string_views(lines@));
        if b > 0 {
            self.format_condition_clause_river(node, "HAVING", width, lines, b - 1);
        }
    }

    /// LIMIT in river style.
    pub(crate) fn format_limit_river(&self, node: &SyntaxNode, width: usize, lines: &mut Vec<String>, b: usize)
        ensures
            appended(old(lines)@, final(lines)@),
            final(lines)@.len() <= old(lines)@.len() + 1,
            final(lines)@.len() == old(lines)@.len() + 1
                ==> opens_with(final(lines)@.last()@, cased(self.config, "LIMIT"@) + seq![' ']),
        decreases b,
    {
        assert(string_views(lines@).take(lines@.len() as int) =~= string_views(lines@));
        if b == 0 {
            return;
        }
        let value = self.extract_limit_value(node, b - 1);
        if !value.as_str().is_empty() {
            let kw = self.kw("LIMIT");
            lines.push(self.rline(kw.as_str(), value.as_str(), width));
            assert(string_views(lines@).take(old(lines)@.len() as int) =~= string_views(old(lines)@));
        } else {
            assert(string_views(lines@).take(old(lines)@.len() as int) =~= string_views(old(lines)@));
        }
    }

    /// OFFSET in river style.
    pub(crate) fn format_offset_river(&self, node: &SyntaxNode, width: usize, lines: &mut Vec<String>, b: usize)
        ensures
            appended(old(lines)@, final(lines)@),
            final(lines)@.len() <= old(lines)@.len() + 1,
            final(lines)@.len() == old(lines)@.len() + 1
                ==> opens_with(final(lines)@.last()@, cased(self.config, "OFFSET"@) + seq![' ']),
        decreases b,
    {
        assert(string_views(lines@).take(lines@.len() as int) =~= string_views(lines@));
        if b == 0 {
            return;
        }
        let value = self.extract_offset_value(node, b - 1);
        if !value.as_str().is_empty() {
            let kw = self.kw("OFFSET");
            lines.push(self.rline(kw.as_str(), value.as_str(), width));
            assert(string_views(lines@).take(old(lines)@.len() as int) =~= string_views(old(lines)@));
        } else {
            assert(string_views(lines@).take(old(lines)@.len() as int) =~= string_views(old(lines)@));
        }
    }

    /// WHERE or HAVING in river style.
    pub(crate) fn format_condition_clause_river(&self, node: &SyntaxNode, keyword: &str, width: usize,
        lines: &mut Vec<String>, b: usize)
        ensures
            appended(old(lines)@, final(lines)@),
            b > 0 && (exists|i: int| 0 <= i < node.children@.len() && #[trigger] node.children@[i].named
                && kind_among(node.children@[i].kind@, seq!["a_expr", "c_expr"]))
                ==> adds_line_opening(old(lines)@, final(lines)@, cased(self.config, keyword@) + seq![' ']),
            forall|k: int| old(lines)@.len() < k < final(lines)@.len() ==>
                opens_with((#[trigger] final(lines)@[k])@, cased(self.config, "AND"@) + seq![' '])
                || opens_with(final(lines)@[k]@, cased(self.config, "OR"@) + seq![' ']),
        decreases b,
    {
        let ghost start = lines@;
        if b == 0 {
            assert(string_views(lines@).take(start.len() as int) =~= string_views(start));
            return;
        }
        let kinds = ["a_expr", "c_expr"];
        assert(kinds@ == seq!["a_expr", "c_expr"]);
        if let Some(expr) = node.find_child_any(&kinds) {
            let conditions = self.split_top_level_conditions(expr, b - 1);
            let kw = self.kw(keyword);
            lines.push(self.rline(kw.as_str(), conditions[0].text.as_str(), width));
            assert(string_views(lines@).take(start.len() as int) =~= string_views(start));
            let ghost first = lines@[start.len() as int];
            let mut k: usize = 1;
            while k < conditions.len()
                invariant
                    appended(start, lines@),
                    start.len() < lines@.len(),
                    lines@[start.len() as int] == first,
                    lines@.len() == start.len() + k,
                    forall|x: int| start.len() < x < lines@.len() ==>
                        opens_with((#[trigger] lines@[x])@, cased(self.config, "AND"@) + seq![' '])
                        || opens_with(lines@[x]@, cased(self.config, "OR"@) + seq![' ']),
                decreases conditions.len() - k,
            {
                let ghost before = lines@;
                lines.push(self.rline(conditions[k].op.as_str(), conditions[k].text.as_str(), width));
                assert(string_views(lines@).take(start.len() as int) =~= string_views(before).take(start.len() as int));
                k += 1;
            }
        } else {
            assert(string_views(lines@).take(start.len() as int) =~= string_views(start));
        }
    }

    pub(crate) fn format_group_by_river(&self, node: &SyntaxNode, width: usize, lines: &mut Vec<String>, b: usize)
        ensures
            appended(old(lines)@, final(lines)@),
            final(lines)@.len() <= old(lines)@.len() + 1,
            b > 0 && (exists|i: int| 0 <= i < node.children@.len() && #[trigger] node.children@[i].named
                && node.children@[i].kind@ == "group_by_list"@)
                ==> adds_line_opening(old(lines)@, final(lines)@,
                    cased(self.config, "GROUP"@) + seq![' '] + cased(self.config, "BY"@) + seq![' ']),
        decreases b,
    {
        if b == 0 {
            assert(string_views(lines@).take(old(lines)@.len() as int) =~= string_views(old(lines)@));
            return;
        }
        let kw = self.kw_pair("GROUP", "BY");
        if let Some(list) = node.find_child("group_by_list") {
            let items = self.format_list(list, "group_by_list", b - 1);
            lines.push(self.rline(kw.as_str(), items.as_str(), width));
        }
        assert(string_views(lines@).take(old(lines)@.len() as int) =~= string_views(old(lines)@));
    }

    /// The ORDER BY items, formatted and joined with commas.
    pub(crate) fn sortby_items(&self, list: &SyntaxNode, b: usize) -> (r: String)
        ensures
            b == 0 ==> r@ == node_text(self.chars@, *list),
            b > 0 ==> exists|ps: Seq<Seq<char>>| ps.len() == flat_items(*list, "sortby_list"@).len()
                && r@ == join_with(ps, ", "@),
            b > 0 ==> exists|ps: Seq<Seq<char>>| ps.len() == flat_items(*list, "sortby_list"@).len()
                && r@ == join_with(ps, ", "@)
                && forall|i: int| 0 <= i < ps.len() ==> crate::expr_nodes::sortby_formatted(self.config, self.chars@,
                    #[trigger] flat_items(*list, "sortby_list"@)[i], (b - 1) as nat, ps[i]),
        decreases b,
    {
        if b == 0 {
            return self.text(list);
        }
        let items = flatten_list(list, "sortby_list");
        let ghost flat = flat_items(*list, "sortby_list"@);
        let mut formatted: Vec<String> = Vec::new();
        let mut k: usize = 0;
        while k < items.len()
            invariant
                k <= items@.len(),
                formatted@.len() == k,
                node_views(items@) == flat,
                forall|i: int| 0 <= i < k ==> crate::expr_nodes::sortby_formatted(self.config, self.chars@,
                    #[trigger] flat[i], (b - 1) as nat, formatted@[i]@),
            decreases items.len() - k,
        {
            proof { assert(flat[k as int] == *items@[k as int]); }
            formatted.push(self.format_sortby(items[k], b - 1));
            k += 1;
        }
        let r = join(&formatted, ", ");
        proof {
            let ps = string_views(formatted@);
            assert(ps.len() == flat.len());
            assert forall|i: int| 0 <= i < ps.len() implies crate::expr_nodes::sortby_formatted(self.config, self.chars@,
                #[trigger] flat[i], (b - 1) as nat, ps[i]) by {
                assert(ps[i] == formatted@[i]@);
            }
        }
        r
    }

    pub(crate) fn format_order_by_river(&self, node: &SyntaxNode, width: usize, lines: &mut Vec<String>, b: usize)
        ensures
            appended(old(lines)@, final(lines)@),
            final(lines)@.len() <= old(lines)@.len() + 1,
            b > 0 && (exists|i: int| 0 <= i < node.children@.len() && #[trigger] node.children@[i].named
                && node.children@[i].kind@ == "sortby_list"@)
                ==> adds_line_opening(old(lines)@, final(lines)@,
                    cased(self.config, "ORDER"@) + seq![' '] + cased(self.config, "BY"@) + seq![' ']),
        decreases b,
    {
        if b == 0 {
            assert(string_views(lines@).take(old(lines)@.len() as int) =~= string_views(old(lines)@));
            return;
        }
        let kw = self.kw_pair("ORDER", "BY");
        if let Some(list) = node.find_child("sortby_list") {
            let items = self.sortby_items(list, b - 1);
            lines.push(self.rline(kw.as_str(), items.as_str(), width));
        }
        assert(string_views(lines@).take(old(lines)@.len() as int) =~= string_views(old(lines)@));
    }

    pub(crate) fn extract_limit_value(&self, node: &SyntaxNode, b: usize) -> (r: String)
        ensures
            b == 0 ==> r@ == node_text(self.chars@, *node),
            b > 0 && (forall|i: int| 0 <= i < node.children@.len() && #[trigger] node.children@[i].named
                ==> node.children@[i].kind@ != "select_limit_value"@
                && !kind_among(node.children@[i].kind@, seq!["a_expr", "c_expr"])) ==> r@.len() == 0,
        decreases b,
    {
        if b == 0 {
            return self.text(node);
        }
        if let Some(val) = node.find_child("select_limit_value") {
            return self.format_expr(val, b - 1);
        }
        let kinds = ["a_expr", "c_expr"];
        assert(kinds@ == seq!["a_expr", "c_expr"]);
        if let Some(expr) = node.find_child_any(&kinds) {
            return self.format_expr(expr, b - 1);
        }
        String::new()
    }

    pub(crate) fn extract_offset_value(&self, node: &SyntaxNode, b: usize) -> (r: String)
        ensures
            b == 0 ==> r@ == node_text(self.chars@, *node),
            b > 0 && (forall|i: int| 0 <= i < node.children@.len() && #[trigger] node.children@[i].named
                ==> node.children@[i].kind@ != "select_offset_value"@
                && node.children@[i].kind@ != "select_fetch_first_value"@
                && !kind_among(node.children@[i].kind@, seq!["a_expr", "c_expr"])) ==> r@.len() == 0,
        decreases b,
    {
        if b == 0 {
            return self.text(node);
        }
        if let Some(val) = node.find_child("select_offset_value") {
            return self.format_expr(val, b - 1);
        }
        if let Some(val) = node.find_child("select_fetch_first_value") {
            return self.format_expr(val, b - 1);
        }
        let kinds = ["a_expr", "c_expr"];
        assert(kinds@ == seq!["a_expr", "c_expr"]);
        if let Some(expr) = node.find_child_any(&kinds) {
            return self.format_expr(expr, b - 1);
        }
        String::new()
    }

    /// Split a WHERE/HAVING/ON expression into its conditions at top-level
    /// AND/OR: the expression is formatted first, then its text is walked
    /// byte by byte, outside quotes, dollar quotes and parentheses, the AND
    /// of BETWEEN ... AND left alone. The first condition has no operator;
    /// where there is at most one condition, the whole text is the one.
    pub(crate) fn split_top_level_conditions(&self, node: &SyntaxNode, b: usize) -> (r: Vec<Condition>)
        ensures
            r@.len() >= 1,
            r@[0].op@.len() == 0,
            forall|k: int| 1 <= k < r@.len() ==> (#[trigger] r@[k]).op@ == cased(self.config, "AND"@)
                || r@[k].op@ == cased(self.config, "OR"@),
            exists|t: Seq<char>| (b == 0 ==> t == node_text(self.chars@, *node))
                && #[trigger] splits_text(self.config, t, r@),
        decreases b,
    {
        let full_text = if b == 0 { self.text(node) } else { self.format_expr(node, b - 1) };
        self.split_conditions_in(full_text)
    }

    /// Split the text of a formatted condition at its top-level AND/OR, as
    /// `split_top_level_conditions` describes. Where there is at most one
    /// condition, the one is the whole text; otherwise the conditions are the
    /// trimmed pieces of the text between the operators (`conditions_cut`),
    /// and what follows the last one is nothing or a dangling operator.
    #[verifier::rlimit(100)]
    #[verifier::spinoff_prover]
    pub(crate) fn split_conditions_in(&self, full_text: String) -> (r: Vec<Condition>)
        ensures
            r@.len() >= 1,
            r@[0].op@.len() == 0,
            forall|k: int| 1 <= k < r@.len() ==> (#[trigger] r@[k]).op@ == cased(self.config, "AND"@)
                || r@[k].op@ == cased(self.config, "OR"@),
            splits_text(self.config, full_text@, r@),
    {
        let and_kw = self.kw("AND");
        let or_kw = self.kw("OR");
        let between_kw = self.kw("BETWEEN");
        let sp_between = chars_of(concat(&[" ", between_kw.as_str()]).as_str());
        let sp_and = chars_of(concat(&[" ", and_kw.as_str()]).as_str());
        let sp_or = chars_of(concat(&[" ", or_kw.as_str()]).as_str());
        proof {
            reveal_with_fuel(crate::strs::concat_views, 3);
            reveal_strlit(" ");
            assert(sp_and@ == seq![' '] + and_kw@);
            assert(sp_or@ == seq![' '] + or_kw@);
        }
        let cs = chars_of(full_text.as_str());
        let ghost t = full_text@;
        let len = cs.len();
        let mut conditions: Vec<Condition> = Vec::new();
        let ghost mut cuts: Seq<(int, int)> = Seq::empty();
        let mut current_op = String::new();
        let mut paren_depth: u32 = 0;
        let mut in_between = false;
        // The text since the last split: `cs[start..i]`.
        let mut start: usize = 0;
        let mut i: usize = 0;
        while i < len
            invariant
                len == cs@.len(),
                cs@ == t,
                start <= i <= len,
                conditions_cut(t, conditions@, cuts),
                conditions@.len() > 0 ==> conditions@[0].op@.len() == 0,
                forall|k: int| 1 <= k < conditions@.len() ==> (#[trigger] conditions@[k]).op@ == and_kw@
                    || conditions@[k].op@ == or_kw@,
                conditions@.len() == 0 ==> current_op@.len() == 0 && start == 0,
                conditions@.len() > 0 ==> (current_op@ == and_kw@ || current_op@ == or_kw@)
                    && cuts.last().1 <= start
                    && condition_separator(t.subrange(cuts.last().1, start as int), current_op@),
            decreases len - i,
        {
            let ch = cs[i];
            let ghost i0 = i;
            // A single-quoted string, '' escaping a quote.
            if ch == '\'' {
                i += 1;
                while i < len
                    invariant
                        len == cs@.len(),
                        start <= i0 < i <= len,
                    decreases len - i,
                {
                    let c = cs[i];
                    i += 1;
                    if c == '\'' {
                        if i < len && cs[i] == '\'' {
                            i += 1;
                        } else {
                            break;
                        }
                    }
                }
                continue;
            }
            // A double-quoted identifier.
            if ch == '"' {
                i += 1;
                while i < len
                    invariant
                        len == cs@.len(),
                        start <= i0 < i <= len,
                    decreases len - i,
                {
                    let c = cs[i];
                    i += 1;
                    if c == '"' {
                        if i < len && cs[i] == '"' {
                            i += 1;
                        } else {
                            break;
                        }
                    }
                }
                continue;
            }
            // A dollar-quoted string: $$...$$ or $tag$...$tag$.
            if ch == '$' {
                let tag_start = i;
                let mut tag_end = i + 1;
                while tag_end < len && (crate::chars::is_ascii_alphanumeric(cs[tag_end]) || cs[tag_end] == '_')
                    invariant
                        len == cs@.len(),
                        i < tag_end <= len,
                    decreases len - tag_end,
                {
                    tag_end += 1;
                }
                if tag_end < len && cs[tag_end] == '$' {
                    let tag = copy_range(&cs, tag_start, tag_end + 1);
                    i = tag_end + 1;
                    // Scan for the closing tag.
                    while i < len
                        invariant
                            len == cs@.len(),
                            start <= i0 < i <= len,
                            tag@.len() > 0,
                        decreases len - i,
                    {
                        if cs[i] == '$' && occurs_at_chars(&cs, &tag, i) {
                            i = i + tag.len();
                            break;
                        }
                        i += 1;
                    }
                    continue;
                }
            }
            i += 1;
            if ch == '(' {
                paren_depth = paren_depth.saturating_add(1);
            } else if ch == ')' {
                paren_depth = paren_depth.saturating_sub(1);
            }
            if paren_depth > 0 {
                continue;
            }
            // A keyword counts at a word boundary: a space or the end next.
            let next_is_boundary = i >= len || cs[i] == ' ';
            if !next_is_boundary {
                continue;
            }
            if ends_here(&cs, start, i, &sp_between) {
                in_between = true;
                continue;
            }
            let is_and = ends_here(&cs, start, i, &sp_and);
            let is_or = !is_and && ends_here(&cs, start, i, &sp_or);
            if is_and || is_or {
                // The AND of BETWEEN ... AND stays.
                if is_and && in_between {
                    in_between = false;
                    continue;
                }
                let kw = if is_and { &and_kw } else { &or_kw };
                let ghost sp = if is_and { sp_and@ } else { sp_or@ };
                let kw_len = if is_and { sp_and.len() } else { sp_or.len() };
                let end = i - kw_len;
                let piece = string_of(&copy_range(&cs, start, end));
                let text = trim(piece.as_str());
                conditions.push(Condition { op: current_op.clone(), text });
                proof {
                    cuts = cuts.push((start as int, end as int));
                    assert(t.subrange(end as int, i as int) == sp);
                }
                current_op = kw.clone();
                start = i;
                // The space after the keyword is skipped.
                if i < len && cs[i] == ' ' {
                    i += 1;
                    start = i;
                    proof {
                        assert(t.subrange(end as int, i as int) =~= sp + seq![' ']);
                    }
                }
                proof {
                    assert(conditions_cut(t, conditions@, cuts));
                }
            }
        }
        let rest = string_of(&copy_range(&cs, start, len));
        let remaining = trim(rest.as_str());
        if !remaining.as_str().is_empty() {
            conditions.push(Condition { op: current_op, text: remaining });
            proof { cuts = cuts.push((start as int, len as int)); }
        }
        if conditions.len() <= 1 {
            let mut one: Vec<Condition> = Vec::new();
            one.push(Condition { op: String::new(), text: full_text });
            one
        } else {
            proof {
                assert(conditions_cut(t, conditions@, cuts));
                if cuts.last().1 != t.len() {
                    assert(condition_separator(t.subrange(cuts.last().1, start as int), current_op@));
                }
            }
            conditions
        }
    }

    /// The JOIN keyword of a joined_table node.
    pub(crate) fn get_join_keyword(&self, node: &SyntaxNode) -> (r: String)
        ensures
            has_suffix(r@, cased(self.config, "JOIN"@)),
    {
        match node.find_child("join_type") {
            Some(jt) => {
                let mut parts: Vec<String> = Vec::new();
                let named = jt.named_children();
                let mut k: usize = 0;
                while k < named.len()
                    decreases named.len() - k,
                {
                    let child = named[k];
                    k += 1;
                    if child.is("kw_inner") {
                        if !self.config.strip_inner_join {
                            parts.push(self.kw("INNER"));
                        }
                    } else if child.is("kw_left") {
                        parts.push(self.kw("LEFT"));
                    } else if child.is("kw_right") {
                        parts.push(self.kw("RIGHT"));
                    } else if child.is("kw_full") {
                        parts.push(self.kw("FULL"));
                    } else if child.is("kw_cross") {
                        parts.push(self.kw("CROSS"));
                    } else if child.is("kw_natural") {
                        parts.push(self.kw("NATURAL"));
                    } else if child.is("kw_outer") {
                    } else {
                        parts.push(self.format_keyword_node(child));
                    }
                }
                parts.push(self.kw("JOIN"));
                let r = join(&parts, " ");
                proof { lemma_join_ends_with_last(string_views(parts@), " "@); }
                r
            },
            None => {
                // A plain JOIN: INNER JOIN where the style asks for it.
                if self.config.explicit_inner_join {
                    let r = self.kw_pair("INNER", "JOIN");
                    proof {
                        let j = cased(self.config, "JOIN"@);
                        assert(r@.skip(r@.len() - j.len()) =~= j);
                    }
                    r
                } else {
                    let r = self.kw("JOIN");
                    proof { assert(r@.skip(0) =~= r@); }
                    r
                }
            },
        }
    }

    // Left-aligned SELECT (Mozilla, dbt, GitLab, Kickstarter).

    pub(crate) fn format_select_left_aligned(&self, clauses: &SelectClauses, b: usize) -> (r: String)
        ensures
            b > 0 && clauses.with_clause is None ==> has_prefix(r@, cased(self.config, "SELECT"@)),
            b > 0 ==> crate::strs::has_text(r@),
        decreases b,
    {
        if b == 0 {
            return String::new();
        }
        let d = b - 1;
        let mut lines: Vec<String> = Vec::new();
        let indent = self.config.indent;
        let blank = self.config.blank_lines_between_clauses;
        let select_kw = self.select_keyword(clauses, d);
        let ghost lead = cased(self.config, "SELECT"@);
        let first: String;
        if clauses.targets.len() <= 1 {
            let target_text = if clauses.targets.len() == 1 {
                self.format_target_el(clauses.targets[0], d)
            } else {
                owned("*")
            };
            let parts = [select_kw.as_str(), " ", target_text.as_str()];
            first = concat(&parts);
            proof {
                lemma_concat_starts_with_first(parts@);
                lemma_prefix_trans(first@, select_kw@, lead);
                reveal_with_fuel(crate::strs::concat_views, 4);
                reveal_strlit(" ");
                assert(first@ == select_kw@ + " "@ + target_text@);
                assert(first@[select_kw@.len() as int] == ' ');
                assert(crate::strs::has_text(first@));
            }
        } else {
            first = select_kw;
            let mut i: usize = 0;
            while i < clauses.targets.len()
                invariant
                    lines@.len() == i,
                decreases clauses.targets.len() - i,
            {
                let formatted = self.format_target_el(clauses.targets[i], d);
                if i + 1 < clauses.targets.len() {
                    lines.push(concat(&[indent, formatted.as_str(), ","]));
                } else {
                    lines.push(concat(&[indent, formatted.as_str()]));
                }
                i += 1;
            }
        }
        if let Some(from) = clauses.from {
            if blank {
                lines.push(String::new());
            }
            self.format_from_left_aligned(from, &mut lines, d);
        }
        if let Some(where_c) = clauses.where_clause {
            if blank {
                lines.push(String::new());
            }
            self.format_where_left_aligned(where_c, &mut lines, d);
        }
        if let Some(group) = clauses.group_clause {
            if blank {
                lines.push(String::new());
            }
            self.format_group_by_left_aligned(group, &mut lines, d);
        }
        if let Some(having) = clauses.having_clause {
            if blank {
                lines.push(String::new());
            }
            self.format_having_left_aligned(having, &mut lines, d);
        }
        if let Some(sort) = clauses.sort_clause {
            if blank {
                lines.push(String::new());
            }
            self.format_order_by_left_aligned(sort, &mut lines, d);
        }
        if let Some(limit) = clauses.limit_clause {
            if blank {
                lines.push(String::new());
            }
            let value = self.extract_limit_value(limit, d);
            if !value.as_str().is_empty() {
                let kw = self.kw("LIMIT");
                lines.push(concat(&[kw.as_str(), " ", value.as_str()]));
            }
        }
        if let Some(offset) = clauses.offset_clause {
            let value = self.extract_offset_value(offset, d);
            if !value.as_str().is_empty() {
                let kw = self.kw("OFFSET");
                lines.push(concat(&[kw.as_str(), " ", value.as_str()]));
            }
        }
        let ghost multi = clauses.targets@.len() > 1;
        let ghost first_view = first@;
        proof { assert(multi ==> lines@.len() >= 2); }
        lines.insert(0, first);
        proof { assert(lines@[0]@ == first_view); }
        if let Some(with) = clauses.with_clause {
            // A blank line between the CTE block and SELECT, except with
            // compact CTEs.
            if !self.config.compact_ctes {
                lines.insert(0, String::new());
            }
            lines.insert(0, self.format_with_clause_left(with, d));
        }
        let mut result = join(&lines, "\n");
        proof {
            let ps = string_views(lines@);
            if lines@.len() < 2 {
                assert(clauses.with_clause is None && !multi);
                assert(ps[0] == first_view);
            }
            crate::strs::lemma_join_has_text(ps);
        }
        proof {
            if clauses.with_clause is None {
                lemma_join_starts_with_first(string_views(lines@), "\n"@);
                lemma_prefix_trans(result@, lines@[0]@, lead);
            }
        }
        if let Some(set_op) = &clauses.set_op {
            let op_text = match &set_op.quantifier {
                Some(q) => concat(&[set_op.keyword.as_str(), " ", q.as_str()]),
                None => set_op.keyword.clone(),
            };
            let ghost before = result@;
            if blank {
                push_str(&mut result, "\n\n");
            } else {
                push_char(&mut result, '\n');
            }
            push_str(&mut result, op_text.as_str());
            push_char(&mut result, '\n');
            let right = match &set_op.right_clauses {
                Some(rc) => self.format_select_left_aligned(rc, d),
                None => {
                    let right_clauses = self.collect_select_clauses(set_op.right, d);
                    self.format_select_left_aligned(&right_clauses, d)
                },
            };
            push_str(&mut result, right.as_str());
            proof {
                let added = result@.subrange(before.len() as int, result@.len() as int);
                assert(result@ =~= before + added);
                if clauses.with_clause is None {
                    lemma_prefix_append(before, added, lead);
                }
                assert(result@.take(before.len() as int) =~= before);
                crate::strs::lemma_prefix_has_text(result@, before);
            }
        }
        result
    }

    pub(crate) fn format_from_left_aligned(&self, node: &SyntaxNode, lines: &mut Vec<String>, b: usize)
        ensures
            appended(old(lines)@, final(lines)@),
            b > 0 && (first_kid(*node, "from_list"@) matches Some(l) && flat_items(l, "from_list"@).len() > 0
                && (flat_items(l, "from_list"@)[0].kind@ != "table_ref"@
                    || first_kid(flat_items(l, "from_list"@)[0], "joined_table"@) is None))
                ==> final(lines)@.len() > old(lines)@.len()
                    && has_prefix(final(lines)@[old(lines)@.len() as int]@, cased(self.config, "FROM"@)),
        decreases b,
    {
        let ghost l0 = lines@;
        proof { lemma_appended_self(l0); }
        if b == 0 {
            return;
        }
        let d = b - 1;
        let indent = self.config.indent;
        if let Some(from_list) = node.find_child("from_list") {
            proof { lemma_found_kid(*node, "from_list"@, *from_list); }
            let tables = flatten_list(from_list, "from_list");
            if tables.len() == 0 {
                return;
            }
            let first = tables[0];
            proof { assert(node_views(tables@)[0] == *first); }
            let first_jt = if first.is("table_ref") {
                let j = first.find_child("joined_table");
                proof { if j is None { lemma_no_kid(*first, "joined_table"@); } else { lemma_found_kid(*first, "joined_table"@, *j.unwrap()); } }
                j
            } else {
                None
            };
            let ghost plain = first_jt is None;
            match first_jt {
                Some(jt) => self.format_joined_table_left_aligned(jt, lines, true, d),
                None => {
                    let text = self.format_table_ref(first, d);
                    let from_kw = self.kw("FROM");
                    if tables.len() == 1 && !first.has_child("joined_table") {
                        let l = concat(&[from_kw.as_str(), " ", text.as_str()]);
                        proof {
                            reveal_with_fuel(crate::strs::concat_views, 4);
                            assert(l@.take(from_kw@.len() as int) =~= from_kw@);
                        }
                        push_line(lines, l);
                    } else {
                        proof { lemma_prefix_self(from_kw@); }
                        push_line(lines, from_kw);
                        let ghost c = lines@;
                        push_line(lines, concat(&[indent, text.as_str()]));
                        proof { lemma_appended_trans(l0, c, lines@); }
                    }
                },
            }
            let ghost head = lines@;
            proof { lemma_appended_self(head); }
            let mut i: usize = 1;
            while i < tables.len()
                invariant
                    appended(head, lines@),
                decreases tables.len() - i,
            {
                let table = tables[i];
                i += 1;
                let ghost c = lines@;
                let jt = if table.is("table_ref") { table.find_child("joined_table") } else { None };
                match jt {
                    Some(jt) => self.format_joined_table_left_aligned(jt, lines, false, d),
                    None => {
                        let text = self.format_table_ref(table, d);
                        push_line(lines, concat(&[indent, text.as_str()]));
                    },
                }
                proof { lemma_appended_trans(head, c, lines@); }
            }
            proof {
                lemma_appended_trans(l0, head, lines@);
                if plain {
                    assert(string_views(lines@).take(head.len() as int)[l0.len() as int]
                        == string_views(head)[l0.len() as int]);
                }
            }
        } else {
            proof { lemma_no_kid(*node, "from_list"@); }
        }
    }

    pub(crate) fn format_joined_table_left_aligned(&self, node: &SyntaxNode, lines: &mut Vec<String>, is_first: bool, b: usize)
        ensures
            appended(old(lines)@, final(lines)@),
            b > 0 && kind_count(named_of(node.children@), "table_ref"@) >= 2 ==> final(lines)@.len() > old(lines)@.len(),
        decreases b,
    {
        let ghost l0 = lines@;
        proof { lemma_appended_self(l0); }
        if b == 0 {
            return;
        }
        let d = b - 1;
        let indent = self.config.indent;
        let named = node.named_children();
        let ghost ns = named_of(node.children@);
        proof {
            assert(ns.take(0) =~= Seq::<SyntaxNode>::empty());
            reveal_strlit("table_ref");
            reveal_strlit("join_qual");
            assert("table_ref"@[0] == 't' && "join_qual"@[0] == 'j');
        }
        let mut left_table: Option<&SyntaxNode> = None;
        let mut right_table: Option<&SyntaxNode> = None;
        let mut join_qual_node: Option<&SyntaxNode> = None;
        let mut table_count: usize = 0;
        let mut k: usize = 0;
        while k < named.len()
            invariant
                table_count <= k,
                k <= named@.len(),
                named@.map_values(|c: &SyntaxNode| *c) == ns,
                table_count == kind_count(ns.take(k as int), "table_ref"@),
                right_table is Some <==> table_count >= 2,
                table_count >= 1 ==> left_table is Some,
            decreases named.len() - k,
        {
            proof {
                assert(ns.take(k + 1).drop_last() =~= ns.take(k as int));
                assert(ns.take(k + 1).last() == *named@[k as int]);
            }
            let child = named[k];
            k += 1;
            if child.is("table_ref") {
                if table_count == 0 {
                    left_table = Some(child);
                } else {
                    right_table = Some(child);
                }
                table_count += 1;
            } else if child.is("join_qual") {
                join_qual_node = Some(child);
            }
        }
        proof { assert(ns.take(named@.len() as int) =~= ns); }
        if let Some(left) = left_table {
            match left.find_child("joined_table") {
                Some(inner_jt) => self.format_joined_table_left_aligned(inner_jt, lines, is_first, d),
                None => {
                    let text = self.format_table_ref(left, d);
                    if is_first {
                        // GitLab and Kickstarter keep FROM and the table on one
                        // line; Mozilla and dbt put the table under FROM.
                        let from_kw = self.kw("FROM");
                        if self.style == Style::Gitlab || self.style == Style::Kickstarter {
                            push_line(lines, concat(&[from_kw.as_str(), " ", text.as_str()]));
                        } else {
                            push_line(lines, from_kw);
                            let ghost c = lines@;
                            push_line(lines, concat(&[indent, text.as_str()]));
                            proof { lemma_appended_trans(l0, c, lines@); }
                        }
                    } else {
                        push_line(lines, concat(&[indent, text.as_str()]));
                    }
                },
            }
        }
        let ghost after_left = lines@;
        let join_kw = self.get_join_keyword(node);
        if let Some(right) = right_table {
            let right_text = self.format_table_ref(right, d);
            if self.config.join_on_same_line {
                // Kickstarter: JOIN ... ON on one line.
                let mut join_line = concat(&[join_kw.as_str(), " ", right_text.as_str()]);
                if let Some(qual) = join_qual_node {
                    let qual_text = self.format_join_qual_inline(qual, d);
                    push_char(&mut join_line, ' ');
                    push_str(&mut join_line, qual_text.as_str());
                    push_line(lines, join_line);
                    let ghost c = lines@;
                    proof { lemma_appended_trans(l0, after_left, c); }
                    // Further conditions on indented lines.
                    self.format_extra_join_conditions(qual, lines, d);
                    proof { lemma_appended_trans(l0, c, lines@); }
                    return;
                }
                push_line(lines, join_line);
            } else {
                push_line(lines, join_kw);
                let ghost c = lines@;
                push_line(lines, concat(&[indent, right_text.as_str()]));
                proof { lemma_appended_trans(after_left, c, lines@); }
            }
        } else {
            proof { lemma_appended_self(lines@); }
        }
        proof { lemma_appended_trans(l0, after_left, lines@); }
        let ghost after_right = lines@;
        if !self.config.join_on_same_line {
            if let Some(qual) = join_qual_node {
                self.format_join_qual_left_aligned(qual, lines, d);
                proof { lemma_appended_trans(l0, after_right, lines@); }
            }
        }
    }

    pub(crate) fn format_join_qual_inline(&self, node: &SyntaxNode, b: usize) -> (r: String)
        ensures
            b == 0 ==> r@ == node_text(self.chars@, *node),
            b > 0 ==> r@.len() == 0 || has_prefix(r@, cased(self.config, "ON"@) + seq![' '])
                || has_prefix(r@, cased(self.config, "USING"@) + seq![' ']),
            b > 0 && (exists|i: int| 0 <= i < node.children@.len() && #[trigger] node.children@[i].named
                && node.children@[i].kind@ == "kw_using"@)
                && !(exists|i: int| 0 <= i < node.children@.len() && #[trigger] node.children@[i].named
                && node.children@[i].kind@ == "kw_on"@)
                ==> has_prefix(r@, cased(self.config, "USING"@) + seq![' ']),
        decreases b,
    {
        if b == 0 {
            return self.text(node);
        }
        proof { reveal_strlit(" "); }
        if node.has_child("kw_on") {
            if let Some(expr) = node.find_child_any(&["a_expr", "c_expr"]) {
                let conditions = self.split_top_level_conditions(expr, b - 1);
                let on_kw = self.kw("ON");
                let parts = [on_kw.as_str(), " ", conditions[0].text.as_str()];
                let r = concat(&parts);
                proof {
                    assert(parts@[1]@ == seq![' ']);
                    crate::strs::lemma_concat_leads(parts@, on_kw@);
                }
                return r;
            }
        } else if node.has_child("kw_using") {
            let using_text = self.format_using_clause(node, b - 1);
            let using_kw = self.kw("USING");
            let parts = [using_kw.as_str(), " ", using_text.as_str()];
            let r = concat(&parts);
            proof {
                assert(parts@[1]@ == seq![' ']);
                crate::strs::lemma_concat_leads(parts@, using_kw@);
            }
            return r;
        }
        String::new()
    }

    pub(crate) fn format_extra_join_conditions(&self, node: &SyntaxNode, lines: &mut Vec<String>, b: usize)
        ensures
            appended(old(lines)@, final(lines)@),
        decreases b,
    {
        let ghost l0 = lines@;
        proof { lemma_appended_self(l0); }
        if b == 0 {
            return;
        }
        if let Some(expr) = node.find_child_any(&["a_expr", "c_expr"]) {
            let conditions = self.split_top_level_conditions(expr, b - 1);
            let indent = self.config.indent;
            let mut k: usize = 1;
            while k < conditions.len()
                invariant
                    appended(l0, lines@),
                decreases conditions.len() - k,
            {
                let ghost c = lines@;
                push_line(lines, concat(&[indent, conditions[k].op.as_str(), " ", conditions[k].text.as_str()]));
                proof { lemma_appended_trans(l0, c, lines@); }
                k += 1;
            }
        }
    }

    pub(crate) fn format_join_qual_left_aligned(&self, node: &SyntaxNode, lines: &mut Vec<String>, b: usize)
        ensures
            appended(old(lines)@, final(lines)@),
            b > 0 && crate::plpgsql::holds_kind(*node, "kw_on"@) && (exists|i: int| 0 <= i < node.children@.len()
                && #[trigger] node.children@[i].named && kind_among(node.children@[i].kind@, seq!["a_expr", "c_expr"]))
                ==> final(lines)@.len() > old(lines)@.len() && has_prefix(final(lines)@[old(lines)@.len() as int]@,
                    self.config.indent@ + cased(self.config, "ON"@) + " "@),
            b > 0 && !crate::plpgsql::holds_kind(*node, "kw_on"@) && crate::plpgsql::holds_kind(*node, "kw_using"@)
                ==> final(lines)@.len() == old(lines)@.len() + 1 && has_prefix(final(lines)@.last()@,
                    self.config.indent@ + cased(self.config, "USING"@) + " "@),
            b == 0 ==> final(lines)@ == old(lines)@,
        decreases b,
    {
        let ghost l0 = lines@;
        proof { lemma_appended_self(l0); }
        if b == 0 {
            return;
        }
        let indent = self.config.indent;
        if node.has_child("kw_on") {
            if let Some(expr) = node.find_child_any(&["a_expr", "c_expr"]) {
                let conditions = self.split_top_level_conditions(expr, b - 1);
                let on_kw = self.kw("ON");
                let first = concat(&[indent, on_kw.as_str(), " ", conditions[0].text.as_str()]);
                proof {
                    reveal_with_fuel(crate::strs::concat_views, 5);
                    let p = indent@ + on_kw@ + " "@;
                    assert(first@.take(p.len() as int) =~= p);
                    lemma_appended_push(lines@, first);
                }
                lines.push(first);
                let mut k: usize = 1;
                while k < conditions.len()
                    invariant
                        appended(l0, lines@),
                        lines@.len() > l0.len(),
                        lines@[l0.len() as int] == first,
                    decreases conditions.len() - k,
                {
                    let l = concat(&[indent, conditions[k].op.as_str(), " ", conditions[k].text.as_str()]);
                    proof { lemma_appended_push(lines@, l); lemma_appended_trans(l0, lines@, lines@.push(l)); }
                    lines.push(l);
                    k += 1;
                }
            }
        } else if node.has_child("kw_using") {
            let using_text = self.format_using_clause(node, b - 1);
            let using_kw = self.kw("USING");
            let l = concat(&[indent, using_kw.as_str(), " ", using_text.as_str()]);
            proof {
                reveal_with_fuel(crate::strs::concat_views, 5);
                let p = indent@ + using_kw@ + " "@;
                assert(l@.take(p.len() as int) =~= p);
                lemma_appended_push(lines@, l);
            }
            lines.push(l);
        }
    }

    pub(crate) fn format_where_left_aligned(&self, node: &SyntaxNode, lines: &mut Vec<String>, b: usize)
        ensures
            appended(old(lines)@, final(lines)@),
            b > 0 && (exists|i: int| 0 <= i < node.children@.len() && #[trigger] node.children@[i].named
                && kind_among(node.children@[i].kind@, seq!["a_expr", "c_expr"]))
                ==> adds_line_opening(old(lines)@, final(lines)@, cased(self.config, "WHERE"@)),
        decreases b,
    {
        let ghost start = lines@;
        assert(string_views(lines@).take(lines@.len() as int) =~= string_views(lines@));
        if b == 0 {
            return;
        }
        let indent = self.config.indent;
        let kinds = ["a_expr", "c_expr"];
        assert(kinds@ == seq!["a_expr", "c_expr"]);
        if let Some(expr) = node.find_child_any(&kinds) {
            let conditions = self.split_top_level_conditions(expr, b - 1);
            let where_kw = self.kw("WHERE");
            let ghost w = where_kw@;
            proof { lemma_prefix_self(w); lemma_opens_with_prefix(w, w); }
            if conditions.len() <= 1 {
                let text = conditions[0].text.as_str();
                if self.style == Style::Mozilla || self.style == Style::Dbt || self.style == Style::Gitlab
                    || self.style == Style::Kickstarter {
                    lines.push(where_kw);
                    let ghost mid = string_views(lines@);
                    Self::push_indented_multiline(lines, indent, text);
                    assert(string_views(lines@)[start.len() as int] == mid[start.len() as int]);
                } else {
                    let parts = [where_kw.as_str(), " ", text];
                    let line = concat(&parts);
                    proof {
                        crate::strs::lemma_concat_starts_with_first(parts@);
                        lemma_opens_with_prefix(line@, w);
                    }
                    lines.push(line);
                }
                assert(string_views(lines@).take(start.len() as int) =~= string_views(start));
            } else {
                lines.push(where_kw);
                assert(string_views(lines@).take(start.len() as int) =~= string_views(start));
                let ghost first = string_views(lines@)[start.len() as int];
                let mut k: usize = 0;
                assert(string_views(lines@).len() == lines@.len());
                while k < conditions.len()
                    invariant
                        appended(start, lines@),
                        start.len() < lines@.len(),
                        string_views(lines@)[start.len() as int] == first,
                    decreases conditions.len() - k,
                {
                    let ghost before = string_views(lines@);
                    if k == 0 {
                        Self::push_indented_multiline(lines, indent, conditions[0].text.as_str());
                    } else {
                        let t = concat(&[conditions[k].op.as_str(), " ", conditions[k].text.as_str()]);
                        Self::push_indented_multiline(lines, indent, t.as_str());
                    }
                    assert(string_views(lines@).len() == lines@.len());
                    assert(before.len() <= string_views(lines@).len());
                    assert(string_views(lines@).take(start.len() as int) =~= before.take(start.len() as int));
                    assert(string_views(lines@)[start.len() as int] == before[start.len() as int]);
                    k += 1;
                }
            }
        }
    }

    fn format_having_left_aligned(&self, node: &SyntaxNode, lines: &mut Vec<String>, b: usize)
        ensures
            appended(old(lines)@, final(lines)@),
            b > 1 && (exists|i: int| 0 <= i < node.children@.len() && #[trigger] node.children@[i].named
                && kind_among(node.children@[i].kind@, seq!["a_expr", "c_expr"]))
                ==> adds_line_opening(old(lines)@, final(lines)@, cased(self.config, "HAVING"@)),
        decreases b,
    {
        assert(string_views(lines@).take(lines@.len() as int) =~= string_views(lines@));
        if b > 0 {
            self.format_condition_clause_left_aligned(node, "HAVING", lines, b - 1);
        }
    }

    /// HAVING (and similar clauses) left-aligned.
    pub(crate) fn format_condition_clause_left_aligned(&self, node: &SyntaxNode, keyword: &str, lines: &mut Vec<String>, b: usize)
        ensures
            appended(old(lines)@, final(lines)@),
            b > 0 && (exists|i: int| 0 <= i < node.children@.len() && #[trigger] node.children@[i].named
                && kind_among(node.children@[i].kind@, seq!["a_expr", "c_expr"]))
                ==> adds_line_opening(old(lines)@, final(lines)@, cased(self.config, keyword@)),
        decreases b,
    {
        let ghost start = lines@;
        assert(string_views(lines@).take(lines@.len() as int) =~= string_views(lines@));
        if b == 0 {
            return;
        }
        let indent = self.config.indent;
        let kinds = ["a_expr", "c_expr"];
        assert(kinds@ == seq!["a_expr", "c_expr"]);
        if let Some(expr) = node.find_child_any(&kinds) {
            let conditions = self.split_top_level_conditions(expr, b - 1);
            let kwl = self.kw(keyword);
            proof { lemma_prefix_self(kwl@); lemma_opens_with_prefix(kwl@, kwl@); }
            lines.push(kwl);
            let ghost first = lines@[start.len() as int];
            lines.push(concat(&[indent, conditions[0].text.as_str()]));
            assert(string_views(lines@).take(start.len() as int) =~= string_views(start));
            let mut k: usize = 1;
            while k < conditions.len()
                invariant
                    appended(start, lines@),
                    start.len() < lines@.len(),
                    lines@[start.len() as int] == first,
                decreases conditions.len() - k,
            {
                let ghost before = lines@;
                lines.push(concat(&[indent, conditions[k].op.as_str(), " ", conditions[k].text.as_str()]));
                assert(string_views(lines@).take(start.len() as int) =~= string_views(before).take(start.len() as int));
                k += 1;
            }
        }
    }

    pub(crate) fn format_group_by_left_aligned(&self, node: &SyntaxNode, lines: &mut Vec<String>, b: usize)
        ensures
            appended(old(lines)@, final(lines)@),
            b > 0 && (exists|i: int| 0 <= i < node.children@.len() && #[trigger] node.children@[i].named
                && node.children@[i].kind@ == "group_by_list"@)
                ==> adds_line_opening(old(lines)@, final(lines)@,
                    cased(self.config, "GROUP"@) + seq![' '] + cased(self.config, "BY"@)),
        decreases b,
    {
        let ghost start = lines@;
        assert(string_views(lines@).take(lines@.len() as int) =~= string_views(lines@));
        if b == 0 {
            return;
        }
        let d = b - 1;
        let kw = self.kw_pair("GROUP", "BY");
        let ghost w = kw@;
        proof { lemma_prefix_self(w); lemma_opens_with_prefix(w, w); }
        if let Some(list) = node.find_child("group_by_list") {
            let items = flatten_list(list, "group_by_list");
            let formatted = self.format_each(&items, d);
            if items.len() <= 1 || self.style == Style::Kickstarter {
                let joined = join(&formatted, ", ");
                let parts = [kw.as_str(), " ", joined.as_str()];
                let line = concat(&parts);
                proof {
                    crate::strs::lemma_concat_starts_with_first(parts@);
                    lemma_opens_with_prefix(line@, w);
                }
                lines.push(line);
                assert(string_views(lines@).take(start.len() as int) =~= string_views(start));
            } else {
                // One item per line.
                lines.push(kw);
                assert(string_views(lines@).take(start.len() as int) =~= string_views(start));
                let ghost first = lines@[start.len() as int];
                let indent = self.config.indent;
                let mut i: usize = 0;
                while i < formatted.len()
                    invariant
                        appended(start, lines@),
                        start.len() < lines@.len(),
                        lines@[start.len() as int] == first,
                    decreases formatted.len() - i,
                {
                    let ghost before = lines@;
                    if i + 1 < formatted.len() {
                        lines.push(concat(&[indent, formatted[i].as_str(), ","]));
                    } else {
                        lines.push(concat(&[indent, formatted[i].as_str()]));
                    }
                    assert(string_views(lines@).take(start.len() as int) =~= string_views(before).take(start.len() as int));
                    i += 1;
                }
            }
        }
    }

    pub(crate) fn format_order_by_left_aligned(&self, node: &SyntaxNode, lines: &mut Vec<String>, b: usize)
        ensures
            appended(old(lines)@, final(lines)@),
            final(lines)@.len() <= old(lines)@.len() + 1,
            b > 0 && (exists|i: int| 0 <= i < node.children@.len() && #[trigger] node.children@[i].named
                && node.children@[i].kind@ == "sortby_list"@)
                ==> adds_line_opening(old(lines)@, final(lines)@,
                    cased(self.config, "ORDER"@) + seq![' '] + cased(self.config, "BY"@) + seq![' ']),
        decreases b,
    {
        assert(string_views(lines@).take(lines@.len() as int) =~= string_views(lines@));
        if b == 0 {
            return;
        }
        let kw = self.kw_pair("ORDER", "BY");
        if let Some(list) = node.find_child("sortby_list") {
            let items = self.sortby_items(list, b - 1);
            let parts = [kw.as_str(), " ", items.as_str()];
            let line = concat(&parts);
            proof {
                reveal_strlit(" ");
                assert(parts@[1]@ == seq![' ']);
                crate::strs::lemma_concat_leads(parts@, kw@);
                lemma_opens_with_prefix(line@, kw@ + seq![' ']);
            }
            lines.push(line);
        }
        assert(string_views(lines@).take(old(lines)@.len() as int) =~= string_views(old(lines)@));
    }

    // WITH / CTE formatting.

    /// `WITH`, or `WITH RECURSIVE` where the clause says so.
    pub(crate) fn with_keyword(&self, with: &SyntaxNode) -> (r: String)
        ensures
            r@ == if exists|i: int| 0 <= i < with.children@.len() && #[trigger] with.children@[i].named
                && with.children@[i].kind@ == "kw_recursive"@ {
                cased(self.config, "WITH"@) + seq![' '] + cased(self.config, "RECURSIVE"@)
            } else {
                cased(self.config, "WITH"@)
            },
            has_prefix(r@, cased(self.config, "WITH"@)),
    {
        if with.has_child("kw_recursive") {
            let r = self.kw_pair("WITH", "RECURSIVE");
            proof {
                let w = cased(self.config, "WITH"@);
                lemma_prefix_self(w);
                lemma_prefix_append(w, seq![' '] + cased(self.config, "RECURSIVE"@), w);
                assert(r@ =~= w + (seq![' '] + cased(self.config, "RECURSIVE"@)));
            }
            r
        } else {
            let r = self.kw("WITH");
            proof { lemma_prefix_self(r@); }
            r
        }
    }

    /// The WITH clause of an INSERT, UPDATE, DELETE or MERGE in river
    /// style: WITH right-aligned to the statement's river, each CTE's body
    /// and closing paren at the content column.
    pub(crate) fn format_with_clause_river_dml(&self, node: &SyntaxNode, river_width: usize, b: usize) -> (r: String)
        ensures
            b == 0 ==> r@ == node_text(self.chars@, *node),
            b > 0 && (first_kid(*node, "cte_list"@) matches Some(l) && flat_items(l, "cte_list"@).len() > 0)
                ==> opens_with(r@, cased(self.config, "WITH"@)),
            b > 0 && first_kid(*node, "cte_list"@) is None ==> r@.len() == 0,
        decreases b,
    {
        if b == 0 {
            return self.text(node);
        }
        let ghost w = cased(self.config, "WITH"@);
        let pad = spaces_str(river_width.saturating_add(1));
        let with_kw = self.with_keyword(node);
        proof { assert(with_kw@.take(w.len() as int) =~= w); }
        let as_kw = self.kw("AS");
        let mut lines: Vec<String> = Vec::new();
        if let Some(cte_list) = node.find_child("cte_list") {
            proof { lemma_found_kid(*node, "cte_list"@, *cte_list); }
            let ctes = flatten_list(cte_list, "cte_list");
            let mut i: usize = 0;
            while i < ctes.len()
                invariant
                    i <= ctes@.len(),
                    i == 0 ==> lines@.len() == 0,
                    i > 0 ==> lines@.len() >= 1 && opens_with(lines@[0]@, w),
                decreases ctes.len() - i,
            {
                let (name, body) = self.cte_parts(ctes[i], b - 1);
                let head = concat(&[name.as_str(), " ", as_kw.as_str(), " ("]);
                if i == 0 {
                    let l = self.rline(with_kw.as_str(), head.as_str(), river_width);
                    proof {
                        assert((with_kw@ + seq![' ']).take(w.len() as int) =~= w);
                        lemma_opens_with_shorter(l@, with_kw@ + seq![' '], w);
                    }
                    lines.push(l);
                } else {
                    let ghost p0 = lines@;
                    crate::expr_nodes::append_last(&mut lines, ",");
                    proof {
                        if p0.len() == 1 {
                            lemma_opens_with_append(p0[0]@, ","@, w);
                        } else {
                            assert(lines@[0] == p0[0]);
                        }
                    }
                    lines.push(concat(&[pad.as_str(), head.as_str()]));
                }
                let body_lines = lines_of_str(body.as_str());
                let mut j: usize = 0;
                while j < body_lines.len()
                    invariant
                        lines@.len() >= 1 && opens_with(lines@[0]@, w),
                    decreases body_lines.len() - j,
                {
                    if body_lines[j].as_str().is_empty() {
                        lines.push(String::new());
                    } else {
                        lines.push(concat(&[pad.as_str(), body_lines[j].as_str()]));
                    }
                    j += 1;
                }
                lines.push(concat(&[pad.as_str(), ")"]));
                i += 1;
            }
        }
        let r = join(&lines, "\n");
        proof {
            if lines@.len() >= 1 {
                lemma_join_starts_with_first(string_views(lines@), "\n"@);
                assert(string_views(lines@)[0] == lines@[0]@);
                lemma_opens_with_trans(r@, lines@[0]@, w);
            }
            if lines@.len() == 0 {
                assert(string_views(lines@) =~= Seq::<Seq<char>>::empty());
            }
        }
        r
    }

    /// The name and SELECT body of a CTE.
    pub(crate) fn cte_parts(&self, cte: &SyntaxNode, b: usize) -> (r: (String, String))
        ensures
            b == 0 ==> r.0@.len() == 0 && r.1@.len() == 0,
            first_kid(*cte, "name"@) is None ==> r.0@.len() == 0,
            first_kid_within(*cte, "PreparableStmt"@, "SelectStmt"@) is None ==> r.1@.len() == 0,
        decreases b,
    {
        if b == 0 {
            return (String::new(), String::new());
        }
        let name = match cte.find_child("name") {
            Some(n) => {
                proof { lemma_found_kid(*cte, "name"@, *n); }
                self.format_expr(n, b - 1)
            },
            None => String::new(),
        };
        let mut body = String::new();
        if let Some(prep) = cte.find_child("PreparableStmt") {
            proof { lemma_found_kid(*cte, "PreparableStmt"@, *prep); }
            if let Some(select) = prep.find_child("SelectStmt") {
                proof { lemma_found_kid(*prep, "SelectStmt"@, *select); }
                body = self.format_select_stmt(select, b - 1);
            } else {
                proof { lemma_no_kid(*prep, "SelectStmt"@); }
            }
        } else {
            proof { lemma_no_kid(*cte, "PreparableStmt"@); }
        }
        (name, body)
    }

    /// One CTE of a river-style WITH: `name AS (`, the body, `)`.
    fn format_cte_river(&self, node: &SyntaxNode, _river_width: usize, b: usize) -> (r: String)
        ensures
            b == 0 ==> r@ == node_text(self.chars@, *node),
            b > 0 ==> exists|name: Seq<char>, body: Seq<char>|
                r@ == name + " "@ + cased(self.config, "AS"@) + " (\n"@ + body + "\n)"@,
        decreases b,
    {
        if b == 0 {
            return self.text(node);
        }
        let (name, body) = self.cte_parts(node, b - 1);
        let as_kw = self.kw("AS");
        let r = concat(&[name.as_str(), " ", as_kw.as_str(), " (\n", body.as_str(), "\n)"]);
        proof {
            reveal_with_fuel(crate::strs::concat_views, 7);
            assert(r@ =~= name@ + " "@ + as_kw@ + " (\n"@ + body@ + "\n)"@);
        }
        r
    }

    pub(crate) fn format_with_clause_river(&self, node: &SyntaxNode, river_width: usize, b: usize) -> (r: String)
        ensures
            b == 0 ==> r@ == node_text(self.chars@, *node),
            b > 0 && (first_kid(*node, "cte_list"@) matches Some(l) && flat_items(l, "cte_list"@).len() > 0)
                ==> has_prefix(r@, cased(self.config, "WITH"@)),
            b > 0 && first_kid(*node, "cte_list"@) is None ==> r@.len() == 0,
        decreases b,
    {
        if b == 0 {
            return self.text(node);
        }
        let ghost w = cased(self.config, "WITH"@);
        let mut lines: Vec<String> = Vec::new();
        if let Some(cte_list) = node.find_child("cte_list") {
            proof { lemma_found_kid(*node, "cte_list"@, *cte_list); }
            let ctes = flatten_list(cte_list, "cte_list");
            let mut i: usize = 0;
            while i < ctes.len()
                invariant
                    i <= ctes@.len(),
                    i == 0 ==> lines@.len() == 0,
                    i > 0 ==> lines@.len() >= 1 && has_prefix(lines@[0]@, w),
                decreases ctes.len() - i,
            {
                let cte_text = self.format_cte_river(ctes[i], river_width, b - 1);
                if i == 0 {
                    let with_kw = self.with_keyword(node);
                    let l = concat(&[with_kw.as_str(), " ", cte_text.as_str()]);
                    proof {
                        reveal_with_fuel(crate::strs::concat_views, 4);
                        assert(l@.take(w.len() as int) =~= w);
                    }
                    lines.push(l);
                } else {
                    lines.push(cte_text);
                }
                i += 1;
            }
        } else {
            proof { lemma_no_kid(*node, "cte_list"@); }
        }
        let r = join(&lines, ",\n");
        proof {
            if lines@.len() >= 1 {
                lemma_join_starts_with_first(string_views(lines@), ",\n"@);
                assert(string_views(lines@)[0] == lines@[0]@);
                lemma_prefix_trans(r@, lines@[0]@, w);
            }
            if lines@.len() == 0 {
                assert(string_views(lines@) =~= Seq::<Seq<char>>::empty());
            }
        }
        r
    }

    pub(crate) fn format_with_clause_left(&self, node: &SyntaxNode, b: usize) -> (r: String)
        ensures
            b == 0 ==> r@ == node_text(self.chars@, *node),
            b > 0 && (first_kid(*node, "cte_list"@) matches Some(l) && flat_items(l, "cte_list"@).len() > 0)
                ==> has_prefix(r@, cased(self.config, "WITH"@)),
            b > 0 && first_kid(*node, "cte_list"@) is None ==> r@.len() == 0,
        decreases b,
    {
        if b == 0 {
            return self.text(node);
        }
        let ghost wv = cased(self.config, "WITH"@);
        let mut lines: Vec<String> = Vec::new();
        let indent = self.config.indent;
        let blank_in_ctes = self.config.blank_lines_in_ctes;
        if let Some(cte_list) = node.find_child("cte_list") {
            proof { lemma_found_kid(*node, "cte_list"@, *cte_list); }
            let ctes = flatten_list(cte_list, "cte_list");
            if self.config.blank_lines_between_clauses {
                // dbt: with, a blank line, then the CTEs.
                let w = self.with_keyword(node);
                let l = concat(&[w.as_str(), "\n"]);
                proof {
                    reveal_with_fuel(crate::strs::concat_views, 3);
                    assert(l@.take(wv.len() as int) =~= wv);
                }
                lines.push(l);
            }
            let mut i: usize = 0;
            while i < ctes.len()
                invariant
                    i <= ctes@.len(),
                    i == 0 && !self.config.blank_lines_between_clauses ==> lines@.len() == 0,
                    i > 0 || self.config.blank_lines_between_clauses ==> lines@.len() >= 1 && has_prefix(lines@[0]@, wv),
                decreases ctes.len() - i,
            {
                let (name, body) = self.cte_parts(ctes[i], b - 1);
                let body_lines = lines_of_str(body.as_str());
                let mut indented: Vec<String> = Vec::new();
                let mut j: usize = 0;
                while j < body_lines.len()
                    decreases body_lines.len() - j,
                {
                    if body_lines[j].as_str().is_empty() {
                        indented.push(String::new());
                    } else {
                        indented.push(concat(&[indent, body_lines[j].as_str()]));
                    }
                    j += 1;
                }
                let indented_body = join(&indented, "\n");
                let as_kw = self.kw("AS");
                let cte_prefix = if self.config.compact_ctes && i > 0 {
                    concat(&["), ", name.as_str(), " ", as_kw.as_str(), " ("])
                } else {
                    let as_line = concat(&[name.as_str(), " ", as_kw.as_str(), " ("]);
                    if i == 0 && !self.config.blank_lines_between_clauses {
                        let with_kw = self.with_keyword(node);
                        let l = concat(&[with_kw.as_str(), " ", as_line.as_str()]);
                        proof {
                            reveal_with_fuel(crate::strs::concat_views, 4);
                            assert(l@.take(wv.len() as int) =~= wv);
                        }
                        l
                    } else {
                        as_line
                    }
                };
                lines.push(cte_prefix);
                if blank_in_ctes || self.config.blank_lines_between_clauses {
                    lines.push(String::new());
                }
                lines.push(indented_body);
                if blank_in_ctes || self.config.blank_lines_between_clauses {
                    lines.push(String::new());
                }
                if !self.config.compact_ctes {
                    lines.push(owned(")"));
                }
                i += 1;
            }
            if self.config.compact_ctes {
                lines.push(owned(")"));
            }
        } else {
            proof { lemma_no_kid(*node, "cte_list"@); }
        }
        let r = join(&lines, "\n");
        proof {
            if lines@.len() >= 1 && has_prefix(lines@[0]@, wv) {
                crate::strs::lemma_lines_lead(lines@, r@, wv);
            }
            if lines@.len() == 0 {
                assert(string_views(lines@) =~= Seq::<Seq<char>>::empty());
            }
        }
        r
    }

    // VALUES lists.

    pub(crate) fn format_values_clause(&self, node: &SyntaxNode, b: usize) -> (r: String)
        ensures
            b == 0 ==> r@ == node_text(self.chars@, *node),
            b > 0 ==> r@.len() == 0 || has_prefix(r@, cased(self.config, "VALUES"@)),
            b > 0 && (self.config.leading_commas || !self.config.river)
                ==> has_prefix(r@, cased(self.config, "VALUES"@)),
            b > 1 && kind_count(named_of(node.children@), "expr_list"@) > 0
                ==> has_prefix(r@, cased(self.config, "VALUES"@)),
        decreases b,
    {
        if b == 0 {
            return self.text(node);
        }
        let value_groups = self.collect_value_groups(node, b - 1);
        let kw = self.kw("VALUES");
        let ghost lead = kw@;
        if self.config.leading_commas {
            if value_groups.len() == 0 {
                proof { lemma_prefix_self(kw@); }
                return kw;
            }
            let mut lines: Vec<String> = Vec::new();
            let parts = [kw.as_str(), " ", value_groups[0].as_str()];
            let first = concat(&parts);
            proof { lemma_concat_starts_with_first(parts@); }
            lines.push(first);
            let padding = spaces_str(kw.as_str().len().saturating_add(1).saturating_sub(2));
            let mut i: usize = 1;
            while i < value_groups.len()
                invariant
                    lines@.len() >= 1,
                    has_prefix(lines@[0]@, lead),
                decreases value_groups.len() - i,
            {
                lines.push(concat(&[padding.as_str(), ", ", value_groups[i].as_str()]));
                i += 1;
            }
            let r = join(&lines, "\n");
            proof { lemma_lines_lead(lines@, r@, lead); }
            r
        } else {
            let mut lines: Vec<String> = Vec::new();
            if self.config.river {
                // VALUES with the groups aligned after it.
                let padding = spaces_str(kw.as_str().len().saturating_add(1));
                let mut i: usize = 0;
                while i < value_groups.len()
                    invariant
                        lines@.len() == i,
                        lines@.len() > 0 ==> has_prefix(lines@[0]@, lead),
                    decreases value_groups.len() - i,
                {
                    let comma = if i + 1 < value_groups.len() { "," } else { "" };
                    if i == 0 {
                        let parts = [kw.as_str(), " ", value_groups[i].as_str(), comma];
                        let first = concat(&parts);
                        proof { lemma_concat_starts_with_first(parts@); }
                        lines.push(first);
                    } else {
                        lines.push(concat(&[padding.as_str(), value_groups[i].as_str(), comma]));
                    }
                    i += 1;
                }
            } else {
                // VALUES on its own line, the groups indented.
                proof { lemma_prefix_self(kw@); }
                lines.push(kw);
                let indent = self.config.indent;
                let mut i: usize = 0;
                while i < value_groups.len()
                    invariant
                        lines@.len() >= 1,
                        has_prefix(lines@[0]@, lead),
                    decreases value_groups.len() - i,
                {
                    let comma = if i + 1 < value_groups.len() { "," } else { "" };
                    lines.push(concat(&[indent, value_groups[i].as_str(), comma]));
                    i += 1;
                }
            }
            let r = join(&lines, "\n");
            proof {
                if lines@.len() > 0 {
                    lemma_lines_lead(lines@, r@, lead);
                }
            }
            r
        }
    }

    /// The parenthesized rows of a (left-nested) VALUES list.
    pub(crate) fn collect_value_groups(&self, node: &SyntaxNode, b: usize) -> (r: Vec<String>)
        ensures
            b == 0 ==> r@.len() == 0,
            b > 0 ==> r@.len() >= kind_count(named_of(node.children@), "expr_list"@),
            forall|k: int| 0 <= k < r@.len() ==> has_prefix(#[trigger] r@[k]@, "("@) && has_suffix(r@[k]@, ")"@),
        decreases b,
    {
        let mut groups: Vec<String> = Vec::new();
        if b == 0 {
            return groups;
        }
        let named = node.named_children();
        let ghost ns = named_of(node.children@);
        proof { assert(ns.take(0) =~= Seq::<SyntaxNode>::empty()); }
        let mut k: usize = 0;
        while k < named.len()
            invariant
                k <= named@.len(),
                named@.map_values(|c: &SyntaxNode| *c) == ns,
                groups@.len() >= kind_count(ns.take(k as int), "expr_list"@),
                forall|x: int| 0 <= x < groups@.len() ==> has_prefix(#[trigger] groups@[x]@, "("@)
                    && has_suffix(groups@[x]@, ")"@),
            decreases named.len() - k,
        {
            proof {
                assert(ns.take(k + 1).drop_last() =~= ns.take(k as int));
                assert(ns.take(k + 1).last() == *named@[k as int]);
                reveal_strlit("values_clause");
                reveal_strlit("expr_list");
                assert("values_clause"@.len() == 13);
                assert("expr_list"@.len() == 9);
            }
            let child = named[k];
            k += 1;
            if child.is("values_clause") {
                let mut inner = self.collect_value_groups(child, b - 1);
                let ghost g0 = groups@;
                let ghost i0 = inner@;
                groups.append(&mut inner);
                proof {
                    assert forall|x: int| 0 <= x < groups@.len() implies has_prefix(#[trigger] groups@[x]@, "("@)
                        && has_suffix(groups@[x]@, ")"@) by {
                        if x >= g0.len() { assert(groups@[x] == i0[x - g0.len()]); }
                    }
                }
            } else if child.is("expr_list") {
                let inner = self.format_list(child, "expr_list", b - 1);
                let g = concat(&["(", inner.as_str(), ")"]);
                proof {
                    reveal_with_fuel(crate::strs::concat_views, 4);
                    assert(g@ =~= "("@ + inner@ + ")"@);
                    lemma_wraps("("@, inner@, ")"@);
                }
                groups.push(g);
            }
        }
        proof { assert(ns.take(named@.len() as int) =~= ns); }
        groups
    }
}

} // verus!
