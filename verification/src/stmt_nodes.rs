//! Statement-level formatting: the dispatch on the statement's kind and the
//! formatters of DML, DDL and function definitions.
#![verifier::loop_isolation(false)]

use vstd::prelude::*;
use crate::chars::{push_char, push_str, to_lower};
use crate::config::{Formatter, cased, node_text};
use crate::expr::{join_with, string_views};
use crate::error::FormatError;
use crate::expr_nodes::{append_last, fits};
use crate::lexical::{collapse_whitespace, layout_is_safe};
use crate::stmt::{is_wrapped_in_parens, parse_dollar_quoted, reindent_body, render_aligned_column};
use crate::strs::{occurs_in, has_suffix, char_count, concat, contains, ends_with, join, lines_of_str, owned, same,
    slice_chars, spaces_str, starts_with, trim, trim_end, trim_start, has_prefix,
    lemma_prefix_append, lemma_join_starts_with_first, lemma_prefix_trans, lemma_lines_lead,
    lemma_concat_leads, lemma_concat_starts_with_first, lemma_join_leads, opens_with,
    lemma_opens_with_prefix, lemma_opens_with_trans, lemma_prefix_self};
use crate::tree::{SyntaxNode, first_named_at, first_of_kind_at, flatten_list, flat_items, node_views, named_of, first_kid,
    first_kid_within, lemma_found_kid, lemma_no_kid};
use crate::select_nodes::kind_count;
use crate::tree::kind_among;
use crate::stmt::trim_of;
use crate::select_nodes::{appended, adds_line_opening, lemma_appended_line};

verus! {

/// Stripping the trailing `;` from a text that holds other characters leaves
/// a text.
pub proof fn lemma_without_trailing_keeps_text(s: Seq<char>)
    requires
        crate::strs::has_text(s),
    ensures
        without_trailing(s, ';').len() > 0,
    decreases s.len(),
{
    if s.len() > 0 && s.last() == ';' {
        let i = choose|i: int| 0 <= i < s.len() && #[trigger] s[i] != ';';
        assert(i < s.len() - 1);
        assert(s.drop_last()[i] != ';');
        lemma_without_trailing_keeps_text(s.drop_last());
    }
}

/// `s` without the copies of `c` at its end.
pub open spec fn without_trailing(s: Seq<char>, c: char) -> Seq<char>
    decreases s.len(),
{
    if s.len() > 0 && s.last() == c {
        without_trailing(s.drop_last(), c)
    } else {
        s
    }
}

/// `s` without the copies of `c` at its end.
pub fn strip_trailing(s: &str, c: char) -> (r: String)
    ensures
        r@ == without_trailing(s@, c),
        r@.len() <= s@.len(),
        r@ == s@.take(r@.len() as int),
        r@.len() < s@.len() ==> s@[r@.len() as int] == c,
        r@.len() > 0 ==> r@.last() != c,
{
    let chars = crate::chars::chars_of(s);
    let mut n = chars.len();
    proof {
        assert(s@.take(n as int) =~= s@);
    }
    while n > 0 && chars[n - 1] == c
        invariant
            n <= chars@.len(),
            chars@ == s@,
            forall|k: int| n <= k < chars@.len() ==> chars@[k] == c,
            without_trailing(s@.take(n as int), c) == without_trailing(s@, c),
        decreases n,
    {
        proof {
            assert(s@.take(n as int).drop_last() =~= s@.take(n - 1));
        }
        n -= 1;
    }
    slice_chars(s, 0, n)
}

/// `s` without the copies of `p` at its start.
pub open spec fn without_leading(s: Seq<char>, p: Seq<char>) -> Seq<char>
    decreases s.len(),
{
    if p.len() > 0 && has_prefix(s, p) {
        without_leading(s.skip(p.len() as int), p)
    } else {
        s
    }
}

/// `s` without the copies of `p` at its start.
pub(crate) fn strip_leading_repeats(s: &str, p: &str) -> (r: String)
    ensures
        r@ == without_leading(s@, p@),
    decreases s@.len(),
{
    if p.is_empty() || !starts_with(s, p) {
        return owned(s);
    }
    let n = char_count(s);
    let m = char_count(p);
    if m > n || m == 0 {
        return owned(s);
    }
    let rest = slice_chars(s, m, n);
    assert(rest@ =~= s@.skip(p@.len() as int));
    strip_leading_repeats(rest.as_str(), p)
}

/// Whitespace collapsed, string constants, quoted identifiers, comments and
/// the newlines that carry meaning kept.
pub fn normalize(s: &str) -> (r: String)
    ensures
        s@.len() < usize::MAX ==> r@ == crate::lexical::collapsed(s@),
{
    if char_count(s) < usize::MAX {
        collapse_whitespace(s)
    } else {
        owned(s)
    }
}

/// Where the `n`-th space of `s` stands, looking from `k` with `seen` spaces
/// before it.
pub open spec fn nth_space_from(s: Seq<char>, n: nat, k: int, seen: nat) -> Option<int>
    decreases s.len() - k,
{
    if k < 0 || k >= s.len() {
        None
    } else if s[k] == ' ' && seen + 1 == n {
        Some(k)
    } else {
        nth_space_from(s, n, k + 1, if s[k] == ' ' { seen + 1 } else { seen })
    }
}

/// The first `n` space-separated pieces of `s`, joined by spaces again.
fn first_pieces(s: &str, n: usize) -> (r: String)
    ensures
        r@ == match nth_space_from(s@, n as nat, 0, 0) {
            Some(k) => s@.subrange(0, k),
            None => s@,
        },
{
    let chars = crate::chars::chars_of(s);
    let mut seen: usize = 0;
    let mut k: usize = 0;
    while k < chars.len()
        invariant
            seen <= k,
            k <= chars@.len(),
            chars@ == s@,
            nth_space_from(s@, n as nat, k as int, seen as nat) == nth_space_from(s@, n as nat, 0, 0),
        decreases chars.len() - k,
    {
        if chars[k] == ' ' {
            seen += 1;
            if seen == n {
                return slice_chars(s, 0, k);
            }
        }
        k += 1;
    }
    owned(s)
}

/// Whether the last line of `s` holds `--`.
pub fn last_line_has_comment(s: &str) -> (r: bool)
    ensures
        r == (crate::text::lines_of(s@).len() > 0 && crate::strs::occurs_in(crate::text::lines_of(s@).last(), "--"@)),
{
    let ls = lines_of_str(s);
    proof { reveal_strlit("--"); }
    if ls.len() == 0 {
        assert(crate::expr::string_views(ls@).len() == 0);
        return false;
    }
    assert(crate::expr::string_views(ls@).last() == ls@[ls@.len() - 1]@);
    contains(ls[ls.len() - 1].as_str(), "--")
}

/// An element of a table's element list, classified for the river layout.
pub enum TableElementKind {
    /// A PRIMARY KEY constraint (listed first).
    PrimaryKey(String),
    /// A column definition: name, type name, constraints.
    Column(String, String, String),
    /// A table constraint: its optional name, its body.
    Constraint(Option<String>, String),
}

/// A table element with the comments that trail it.
pub struct Grouped<'n> {
    pub node: &'n SyntaxNode,
    pub comments: Vec<String>,
}

/// The `;` that ends a statement's text `t`: on a line of its own where the
/// last line of `t` holds a `--` comment, which it would otherwise join.
pub open spec fn terminator_for(t: Seq<char>) -> Seq<char> {
    if crate::text::lines_of(t).len() > 0 && crate::strs::occurs_in(crate::text::lines_of(t).last(), "--"@) {
        "\n;"@
    } else {
        ";"@
    }
}

/// The nodes of `g`, in order.
pub open spec fn grouped_nodes(g: Seq<Grouped>) -> Seq<SyntaxNode> {
    g.map_values(|x: Grouped| *x.node)
}

/// The nodes of `s` that are not comments, in order.
pub open spec fn non_comments(s: Seq<SyntaxNode>) -> Seq<SyntaxNode>
    decreases s.len(),
{
    if s.len() == 0 {
        s
    } else if s.last().kind@ == "comment"@ {
        non_comments(s.drop_last())
    } else {
        non_comments(s.drop_last()).push(s.last())
    }
}

/// How many comments of `s` come before its first node that is not one.
pub open spec fn leading_comment_count(s: Seq<SyntaxNode>) -> nat
    decreases s.len(),
{
    if s.len() == 0 {
        0
    } else if s.last().kind@ == "comment"@ && non_comments(s.drop_last()).len() == 0 {
        leading_comment_count(s.drop_last()) + 1
    } else {
        leading_comment_count(s.drop_last())
    }
}

/// Where the second node of kind `kind` in `s` stands, looking from `k` with
/// `seen` such nodes before it.
pub open spec fn second_of_kind_from(s: Seq<SyntaxNode>, kind: Seq<char>, k: int, seen: nat) -> Option<int>
    decreases s.len() - k,
{
    if k < 0 || k >= s.len() {
        None
    } else if s[k].kind@ == kind && seen == 1 {
        Some(k)
    } else {
        second_of_kind_from(s, kind, k + 1, if s[k].kind@ == kind { seen + 1 } else { seen })
    }
}

/// Whether a DML statement node opens with a WITH clause.
pub open spec fn has_with_clause(n: SyntaxNode) -> bool {
    exists|i: int| #[trigger] first_of_kind_at(n, i, "opt_with_clause"@)
        && exists|j: int| 0 <= j < n.children@[i].children@.len()
            && #[trigger] n.children@[i].children@[j].named && n.children@[i].children@[j].kind@ == "with_clause"@
}

/// The statement kinds that have a layout of their own.
pub open spec fn supported_statement(kind: Seq<char>) -> bool {
    ||| kind == "SelectStmt"@
    ||| kind == "InsertStmt"@
    ||| kind == "UpdateStmt"@
    ||| kind == "DeleteStmt"@
    ||| kind == "MergeStmt"@
    ||| kind == "CreateStmt"@
    ||| kind == "ViewStmt"@
    ||| kind == "CreateFunctionStmt"@
    ||| kind == "CreateDomainStmt"@
    ||| kind == "CreateForeignTableStmt"@
    ||| kind == "CreateTableAsStmt"@
    ||| kind == "CreateMatViewStmt"@
}

/// A statement without a layout of its own: its text with whitespace
/// normalized, without trailing `;`, then the terminator.
pub open spec fn passed_through(text: Seq<char>) -> Seq<char> {
    let t = without_trailing(crate::lexical::collapsed(text), ';');
    t + terminator_for(t)
}

/// Whether `s` is a statement text without trailing `;` followed by exactly
/// the terminator it needs.
pub open spec fn statement_terminated(s: Seq<char>) -> bool {
    exists|t: Seq<char>| (t.len() == 0 || t.last() != ';') && s == t + terminator_for(t)
}

/// Whether the clause node `c` (WHERE and its like) holds a condition.
pub open spec fn has_condition(c: Option<SyntaxNode>) -> bool {
    c matches Some(w) && exists|i: int| 0 <= i < w.children@.len() && #[trigger] w.children@[i].named
        && kind_among(w.children@[i].kind@, seq!["a_expr", "c_expr"])
}

/// The element list of a CREATE TABLE node: its plain one, else its typed one.
pub open spec fn table_element_list(node: SyntaxNode) -> Option<SyntaxNode> {
    match first_kid_within(node, "OptTableElementList"@, "TableElementList"@) {
        Some(l) => Some(l),
        None => first_kid_within(node, "OptTypedTableElementList"@, "TypedTableElementList"@),
    }
}

/// How many elements (columns and constraints, not comments) the element
/// list of a CREATE TABLE node holds.
pub open spec fn table_element_count(node: SyntaxNode) -> nat {
    match table_element_list(node) {
        Some(l) => non_comments(flat_items(l, l.kind@)).len(),
        None => 0,
    }
}

/// How the first line of an INSERT with a column list opens: INSERT INTO,
/// the target `tg`, then the column list's `(`.
pub open spec fn insert_columns_lead(config: crate::config::StyleConfig, tg: Seq<char>) -> Seq<char> {
    cased(config, "INSERT"@) + seq![' '] + cased(config, "INTO"@) + seq![' '] + tg + seq![' ', '(']
}

/// Whether an UPDATE node has SET items.
pub open spec fn update_has_set(node: SyntaxNode) -> bool {
    first_kid(node, "set_clause_list"@) matches Some(l) && flat_items(l, "set_clause_list"@).len() > 0
}

/// A river line of the SET keyword opens with it.
pub proof fn lemma_set_line(l: Seq<char>, k: Seq<char>)
    requires
        opens_with(l, k + seq![' ']),
    ensures
        opens_with(l, k),
{
    assert((k + seq![' ']).take(k.len() as int) =~= k);
    crate::strs::lemma_opens_with_shorter(l, k + seq![' '], k);
}

/// Whether an INSERT node lists its target's columns.
pub open spec fn insert_has_columns(node: SyntaxNode) -> bool {
    first_kid_within(node, "insert_rest"@, "insert_column_list"@) is Some
}

/// Whether an INSERT node takes its rows from VALUES or a SELECT.
pub open spec fn insert_has_query(node: SyntaxNode) -> bool {
    first_kid_within(node, "insert_rest"@, "SelectStmt"@) is Some
}

/// Whether `t` is the targets of the list `tl` formatted with budget `b`:
/// one piece for each target, in order, joined by `, `, each piece the
/// target's source text where the budget is spent.
pub open spec fn targets_joined(chars: Seq<char>, tl: SyntaxNode, b: nat, t: Seq<char>) -> bool {
    exists|ps: Seq<Seq<char>>| #![trigger join_with(ps, ", "@)] ps.len() == flat_items(tl, "target_list"@).len()
        && t == join_with(ps, ", "@)
        && (b == 0 ==> forall|i: int| 0 <= i < ps.len()
            ==> #[trigger] ps[i] == node_text(chars, flat_items(tl, "target_list"@)[i]))
}

/// Whether an INSERT node has a RETURNING clause with at least one target.
pub open spec fn insert_returns(node: SyntaxNode) -> bool {
    match first_kid_within(node, "returning_clause"@, "target_list"@) {
        Some(tl) => flat_items(tl, "target_list"@).len() > 0,
        None => false,
    }
}

/// Whether a CREATE TABLE node has an element list (plain or typed).
pub open spec fn has_element_list(node: SyntaxNode) -> bool {
    first_kid_within(node, "OptTableElementList"@, "TableElementList"@) is Some
        || first_kid_within(node, "OptTypedTableElementList"@, "TypedTableElementList"@) is Some
}

impl<'a> Formatter<'a> {
    /// Format a `stmt` node, dispatching on the statement's kind, and end it
    /// with `;` (on a line of its own after a line comment).
    pub(crate) fn format_stmt(&self, node: &SyntaxNode, b: usize) -> (r: Result<String, FormatError>)
        ensures
            r is Ok,
            b > 0 && node.children@.len() > 0 && (exists|i: int| 0 <= i < node.children@.len()
                && #[trigger] node.children@[i].named) ==> (r matches Ok(s) && statement_terminated(s@)),
            forall|i: int| #![trigger node.children@[i]]
                b > 0 && first_named_at(*node, i) && !supported_statement(node.children@[i].kind@)
                && node_text(self.chars@, node.children@[i]).len() < usize::MAX
                ==> (r matches Ok(s) && s@ == passed_through(node_text(self.chars@, node.children@[i]))),
            forall|i: int| #![trigger node.children@[i]]
                b > 4 && first_named_at(*node, i) && node.children@[i].kind@ == "SelectStmt"@
                && !crate::select_nodes::values_within(crate::select_nodes::select_body(node.children@[i]))
                ==> (r matches Ok(s) && s@.len() > 1),
        decreases b,
    {
        if b == 0 {
            return Ok(self.text(node));
        }
        let d = b - 1;
        match node.first_named_child() {
            Some(child) => {
                let result = if child.is("SelectStmt") {
                    self.format_select_stmt(child, d)
                } else if child.is("InsertStmt") {
                    self.format_insert_stmt(child, d)
                } else if child.is("UpdateStmt") {
                    self.format_update_stmt(child, d)
                } else if child.is("DeleteStmt") {
                    self.format_delete_stmt(child, d)
                } else if child.is("MergeStmt") {
                    self.format_merge_stmt(child, d)
                } else if child.is("CreateStmt") {
                    self.format_create_table_stmt(child, d)
                } else if child.is("ViewStmt") {
                    self.format_view_stmt(child, d)
                } else if child.is("CreateFunctionStmt") {
                    self.format_create_function_stmt(child, d)
                } else if child.is("CreateDomainStmt") {
                    self.format_create_domain_stmt(child, d)
                } else if child.is("CreateForeignTableStmt") {
                    self.format_create_foreign_table_stmt(child, d)
                } else if child.is("CreateTableAsStmt") || child.is("CreateMatViewStmt") {
                    self.format_create_table_as_stmt(child, d)
                } else {
                    let text = self.text(child);
                    normalize(text.as_str())
                };
                let ghost is_select = child.kind@ == "SelectStmt"@ && b > 4
                    && !crate::select_nodes::values_within(crate::select_nodes::select_body(*child));
                proof {
                    if is_select {
                        lemma_without_trailing_keeps_text(result@);
                    }
                }
                let trimmed = strip_trailing(result.as_str(), ';');
                proof {
                    reveal_with_fuel(crate::strs::concat_views, 3);
                    reveal_strlit(";");
                    reveal_strlit("\n;");
                }
                // After a line comment on the last line, the `;` goes on a
                // line of its own.
                let out = if last_line_has_comment(trimmed.as_str()) {
                    concat(&[trimmed.as_str(), "\n;"])
                } else {
                    concat(&[trimmed.as_str(), ";"])
                };
                assert(out@ == trimmed@ + terminator_for(trimmed@));
                proof {
                    assert forall|i: int| #![trigger node.children@[i]]
                        first_named_at(*node, i) && !supported_statement(node.children@[i].kind@)
                        && node_text(self.chars@, node.children@[i]).len() < usize::MAX
                        implies out@ == passed_through(node_text(self.chars@, node.children@[i])) by {
                        let i0 = choose|j: int| first_named_at(*node, j) && *child == #[trigger] node.children@[j];
                        if i < i0 {
                            assert(!node.children@[i].named);
                        }
                        if i0 < i {
                            assert(!node.children@[i0].named);
                        }
                        assert(i == i0);
                    }
                    assert forall|i: int| #![trigger node.children@[i]]
                        b > 4 && first_named_at(*node, i) && node.children@[i].kind@ == "SelectStmt"@
                        && !crate::select_nodes::values_within(crate::select_nodes::select_body(node.children@[i]))
                        implies out@.len() > 1 by {
                        let i0 = choose|j: int| first_named_at(*node, j) && *child == #[trigger] node.children@[j];
                        if i < i0 {
                            assert(!node.children@[i].named);
                        }
                        if i0 < i {
                            assert(!node.children@[i0].named);
                        }
                        assert(i == i0);
                        assert(is_select);
                    }
                }
                Ok(out)
            },
            None => {
                proof {
                    assert forall|i: int| 0 <= i < node.children@.len() implies !(#[trigger] node.children@[i].named) by {
                    }
                }
                Ok(String::new())
            },
        }
    }

    /// The items of a list node formatted as expressions, in parentheses.
    pub(crate) fn paren_list(&self, node: &SyntaxNode, list_kind: &str, b: usize) -> (r: String)
        ensures
            b == 0 ==> r@ == node_text(self.chars@, *node),
            b > 0 ==> has_prefix(r@, seq!['(']) && has_suffix(r@, seq![')']),
        decreases b,
    {
        if b == 0 {
            return self.text(node);
        }
        let inner = self.format_list(node, list_kind, b - 1);
        let r = concat(&["(", inner.as_str(), ")"]);
        proof {
            reveal_with_fuel(crate::strs::concat_views, 4);
            reveal_strlit("("); reveal_strlit(")");
            assert(r@ == seq!['('] + inner@ + seq![')']);
            crate::strs::lemma_wraps(seq!['('], inner@, seq![')']);
        }
        r
    }

    /// `OVERRIDING {SYSTEM|USER} VALUE`.
    pub(crate) fn overriding_clause(&self, node: &SyntaxNode) -> (r: String)
        ensures
            exists|kind: Seq<char>| (kind == cased(self.config, "SYSTEM"@) || kind == cased(self.config, "USER"@)
                || kind.len() == 0) && r@ == cased(self.config, "OVERRIDING"@) + seq![' '] + kind + seq![' ']
                + cased(self.config, "VALUE"@),
    {
        let kind = match node.find_child("override_kind") {
            Some(ok) => if ok.has_child("kw_system") { self.kw("SYSTEM") } else { self.kw("USER") },
            None => String::new(),
        };
        let o = self.kw("OVERRIDING");
        let v = self.kw("VALUE");
        let r = concat(&[o.as_str(), " ", kind.as_str(), " ", v.as_str()]);
        proof {
            reveal_with_fuel(crate::strs::concat_views, 6);
            reveal_strlit(" ");
            assert(r@ == o@ + seq![' '] + kind@ + seq![' '] + v@);
        }
        r
    }

    // INSERT.

    /// The statement as lines: INSERT INTO, the target and the column list
    /// (and OVERRIDING or DEFAULT VALUES) on one line, then the VALUES or
    /// SELECT source, ON CONFLICT and RETURNING.
    #[verifier::rlimit(100)]
    #[verifier::spinoff_prover]
    pub(crate) fn format_insert_stmt(&self, node: &SyntaxNode, b: usize) -> (r: String)
        ensures
            b > 0 && !has_with_clause(*node) ==> has_prefix(r@, cased(self.config, "INSERT"@) + seq![' ']
                + cased(self.config, "INTO"@) + seq![' ']),
            b > 1 ==> exists|ls: Seq<Seq<char>>, h: int| #![trigger join_with(ls, "\n"@), ls[h]] join_with(ls, "\n"@) == r@
                && 0 <= h < ls.len()
                && has_prefix(ls[h], cased(self.config, "INSERT"@) + seq![' '] + cased(self.config, "INTO"@) + seq![' '])
                && (insert_has_columns(*node) ==> exists|tg: Seq<char>|
                    has_prefix(ls[h], #[trigger] insert_columns_lead(self.config, tg)))
                && (insert_has_query(*node) ==> h + 1 < ls.len())
                && (insert_returns(*node) ==> h + 1 < ls.len()
                    && opens_with(ls.last(), cased(self.config, "RETURNING"@) + seq![' '])
                    && (!self.config.river ==> has_prefix(ls.last(), cased(self.config, "RETURNING"@) + seq![' ']))
                    && (!self.config.river ==> exists|t: Seq<char>|
                        ls.last() == cased(self.config, "RETURNING"@) + seq![' '] + t
                        && (first_kid_within(*node, "returning_clause"@, "target_list"@) matches Some(tl)
                            && targets_joined(self.chars@, tl, (b - 2) as nat, t)))),
        decreases b,
    {
        if b == 0 {
            return self.text(node);
        }
        let d = b - 1;
        let mut parts: Vec<String> = Vec::new();
        // River aligns the CTE to the INSERT INTO keyword pair; it is put in
        // front of the parts at the end.
        let insert_into = self.kw_pair("INSERT", "INTO");
        let with_clause = self.dml_with_clause(node, insert_into.as_str().len(), d);
        let target = match node.find_child("insert_target") {
            Some(n) => self.format_insert_target(n, d),
            None => String::new(),
        };
        let head_parts = [insert_into.as_str(), " ", target.as_str()];
        let mut head = concat(&head_parts);
        let ghost lead = insert_into@ + seq![' '];
        proof {
            reveal_strlit(" ");
            assert(head_parts@[1]@ == seq![' ']);
            lemma_concat_leads(head_parts@, insert_into@);
        }
        let mut tail: Vec<String> = Vec::new();
        let ghost mut col_lead: Seq<char> = lead;
        let ghost head0 = head@;
        proof { assert(has_prefix(head@, col_lead)) by { assert(head@.take(lead.len() as int) =~= lead); } }
        if let Some(rest) = node.find_child("insert_rest") {
            proof { lemma_found_kid(*node, "insert_rest"@, *rest); }
            if let Some(col_list) = rest.find_child("insert_column_list") {
                proof { lemma_found_kid(*rest, "insert_column_list"@, *col_list); }
                let cols = self.paren_list(col_list, "insert_column_list", d);
                let ext = [head.as_str(), " ", cols.as_str()];
                let longer = concat(&ext);
                proof {
                    lemma_concat_starts_with_first(ext@);
                    lemma_prefix_trans(longer@, head@, lead);
                    if d > 0 {
                        reveal_with_fuel(crate::strs::concat_views, 4);
                        assert(longer@ == head@ + seq![' '] + cols@);
                        assert(cols@[0] == '(') by { assert(cols@.take(1)[0] == cols@[0]); }
                        col_lead = head@ + seq![' ', '('];
                        assert(longer@.take(col_lead.len() as int) =~= col_lead);
                        assert(head0 == lead + target@);
                        assert(col_lead =~= lead + target@ + seq![' ', '(']);
                    }
                }
                head = longer;
            } else {
                proof { lemma_no_kid(*rest, "insert_column_list"@); }
            }
            // OVERRIDING {SYSTEM|USER} VALUE, before VALUES or SELECT.
            if rest.has_child("kw_overriding") {
                let o = self.overriding_clause(rest);
                let ext = [head.as_str(), " ", o.as_str()];
                let longer = concat(&ext);
                proof {
                    lemma_concat_starts_with_first(ext@);
                    lemma_prefix_trans(longer@, head@, lead);
                    lemma_prefix_trans(longer@, head@, col_lead);
                }
                head = longer;
            }
            let ghost tail0 = tail@.len();
            if let Some(select) = rest.find_child("SelectStmt") {
                proof { lemma_found_kid(*rest, "SelectStmt"@, *select); }
                let formatted = self.format_select_stmt(select, d);
                let select_text = strip_trailing(formatted.as_str(), ';');
                let values_kw = self.kw("VALUES");
                let lead = trim_start(select_text.as_str());
                let is_values = starts_with(lead.as_str(), values_kw.as_str());
                if is_values && self.config.river {
                    // VALUES right-aligned with INSERT INTO.
                    let insert_kw = first_pieces(head.as_str(), 2);
                    let insert_kw_len = insert_kw.as_str().len();
                    let vlen = values_kw.as_str().len();
                    let river_width = if insert_kw_len > vlen { insert_kw_len } else { vlen };
                    // Strip the VALUES keyword and the lines' indentation.
                    let raw_content = strip_leading_repeats(select_text.as_str(), values_kw.as_str());
                    let raw_lines = lines_of_str(raw_content.as_str());
                    let mut trimmed_lines: Vec<String> = Vec::new();
                    let mut k: usize = 0;
                    while k < raw_lines.len()
                        decreases raw_lines.len() - k,
                    {
                        trimmed_lines.push(trim(raw_lines[k].as_str()));
                        k += 1;
                    }
                    let content = join(&trimmed_lines, "\n");
                    if self.config.leading_commas && trimmed_lines.len() > 1 {
                        // The `, ` takes two columns of the padding.
                        let kw_padding = spaces_str(river_width.saturating_sub(vlen));
                        let first_line_content = trim(trimmed_lines[0].as_str());
                        tail.push(concat(&[kw_padding.as_str(), values_kw.as_str(), " ", first_line_content.as_str()]));
                        let content_col = river_width.saturating_add(1);
                        let mut k: usize = 1;
                        while k < trimmed_lines.len()
                            invariant
                                tail@.len() > tail0,
                            decreases trimmed_lines.len() - k,
                        {
                            let t = trim(trimmed_lines[k].as_str());
                            if starts_with(t.as_str(), ",") {
                                let padding = spaces_str(content_col.saturating_sub(2));
                                tail.push(concat(&[padding.as_str(), t.as_str()]));
                            } else if !t.as_str().is_empty() {
                                let padding = spaces_str(content_col);
                                tail.push(concat(&[padding.as_str(), t.as_str()]));
                            }
                            k += 1;
                        }
                    } else {
                        let c = trim(content.as_str());
                        tail.push(self.rline(values_kw.as_str(), c.as_str(), river_width));
                    }
                } else {
                    // A real SELECT, or VALUES in a left-aligned style.
                    tail.push(select_text);
                }
            } else if rest.has_child("kw_default") {
                let dv = self.kw_pair("DEFAULT", "VALUES");
                let ext = [head.as_str(), " ", dv.as_str()];
                let longer = concat(&ext);
                proof {
                    lemma_concat_starts_with_first(ext@);
                    lemma_prefix_trans(longer@, head@, lead);
                    lemma_prefix_trans(longer@, head@, col_lead);
                }
                head = longer;
            }
        } else {
            proof { lemma_no_kid(*node, "insert_rest"@); }
        }
        let ghost tail_n = tail@.len();
        proof {
            if insert_has_query(*node) {
                assert(tail_n > 0);
            }
        }
        parts.append(&mut tail);
        if let Some(on_conflict) = node.find_child("opt_on_conflict") {
            parts.push(self.format_on_conflict(on_conflict, d));
        }
        let ghost mut returned = false;
        let ghost mut ret_text: Seq<char> = Seq::empty();
        if let Some(ret) = node.find_child("returning_clause") {
            if let Some(text) = self.returning_text(ret, d) {
                let r = self.kw("RETURNING");
                if self.config.river {
                    lines_push_river(self, &mut parts, r.as_str(), text.as_str(), insert_into.as_str().len());
                } else {
                    parts.push(concat(&[r.as_str(), " ", text.as_str()]));
                }
                proof {
                    returned = true;
                    ret_text = text@;
                    if !self.config.river {
                        reveal_with_fuel(crate::strs::concat_views, 4);
                        reveal_strlit(" ");
                        assert(parts@.last()@.take(r@.len() + 1 as int) =~= r@ + seq![' ']);
                        crate::strs::lemma_opens_with_prefix(parts@.last()@, r@ + seq![' ']);
                    }
                }
            }
            proof {
                lemma_found_kid(*node, "returning_clause"@, *ret);
                if d > 0 && insert_returns(*node) {
                    let j = choose|i: int| first_of_kind_at(*ret, i, "target_list"@);
                    assert(first_of_kind_at(*ret, j, "target_list"@)
                        && flat_items(ret.children@[j], "target_list"@).len() > 0);
                }
            }
        } else {
            proof { lemma_no_kid(*node, "returning_clause"@); }
        }
        let ghost ret_line = parts@.last()@;
        let ghost after = parts@.len();
        let ghost hv = head@;
        parts.insert(0, head);
        let ghost h: int = if with_clause is Some { 1 } else { 0 };
        if let Some(with) = with_clause {
            parts.insert(0, with);
        }
        let r = join(&parts, "\n");
        proof {
            let ls = string_views(parts@);
            assert(ls[h] == hv);
            assert(join_with(ls, "\n"@) == r@);
            if insert_has_columns(*node) && d > 0 {
                assert(has_prefix(ls[h], col_lead));
                assert(col_lead == insert_columns_lead(self.config, target@));
            }
            if d > 0 && insert_returns(*node) {
                assert(returned);
                assert(ls.last() == ret_line);
                if !self.config.river {
                    assert(ls.last() == cased(self.config, "RETURNING"@) + seq![' '] + ret_text);
                }
            }
        }
        proof {
            if with_clause is None {
                lemma_lines_lead(parts@, r@, lead);
            }
        }
        r
    }

    /// Format an `opt_on_conflict` node as one line.
    pub(crate) fn format_on_conflict(&self, node: &SyntaxNode, b: usize) -> (r: String)
        ensures
            b == 0 ==> r@ == node_text(self.chars@, *node),
            b > 0 ==> exists|ps: Seq<Seq<char>>| ps.len() >= 4 && ps[0] == cased(self.config, "ON"@)
                && ps[1] == cased(self.config, "CONFLICT"@) && r@ == join_with(nonempty_texts(ps), " "@),
        decreases b,
    {
        if b == 0 {
            return self.text(node);
        }
        let d = b - 1;
        let mut parts: Vec<String> = Vec::new();
        parts.push(self.kw("ON"));
        parts.push(self.kw("CONFLICT"));
        let ghost p2 = parts@;
        // The conflict target: (col, ...) or ON CONSTRAINT name.
        if let Some(conf) = node.find_child("opt_conf_expr") {
            if let Some(idx) = conf.find_child("index_params") {
                parts.push(self.paren_list(idx, "index_params", d));
            } else if let Some(name) = conf.find_child("name") {
                let oc = self.kw_pair("ON", "CONSTRAINT");
                let n = self.format_expr(name, d);
                parts.push(concat(&[oc.as_str(), " ", n.as_str()]));
            }
        }
        // DO NOTHING | DO UPDATE SET ... | DO SELECT [FOR ...].
        parts.push(self.kw("DO"));
        if node.has_child("kw_nothing") {
            parts.push(self.kw("NOTHING"));
        } else if node.has_child("kw_select") {
            parts.push(self.kw("SELECT"));
            if let Some(lock) = node.find_child("opt_for_locking_strength") {
                parts.push(self.render_clause_inline(lock, d));
            }
        } else {
            parts.push(self.kw("UPDATE"));
            parts.push(self.kw("SET"));
            if let Some(set_list) = node.find_child("set_clause_list") {
                parts.push(self.set_clauses(set_list, d));
            }
        }
        if let Some(where_c) = node.find_child("where_clause") {
            if let Some(expr) = where_c.find_child_any(&["a_expr", "c_expr"]) {
                let w = self.kw("WHERE");
                let e = self.format_expr(expr, d);
                parts.push(concat(&[w.as_str(), " ", e.as_str()]));
            }
        }
        let r = join_nonempty(&parts, " ");
        proof {
            assert(string_views(parts@).len() == parts@.len());
            assert(parts@[0] == p2[0] && parts@[1] == p2[1]);
            assert(string_views(parts@)[0] == parts@[0]@);
            assert(string_views(parts@)[1] == parts@[1]@);
        }
        r
    }

    /// The SET clauses of a list, formatted and joined with commas.
    pub(crate) fn set_clauses(&self, set_list: &SyntaxNode, b: usize) -> (r: String)
        ensures
            b == 0 ==> r@ == node_text(self.chars@, *set_list),
            b > 0 ==> exists|parts: Seq<Seq<char>>| parts.len() == flat_items(*set_list, "set_clause_list"@).len()
                && r@ == join_with(parts, ", "@),
        decreases b,
    {
        if b == 0 {
            return self.text(set_list);
        }
        let formatted = self.set_clause_items(set_list, b - 1);
        let r = join(&formatted, ", ");
        proof { assert(string_views(formatted@).len() == formatted@.len()); }
        r
    }

    /// The SET clauses of a list, each formatted.
    pub(crate) fn set_clause_items(&self, set_list: &SyntaxNode, b: usize) -> (r: Vec<String>)
        ensures
            r@.len() == flat_items(*set_list, "set_clause_list"@).len(),
            b == 0 ==> forall|k: int| 0 <= k < r@.len() ==> (#[trigger] r@[k])@
                == node_text(self.chars@, flat_items(*set_list, "set_clause_list"@)[k]),
        decreases b,
    {
        let clauses = flatten_list(set_list, "set_clause_list");
        let mut formatted: Vec<String> = Vec::new();
        let mut k: usize = 0;
        while k < clauses.len()
            invariant
                k <= clauses@.len(),
                formatted@.len() == k,
                node_views(clauses@) == flat_items(*set_list, "set_clause_list"@),
                b == 0 ==> forall|x: int| 0 <= x < k ==> (#[trigger] formatted@[x])@
                    == node_text(self.chars@, flat_items(*set_list, "set_clause_list"@)[x]),
            decreases clauses.len() - k,
        {
            assert(node_views(clauses@)[k as int] == *clauses@[k as int]);
            let s = if b == 0 { self.text(clauses[k]) } else { self.format_set_clause(clauses[k], b - 1) };
            formatted.push(s);
            k += 1;
        }
        formatted
    }

    /// The targets of a `returning_clause`, inline and comma-separated, or
    /// nothing where it has none.
    pub(crate) fn returning_text(&self, node: &SyntaxNode, b: usize) -> (r: Option<String>)
        ensures
            r is Some <==> b > 0 && exists|i: int| #[trigger] first_of_kind_at(*node, i, "target_list"@)
                && flat_items(node.children@[i], "target_list"@).len() > 0,
            r matches Some(t) ==> (first_kid(*node, "target_list"@) matches Some(tl)
                && targets_joined(self.chars@, tl, (b - 1) as nat, t@)),
        decreases b,
    {
        if b == 0 {
            return None;
        }
        let target_list = match node.find_child("target_list") {
            Some(t) => t,
            None => {
                proof {
                    assert forall|i: int| !first_of_kind_at(*node, i, "target_list"@) by {
                        if 0 <= i < node.children@.len() {
                            assert(!(node.children@[i].named && node.children@[i].kind@ == "target_list"@));
                        }
                    }
                }
                return None;
            },
        };
        let ghost i0 = choose|i: int| first_of_kind_at(*node, i, "target_list"@) && *target_list == #[trigger] node.children@[i];
        proof {
            assert forall|i: int| #[trigger] first_of_kind_at(*node, i, "target_list"@) implies i == i0 by {
                if i < i0 { assert(!(node.children@[i].named && node.children@[i].kind@ == "target_list"@)); }
                if i0 < i { assert(!(node.children@[i0].named && node.children@[i0].kind@ == "target_list"@)); }
            }
        }
        proof { lemma_found_kid(*node, "target_list"@, *target_list); }
        let targets = flatten_list(target_list, "target_list");
        if targets.len() == 0 {
            assert(node_views(targets@).len() == 0);
            return None;
        }
        assert(node_views(targets@).len() > 0);
        let ghost flat = flat_items(*target_list, "target_list"@);
        let mut formatted: Vec<String> = Vec::new();
        let mut k: usize = 0;
        while k < targets.len()
            invariant
                k <= targets@.len(),
                node_views(targets@) == flat,
                formatted@.len() == k,
                b > 1 || forall|i: int| 0 <= i < k ==> #[trigger] formatted@[i]@ == node_text(self.chars@, flat[i]),
            decreases targets.len() - k,
        {
            proof { assert(flat[k as int] == *targets@[k as int]); }
            let f = self.format_target_el(targets[k], b - 1);
            proof {
                if b == 1 {
                    assert(f@ == node_text(self.chars@, flat[k as int]));
                }
            }
            formatted.push(f);
            k += 1;
        }
        let t = join(&formatted, ", ");
        proof {
            let ps = string_views(formatted@);
            assert(ps.len() == flat.len());
            if b == 1 {
                assert forall|i: int| 0 <= i < ps.len() implies #[trigger] ps[i] == node_text(self.chars@, flat[i]) by {
                    assert(ps[i] == formatted@[i]@);
                }
            }
        }
        Some(t)
    }

    /// The widest of `keywords`, in bytes.
    pub(crate) fn widest(keywords: &Vec<String>) -> (r: usize) {
        let mut w: usize = 0;
        let mut k: usize = 0;
        while k < keywords.len()
            decreases keywords.len() - k,
        {
            let n = keywords[k].as_str().len();
            if n > w {
                w = n;
            }
            k += 1;
        }
        w
    }

    // UPDATE.

    /// The statement as lines: UPDATE and the table, SET and its items, then
    /// FROM, WHERE and RETURNING, each clause opening a line of its own.
    #[verifier::rlimit(100)]
    #[verifier::spinoff_prover]
    pub(crate) fn format_update_stmt(&self, node: &SyntaxNode, b: usize) -> (r: String)
        ensures
            b > 0 && !has_with_clause(*node) ==> opens_with(r@, cased(self.config, "UPDATE"@) + seq![' ']),
            b > 2 && has_condition(first_kid(*node, "where_or_current_clause"@)) ==> exists|ls: Seq<Seq<char>>|
                #[trigger] join_with(ls, "\n"@) == r@
                && exists|i: int| 0 <= i < ls.len() && opens_with(#[trigger] ls[i], cased(self.config, "WHERE"@)),
            b > 0 && update_has_set(*node) ==> exists|ls: Seq<Seq<char>>|
                #[trigger] join_with(ls, "\n"@) == r@
                && exists|i: int| 0 <= i < ls.len() && opens_with(#[trigger] ls[i], cased(self.config, "SET"@)),
        decreases b,
    {
        if b == 0 {
            return self.text(node);
        }
        let d = b - 1;
        let table = match node.find_child("relation_expr_opt_alias") {
            Some(n) => self.format_relation_expr_opt_alias(n, d),
            None => String::new(),
        };
        let mut lines: Vec<String> = Vec::new();
        let ghost mut where_at: int = -1;
        let ghost mut set_ok: bool = false;
        let update_kw = self.kw("UPDATE");
        let set_kw = self.kw("SET");
        let ghost lead = update_kw@ + seq![' '];
        let with_opt: Option<String>;
        let first: String;
        if self.config.river {
            let mut keywords: Vec<String> = Vec::new();
            keywords.push(update_kw.clone());
            keywords.push(set_kw.clone());
            if node.has_child("from_clause") {
                keywords.push(self.kw("FROM"));
            }
            if node.has_child("where_or_current_clause") {
                keywords.push(self.kw("WHERE"));
            }
            if node.has_child("returning_clause") {
                keywords.push(self.kw("RETURNING"));
            }
            let width = Self::widest(&keywords);
            with_opt = self.dml_with_clause(node, width, d);
            first = self.rline(update_kw.as_str(), table.as_str(), width);
            if let Some(set_list) = node.find_child("set_clause_list") {
                proof { lemma_found_kid(*node, "set_clause_list"@, *set_list); }
                let formatted = self.set_clause_items(set_list, d);
                let content_col = width.saturating_add(1);
                if formatted.len() == 1 {
                    let l = self.rline(set_kw.as_str(), formatted[0].as_str(), width);
                    proof { lemma_set_line(l@, set_kw@); set_ok = true; }
                    lines.push(l);
                } else if formatted.len() > 1 {
                    if self.config.leading_commas {
                        let l = self.rline(set_kw.as_str(), formatted[0].as_str(), width);
                        proof { lemma_set_line(l@, set_kw@); set_ok = true; }
                        lines.push(l);
                        let padding = spaces_str(content_col.saturating_sub(2));
                        let mut k: usize = 1;
                        while k < formatted.len()
                            invariant
                                set_ok ==> lines@.len() >= 1 && opens_with(lines@[0]@, set_kw@),
                            decreases formatted.len() - k,
                        {
                            lines.push(concat(&[padding.as_str(), ", ", formatted[k].as_str()]));
                            k += 1;
                        }
                    } else {
                        let first = concat(&[formatted[0].as_str(), ","]);
                        let l = self.rline(set_kw.as_str(), first.as_str(), width);
                        proof { lemma_set_line(l@, set_kw@); set_ok = true; }
                        lines.push(l);
                        let padding = spaces_str(content_col);
                        let mut k: usize = 1;
                        while k < formatted.len()
                            invariant
                                set_ok ==> lines@.len() >= 1 && opens_with(lines@[0]@, set_kw@),
                            decreases formatted.len() - k,
                        {
                            let comma = if k + 1 < formatted.len() { "," } else { "" };
                            lines.push(concat(&[padding.as_str(), formatted[k].as_str(), comma]));
                            k += 1;
                        }
                    }
                }
            }
            if let Some(from_c) = node.find_child("from_clause") {
                if let Some(from_list) = from_c.find_child("from_list") {
                    let f = self.kw("FROM");
                    let ghost bf = lines@;
                    self.format_relation_list_river(from_list, f.as_str(), width, &mut lines, d);
                    proof { if set_ok { lemma_appended_line(bf, lines@, 0); } }
                }
            }
            if let Some(where_c) = node.find_child("where_or_current_clause") {
                proof { lemma_found_kid(*node, "where_or_current_clause"@, *where_c); }
                let ghost before = lines@;
                self.format_where_river(where_c, width, &mut lines, d);
                proof {
                    if set_ok { lemma_appended_line(before, lines@, 0); }
                    if has_condition(first_kid(*node, "where_or_current_clause"@)) && d > 1 {
                        where_at = before.len() as int;
                        let w = cased(self.config, "WHERE"@);
                        assert((w + seq![' ']).take(w.len() as int) =~= w);
                        crate::strs::lemma_opens_with_shorter(lines@[where_at]@,
                            cased(self.config, "WHERE"@) + seq![' '], cased(self.config, "WHERE"@));
                    }
                }
            }
            if let Some(ret) = node.find_child("returning_clause") {
                if let Some(text) = self.returning_text(ret, d) {
                    let r = self.kw("RETURNING");
                    lines.push(self.rline(r.as_str(), text.as_str(), width));
                }
            }
        } else {
            with_opt = self.dml_with_clause(node, 0, d);
            let first_parts = [update_kw.as_str(), " ", table.as_str()];
            first = concat(&first_parts);
            proof {
                reveal_strlit(" ");
                assert(first_parts@[1]@ == seq![' ']);
                lemma_concat_leads(first_parts@, update_kw@);
                lemma_opens_with_prefix(first@, lead);
            }
            let indent = self.config.indent;
            if let Some(set_list) = node.find_child("set_clause_list") {
                proof { lemma_found_kid(*node, "set_clause_list"@, *set_list); }
                let formatted = self.set_clause_items(set_list, d);
                proof {
                    lemma_prefix_self(set_kw@);
                    crate::strs::lemma_opens_with_prefix(set_kw@, set_kw@);
                    set_ok = true;
                }
                lines.push(set_kw);
                let mut k: usize = 0;
                while k < formatted.len()
                    invariant
                        set_ok ==> lines@.len() >= 1 && opens_with(lines@[0]@, cased(self.config, "SET"@)),
                    decreases formatted.len() - k,
                {
                    let comma = if k + 1 < formatted.len() { "," } else { "" };
                    lines.push(concat(&[indent, formatted[k].as_str(), comma]));
                    k += 1;
                }
            }
            if let Some(from_c) = node.find_child("from_clause") {
                if let Some(from_list) = from_c.find_child("from_list") {
                    let f = self.kw("FROM");
                    let ghost bf = lines@;
                    self.format_relation_list_left_aligned(from_list, f.as_str(), &mut lines, d);
                    proof { if set_ok { lemma_appended_line(bf, lines@, 0); } }
                }
            }
            if let Some(where_c) = node.find_child("where_or_current_clause") {
                proof { lemma_found_kid(*node, "where_or_current_clause"@, *where_c); }
                let ghost before = lines@;
                self.format_where_left_aligned(where_c, &mut lines, d);
                proof {
                    if set_ok { lemma_appended_line(before, lines@, 0); }
                    if has_condition(first_kid(*node, "where_or_current_clause"@)) && d > 1 {
                        where_at = before.len() as int;
                    }
                }
            }
            if let Some(ret) = node.find_child("returning_clause") {
                if let Some(text) = self.returning_text(ret, d) {
                    let r = self.kw("RETURNING");
                    lines.push(concat(&[r.as_str(), " ", text.as_str()]));
                }
            }
        }
        let ghost c1 = lines@;
        proof {
            if where_at >= 0 {
                assert(opens_with(c1[where_at]@, cased(self.config, "WHERE"@)));
            }
        }
        lines.insert(0, first);
        let no_with = with_opt.is_none();
        let ghost shift: int = if no_with { 1 } else { 2 };
        if let Some(with) = with_opt {
            lines.insert(0, with);
        }
        let r = join(&lines, "\n");
        proof {
            let ls = string_views(lines@);
            assert(join_with(ls, "\n"@) == r@);
            if where_at >= 0 {
                assert(ls[where_at + shift] == c1[where_at]@);
            }
            if update_has_set(*node) && d >= 0 {
                assert(set_ok);
                assert(ls[shift] == c1[0]@);
            }
        }
        proof {
            if no_with {
                lemma_join_starts_with_first(string_views(lines@), "\n"@);
                lemma_opens_with_trans(r@, lines@[0]@, lead);
            }
        }
        r
    }

    pub(crate) fn format_set_clause(&self, node: &SyntaxNode, b: usize) -> (r: String)
        ensures
            b == 0 ==> r@ == node_text(self.chars@, *node),
            b > 0 ==> occurs_in(r@, seq![' ', '=', ' ']),
        decreases b,
    {
        if b == 0 {
            return self.text(node);
        }
        let d = b - 1;
        let value = match node.find_child_any(&["a_expr", "c_expr"]) {
            Some(n) => self.format_expr(n, d),
            None => String::new(),
        };
        // The multi-column form SET (a, b) = (...).
        proof { reveal_with_fuel(crate::strs::concat_views, 5); reveal_strlit("("); reveal_strlit(") = "); reveal_strlit(" = "); }
        if let Some(list) = node.find_child("set_target_list") {
            let cols = self.format_list(list, "set_target_list", d);
            let r = concat(&["(", cols.as_str(), ") = ", value.as_str()]);
            proof {
                let at: int = cols@.len() as int + 2;
                assert(r@ == seq!['('] + cols@ + seq![')', ' ', '=', ' '] + value@);
                assert(r@.subrange(at, at + 3) =~= seq![' ', '=', ' ']);
                assert(crate::lexical::occurs_at(r@, seq![' ', '=', ' '], at));
            }
            return r;
        }
        let target = match node.find_child("set_target") {
            Some(n) => self.format_expr(n, d),
            None => String::new(),
        };
        let r = concat(&[target.as_str(), " = ", value.as_str()]);
        proof {
            let at = target@.len() as int;
            assert(r@ == target@ + seq![' ', '=', ' '] + value@);
            assert(r@.subrange(at, at + 3) =~= seq![' ', '=', ' ']);
            assert(crate::lexical::occurs_at(r@, seq![' ', '=', ' '], at));
        }
        r
    }

    /// The relations of an UPDATE ... FROM or DELETE ... USING, river-aligned
    /// under `keyword`: the first on the keyword's line, the rest indented to
    /// the content column.
    pub(crate) fn format_relation_list_river(&self, from_list: &SyntaxNode, keyword: &str, width: usize,
        lines: &mut Vec<String>, b: usize)
        ensures
            appended(old(lines)@, final(lines)@),
            b > 0 ==> final(lines)@.len() == old(lines)@.len() + flat_items(*from_list, "from_list"@).len(),
            b > 0 && flat_items(*from_list, "from_list"@).len() > 0
                ==> adds_line_opening(old(lines)@, final(lines)@, keyword@ + seq![' ']),
        decreases b,
    {
        let ghost start = lines@;
        assert(string_views(lines@).take(lines@.len() as int) =~= string_views(lines@));
        if b == 0 {
            return;
        }
        let tables = flatten_list(from_list, "from_list");
        assert(node_views(tables@).len() == tables@.len());
        assert(flat_items(*from_list, "from_list"@).len() == tables@.len());
        let last = tables.len().saturating_sub(1);
        let mut i: usize = 0;
        while i < tables.len()
            invariant
                appended(start, lines@),
                i <= tables@.len(),
                lines@.len() == start.len() + i,
                i > 0 ==> opens_with(lines@[start.len() as int]@, keyword@ + seq![' ']),
            decreases tables.len() - i,
        {
            let ghost before = lines@;
            let mut text = self.format_table_ref(tables[i], b - 1);
            if i < last {
                push_char(&mut text, ',');
            }
            if i == 0 {
                lines.push(self.rline(keyword, text.as_str(), width));
            } else {
                let padding = spaces_str(width.saturating_add(1));
                lines.push(concat(&[padding.as_str(), text.as_str()]));
            }
            assert(string_views(lines@).take(start.len() as int) =~= string_views(before).take(start.len() as int));
            i += 1;
        }
    }

    /// The left-aligned counterpart of `format_relation_list_river`.
    pub(crate) fn format_relation_list_left_aligned(&self, from_list: &SyntaxNode, keyword: &str,
        lines: &mut Vec<String>, b: usize)
        ensures
            appended(old(lines)@, final(lines)@),
            b > 0 ==> adds_line_opening(old(lines)@, final(lines)@, keyword@),
            b > 0 && flat_items(*from_list, "from_list"@).len() != 1
                ==> final(lines)@.len() == old(lines)@.len() + 1 + flat_items(*from_list, "from_list"@).len(),
            b > 0 && flat_items(*from_list, "from_list"@).len() == 1 ==> final(lines)@.len() == old(lines)@.len() + 1,
        decreases b,
    {
        let ghost start = lines@;
        assert(string_views(lines@).take(lines@.len() as int) =~= string_views(lines@));
        if b == 0 {
            return;
        }
        let indent = self.config.indent;
        let tables = flatten_list(from_list, "from_list");
        assert(node_views(tables@).len() == tables@.len());
        assert(flat_items(*from_list, "from_list"@).len() == tables@.len());
        if tables.len() == 1 {
            let t = self.format_table_ref(tables[0], b - 1);
            let parts = [keyword, " ", t.as_str()];
            let line = concat(&parts);
            proof {
                lemma_concat_starts_with_first(parts@);
                lemma_opens_with_prefix(line@, keyword@);
            }
            lines.push(line);
            assert(string_views(lines@).take(start.len() as int) =~= string_views(start));
            return;
        }
        let kline = owned(keyword);
        proof { lemma_prefix_self(kline@); lemma_opens_with_prefix(kline@, keyword@); }
        lines.push(kline);
        assert(string_views(lines@).take(start.len() as int) =~= string_views(start));
        let ghost first = lines@[start.len() as int];
        let last = tables.len().saturating_sub(1);
        let mut i: usize = 0;
        while i < tables.len()
            invariant
                appended(start, lines@),
                i <= tables@.len(),
                lines@.len() == start.len() + 1 + i,
                lines@[start.len() as int] == first,
            decreases tables.len() - i,
        {
            let ghost before = lines@;
            let mut text = self.format_table_ref(tables[i], b - 1);
            if i < last {
                push_char(&mut text, ',');
            }
            lines.push(concat(&[indent, text.as_str()]));
            assert(string_views(lines@).take(start.len() as int) =~= string_views(before).take(start.len() as int));
            i += 1;
        }
    }

    // MERGE.

    /// Format `[WITH ...] MERGE INTO <target> USING <source> ON <cond>
    /// <WHEN clauses> [RETURNING ...]`, each WHEN clause on a line of its
    /// own with its action indented beneath it.
    pub(crate) fn format_merge_stmt(&self, node: &SyntaxNode, b: usize) -> (r: String)
        decreases b,
    {
        if b == 0 {
            return self.text(node);
        }
        let d = b - 1;
        let target = match node.find_child("relation_expr_opt_alias") {
            Some(n) => self.format_relation_expr_opt_alias(n, d),
            None => String::new(),
        };
        let source = match node.find_child("table_ref") {
            Some(n) => self.format_table_ref(n, d),
            None => String::new(),
        };
        let mut whens: Vec<&SyntaxNode> = Vec::new();
        if let Some(l) = node.find_child("merge_when_list") {
            let all = flatten_list(l, "merge_when_list");
            let mut k: usize = 0;
            while k < all.len()
                decreases all.len() - k,
            {
                if all[k].is("merge_when_clause") {
                    whens.push(all[k]);
                }
                k += 1;
            }
        }
        let mut lines: Vec<String> = Vec::new();
        let merge_kw = self.kw_pair("MERGE", "INTO");
        let using_kw = self.kw("USING");
        let on_kw = self.kw("ON");
        let when_kw = self.kw("WHEN");
        let ret_kw = self.kw("RETURNING");
        if self.config.river {
            let mut keywords: Vec<String> = Vec::new();
            keywords.push(merge_kw.clone());
            keywords.push(using_kw.clone());
            keywords.push(on_kw.clone());
            if whens.len() > 0 {
                keywords.push(when_kw.clone());
            }
            if node.has_child("returning_clause") {
                keywords.push(ret_kw.clone());
            }
            let width = Self::widest(&keywords);
            let content_col = width.saturating_add(1);
            if let Some(with) = self.dml_with_clause(node, width, d) {
                lines.push(with);
            }
            lines.push(self.rline(merge_kw.as_str(), target.as_str(), width));
            lines.push(self.rline(using_kw.as_str(), source.as_str(), width));
            if let Some(cond) = node.find_child("a_expr") {
                let conditions = self.split_top_level_conditions(cond, d);
                lines.push(self.rline(on_kw.as_str(), conditions[0].text.as_str(), width));
                let mut k: usize = 1;
                while k < conditions.len()
                    decreases conditions.len() - k,
                {
                    lines.push(self.rline(conditions[k].op.as_str(), conditions[k].text.as_str(), width));
                    k += 1;
                }
            }
            let pad = spaces_str(content_col);
            let mut k: usize = 0;
            while k < whens.len()
                decreases whens.len() - k,
            {
                let (head, action) = self.format_merge_when_clause(whens[k], d);
                lines.push(self.rline(when_kw.as_str(), head.as_str(), width));
                let mut j: usize = 0;
                while j < action.len()
                    decreases action.len() - j,
                {
                    lines.push(concat(&[pad.as_str(), action[j].as_str()]));
                    j += 1;
                }
                k += 1;
            }
            if let Some(ret) = node.find_child("returning_clause") {
                if let Some(text) = self.returning_text(ret, d) {
                    lines.push(self.rline(ret_kw.as_str(), text.as_str(), width));
                }
            }
        } else {
            let indent = self.config.indent;
            if let Some(with) = self.dml_with_clause(node, 0, d) {
                lines.push(with);
            }
            lines.push(concat(&[merge_kw.as_str(), " ", target.as_str()]));
            lines.push(concat(&[using_kw.as_str(), " ", source.as_str()]));
            if let Some(cond) = node.find_child("a_expr") {
                let conditions = self.split_top_level_conditions(cond, d);
                lines.push(concat(&[on_kw.as_str(), " ", conditions[0].text.as_str()]));
                let mut k: usize = 1;
                while k < conditions.len()
                    decreases conditions.len() - k,
                {
                    lines.push(concat(&[conditions[k].op.as_str(), " ", conditions[k].text.as_str()]));
                    k += 1;
                }
            }
            let mut k: usize = 0;
            while k < whens.len()
                decreases whens.len() - k,
            {
                let (head, action) = self.format_merge_when_clause(whens[k], d);
                lines.push(concat(&[when_kw.as_str(), " ", head.as_str()]));
                let mut j: usize = 0;
                while j < action.len()
                    decreases action.len() - j,
                {
                    lines.push(concat(&[indent, action[j].as_str()]));
                    j += 1;
                }
                k += 1;
            }
            if let Some(ret) = node.find_child("returning_clause") {
                if let Some(text) = self.returning_text(ret, d) {
                    lines.push(concat(&[ret_kw.as_str(), " ", text.as_str()]));
                }
            }
        }
        join(&lines, "\n")
    }

    /// A `merge_when_clause` split into its head (up to and including THEN,
    /// without the leading WHEN) and its action lines.
    pub(crate) fn format_merge_when_clause(&self, node: &SyntaxNode, b: usize) -> (r: (String, Vec<String>))
        ensures
            b == 0 ==> r.0@ == node_text(self.chars@, *node) && r.1@.len() == 0,
            b > 0 ==> has_suffix(r.0@, cased(self.config, "THEN"@)),
            b > 0 && first_kid(*node, "merge_update"@) is None && crate::plpgsql::holds_kind(*node, "merge_delete"@)
                ==> r.1@.len() == 1 && r.1@[0]@ == cased(self.config, "DELETE"@),
        decreases b,
    {
        if b == 0 {
            return (self.text(node), Vec::new());
        }
        let d = b - 1;
        let mut head: Vec<String> = Vec::new();
        if let Some(tgt) = node.find_child_any(&["merge_when_tgt_matched", "merge_when_tgt_not_matched"]) {
            // NOT / MATCHED / BY SOURCE|TARGET, without the WHEN.
            let named = tgt.named_children();
            let mut k: usize = 0;
            while k < named.len()
                decreases named.len() - k,
            {
                if !named[k].is("kw_when") {
                    head.push(self.format_keyword_node(named[k]));
                }
                k += 1;
            }
        }
        if let Some(cond) = node.find_child("opt_merge_when_condition") {
            head.push(self.render_clause_inline(cond, d));
        }
        head.push(self.kw("THEN"));
        let mut action: Vec<String> = Vec::new();
        let found_upd = node.find_child("merge_update");
        proof {
            if found_upd is Some { lemma_found_kid(*node, "merge_update"@, *found_upd.unwrap()); }
            else { lemma_no_kid(*node, "merge_update"@); }
        }
        if let Some(upd) = found_upd {
            let sets = match upd.find_child("set_clause_list") {
                Some(l) => self.set_clauses(l, d),
                None => String::new(),
            };
            let u = self.kw("UPDATE");
            let s = self.kw("SET");
            action.push(concat(&[u.as_str(), " ", s.as_str(), " ", sets.as_str()]));
        } else if node.has_child("merge_delete") {
            action.push(self.kw("DELETE"));
        } else if let Some(ins) = node.find_child("merge_insert") {
            let mut lines = self.format_merge_insert(ins, d);
            action.append(&mut lines);
        } else if node.has_child("kw_do") {
            action.push(self.kw_pair("DO", "NOTHING"));
        }
        let h = join(&head, " ");
        proof { crate::strs::lemma_join_ends_with_last(string_views(head@), " "@); }
        (h, action)
    }

    /// A `merge_insert` action: the INSERT header (column list, OVERRIDING)
    /// and its VALUES on a following line.
    pub(crate) fn format_merge_insert(&self, node: &SyntaxNode, b: usize) -> (r: Vec<String>)
        ensures
            b == 0 ==> r@.len() == 1 && r@[0]@ == node_text(self.chars@, *node),
            b > 0 ==> r@.len() >= 1 && has_prefix(r@[0]@, cased(self.config, "INSERT"@)),
        decreases b,
    {
        let mut out: Vec<String> = Vec::new();
        if b == 0 {
            out.push(self.text(node));
            return out;
        }
        let d = b - 1;
        let insert_kw = self.kw("INSERT");
        let mut header = insert_kw.clone();
        let ghost lead = insert_kw@;
        proof { crate::strs::lemma_prefix_self(lead); }
        if let Some(cols) = node.find_child("insert_column_list") {
            let c = self.paren_list(cols, "insert_column_list", d);
            let h2 = concat(&[header.as_str(), " ", c.as_str()]);
            proof {
                reveal_with_fuel(crate::strs::concat_views, 4);
                assert(h2@ =~= header@ + (" "@ + c@));
                lemma_prefix_append(header@, " "@ + c@, lead);
            }
            header = h2;
        }
        if node.has_child("kw_overriding") {
            let o = self.overriding_clause(node);
            let h2 = concat(&[header.as_str(), " ", o.as_str()]);
            proof {
                reveal_with_fuel(crate::strs::concat_views, 4);
                assert(h2@ =~= header@ + (" "@ + o@));
                lemma_prefix_append(header@, " "@ + o@, lead);
            }
            header = h2;
        }
        if node.has_child("kw_default") {
            let dv = self.kw_pair("DEFAULT", "VALUES");
            let l = concat(&[header.as_str(), " ", dv.as_str()]);
            proof {
                reveal_with_fuel(crate::strs::concat_views, 4);
                assert(l@ =~= header@ + (" "@ + dv@));
                lemma_prefix_append(header@, " "@ + dv@, lead);
            }
            out.push(l);
            return out;
        }
        let bare = same(header.as_str(), insert_kw.as_str());
        let mut values_line: Option<String> = None;
        if let Some(values) = node.find_child("merge_values_clause") {
            if let Some(list) = values.find_child("expr_list") {
                let v = self.kw("VALUES");
                let items = self.format_list(list, "expr_list", d);
                values_line = Some(concat(&[v.as_str(), " (", items.as_str(), ")"]));
            }
        }
        // `INSERT VALUES (...)` fits one line; a column list or OVERRIDING
        // clause gives the header a line of its own.
        match values_line {
            Some(values) => {
                if bare {
                    let l = concat(&[header.as_str(), " ", values.as_str()]);
                    proof {
                        reveal_with_fuel(crate::strs::concat_views, 4);
                        assert(l@ =~= header@ + (" "@ + values@));
                        lemma_prefix_append(header@, " "@ + values@, lead);
                    }
                    out.push(l);
                } else {
                    out.push(header);
                    out.push(values);
                }
            },
            None => out.push(header),
        }
        out
    }

    // DELETE.

    pub(crate) fn format_delete_stmt(&self, node: &SyntaxNode, b: usize) -> (r: String)
        ensures
            b > 0 && !has_with_clause(*node) ==> opens_with(r@, cased(self.config, "DELETE"@)),
        decreases b,
    {
        if b == 0 {
            return self.text(node);
        }
        let d = b - 1;
        let table = match node.find_child("relation_expr_opt_alias") {
            Some(n) => self.format_relation_expr_opt_alias(n, d),
            None => String::new(),
        };
        let mut lines: Vec<String> = Vec::new();
        let delete_kw = self.kw("DELETE");
        let from_kw = self.kw("FROM");
        let using_kw = self.kw("USING");
        let ret_kw = self.kw("RETURNING");
        let ghost lead = delete_kw@;
        let with_opt: Option<String>;
        let first: String;
        if self.config.river {
            let mut keywords: Vec<String> = Vec::new();
            keywords.push(delete_kw.clone());
            keywords.push(from_kw.clone());
            if node.has_child("using_clause") {
                keywords.push(using_kw.clone());
            }
            if node.has_child("where_or_current_clause") {
                keywords.push(self.kw("WHERE"));
            }
            if node.has_child("returning_clause") {
                keywords.push(ret_kw.clone());
            }
            let width = Self::widest(&keywords);
            with_opt = self.dml_with_clause(node, width, d);
            first = delete_kw;
            proof {
                lemma_prefix_self(first@);
                lemma_opens_with_prefix(first@, lead);
            }
            lines.push(self.rline(from_kw.as_str(), table.as_str(), width));
            if let Some(using_c) = node.find_child("using_clause") {
                if let Some(from_list) = using_c.find_child("from_list") {
                    self.format_relation_list_river(from_list, using_kw.as_str(), width, &mut lines, d);
                }
            }
            if let Some(where_c) = node.find_child("where_or_current_clause") {
                self.format_where_river(where_c, width, &mut lines, d);
            }
            if let Some(ret) = node.find_child("returning_clause") {
                if let Some(text) = self.returning_text(ret, d) {
                    lines.push(self.rline(ret_kw.as_str(), text.as_str(), width));
                }
            }
        } else {
            with_opt = self.dml_with_clause(node, 0, d);
            let first_parts = [delete_kw.as_str(), " ", from_kw.as_str(), " ", table.as_str()];
            first = concat(&first_parts);
            proof {
                lemma_concat_starts_with_first(first_parts@);
                lemma_opens_with_prefix(first@, lead);
            }
            if let Some(using_c) = node.find_child("using_clause") {
                if let Some(from_list) = using_c.find_child("from_list") {
                    self.format_relation_list_left_aligned(from_list, using_kw.as_str(), &mut lines, d);
                }
            }
            if let Some(where_c) = node.find_child("where_or_current_clause") {
                self.format_where_left_aligned(where_c, &mut lines, d);
            }
            if let Some(ret) = node.find_child("returning_clause") {
                if let Some(text) = self.returning_text(ret, d) {
                    lines.push(concat(&[ret_kw.as_str(), " ", text.as_str()]));
                }
            }
        }
        lines.insert(0, first);
        let no_with = with_opt.is_none();
        if let Some(with) = with_opt {
            lines.insert(0, with);
        }
        let r = join(&lines, "\n");
        proof {
            if no_with {
                lemma_join_starts_with_first(string_views(lines@), "\n"@);
                lemma_opens_with_trans(r@, lines@[0]@, lead);
            }
        }
        r
    }

    // CREATE TABLE.

    /// `IF NOT EXISTS ` where the statement has it.
    pub(crate) fn if_not_exists(&self, node: &SyntaxNode) -> (r: String)
        ensures
            r@ == if exists|i: int| 0 <= i < node.children@.len() && #[trigger] node.children@[i].named
                && node.children@[i].kind@ == "kw_if"@ {
                cased(self.config, "IF"@) + seq![' '] + cased(self.config, "NOT"@) + seq![' ']
                    + cased(self.config, "EXISTS"@) + seq![' ']
            } else {
                Seq::empty()
            },
    {
        if node.has_child("kw_if") {
            let i = self.kw("IF");
            let n = self.kw("NOT");
            let e = self.kw("EXISTS");
            let r = concat(&[i.as_str(), " ", n.as_str(), " ", e.as_str(), " "]);
            proof {
                reveal_with_fuel(crate::strs::concat_views, 7);
                reveal_strlit(" ");
            }
            r
        } else {
            String::new()
        }
    }

    /// The second `qualified_name` child: the parent of `PARTITION OF`.
    pub(crate) fn second_qualified_name<'n>(node: &'n SyntaxNode) -> (r: Option<&'n SyntaxNode>)
        ensures
            match second_of_kind_from(named_of(node.children@), "qualified_name"@, 0, 0) {
                Some(i) => r matches Some(c) && *c == named_of(node.children@)[i],
                None => r is None,
            },
    {
        let named = node.named_children();
        let ghost ns = named_of(node.children@);
        let mut seen: usize = 0;
        let mut k: usize = 0;
        while k < named.len()
            invariant
                seen <= k,
                seen <= 1,
                k <= named@.len(),
                named@.map_values(|c: &SyntaxNode| *c) == ns,
                second_of_kind_from(ns, "qualified_name"@, k as int, seen as nat)
                    == second_of_kind_from(ns, "qualified_name"@, 0, 0),
            decreases named.len() - k,
        {
            proof { assert(ns[k as int] == *named@[k as int]); }
            if named[k].is("qualified_name") {
                if seen == 1 {
                    return Some(named[k]);
                }
                seen += 1;
            }
            k += 1;
        }
        None
    }

    /// The element list of a CREATE [FOREIGN] TABLE, if it has one.
    pub(crate) fn element_list<'n>(node: &'n SyntaxNode) -> (r: Option<&'n SyntaxNode>)
        ensures
            r matches Some(l) ==> first_kid_within(*node, "OptTableElementList"@, "TableElementList"@) == Some(*l)
                || (first_kid_within(*node, "OptTableElementList"@, "TableElementList"@) is None
                    && first_kid_within(*node, "OptTypedTableElementList"@, "TypedTableElementList"@) == Some(*l)),
            r is None ==> first_kid_within(*node, "OptTableElementList"@, "TableElementList"@) is None
                && first_kid_within(*node, "OptTypedTableElementList"@, "TypedTableElementList"@) is None,
    {
        if let Some(n) = node.find_child("OptTableElementList") {
            proof { lemma_found_kid(*node, "OptTableElementList"@, *n); }
            if let Some(l) = n.find_child("TableElementList") {
                proof { lemma_found_kid(*n, "TableElementList"@, *l); }
                return Some(l);
            }
            proof { lemma_no_kid(*n, "TableElementList"@); }
        } else {
            proof { lemma_no_kid(*node, "OptTableElementList"@); }
        }
        if let Some(n) = node.find_child("OptTypedTableElementList") {
            proof { lemma_found_kid(*node, "OptTypedTableElementList"@, *n); }
            if let Some(l) = n.find_child("TypedTableElementList") {
                proof { lemma_found_kid(*n, "TypedTableElementList"@, *l); }
                return Some(l);
            }
            proof { lemma_no_kid(*n, "TypedTableElementList"@); }
        } else {
            proof { lemma_no_kid(*node, "OptTypedTableElementList"@); }
        }
        None
    }

    /// Whether `node` has a `(` child.
    pub(crate) fn has_open_paren(&self, node: &SyntaxNode) -> (r: bool)
        ensures
            r == exists|i: int| 0 <= i < node.children@.len() && (#[trigger] node.children@[i]).kind@ == "("@,
    {
        let mut i: usize = 0;
        while i < node.children.len()
            invariant
                i <= node.children@.len(),
                forall|x: int| 0 <= x < i ==> (#[trigger] node.children@[x]).kind@ != "("@,
            decreases node.children.len() - i,
        {
            if node.children[i].is("(") {
                return true;
            }
            i += 1;
        }
        false
    }

    /// The statement as lines: the header `CREATE [TEMP ]TABLE [IF NOT
    /// EXISTS ]name`, ending in ` (` where there is an element list; then the
    /// element lines and a line `)` that closes the list; then the table's
    /// further clauses, a line each.
    #[verifier::rlimit(100)]
    #[verifier::spinoff_prover]
    pub(crate) fn format_create_table_stmt(&self, node: &SyntaxNode, b: usize) -> (r: String)
        ensures
            b > 0 ==> has_prefix(r@, cased(self.config, "CREATE"@) + seq![' ']),
            b > 0 ==> exists|ls: Seq<Seq<char>>| #[trigger] join_with(ls, "\n"@) == r@ && ls.len() >= 1
                && has_prefix(ls[0], cased(self.config, "CREATE"@) + seq![' '])
                && (has_element_list(*node) ==> has_suffix(ls[0], " ("@)
                    && exists|i: int| 1 + (if b > 1 { table_element_count(*node) } else { 0 }) <= i < ls.len()
                        && #[trigger] ls[i] == ")"@),
        decreases b,
    {
        if b == 0 {
            return self.text(node);
        }
        let d = b - 1;
        let table_name = match node.find_child("qualified_name") {
            Some(n) => self.format_qualified_name(n, d),
            None => String::new(),
        };
        let if_not_exists = self.if_not_exists(node);
        // TEMP / TEMPORARY / UNLOGGED and their GLOBAL/LOCAL variants.
        let temp = match node.find_child("OptTemp") {
            Some(n) => {
                let t = self.text(n);
                let w = normalize(t.as_str());
                let k = self.kw(w.as_str());
                concat(&[k.as_str(), " "])
            },
            None => String::new(),
        };
        let c = self.kw("CREATE");
        let t = self.kw("TABLE");
        let header_parts = [c.as_str(), " ", temp.as_str(), t.as_str(), " ", if_not_exists.as_str(),
            table_name.as_str()];
        let mut header = concat(&header_parts);
        let ghost lead = c@ + seq![' '];
        proof {
            reveal_strlit(" ");
            assert(header_parts@[1]@ == seq![' ']);
            lemma_concat_leads(header_parts@, c@);
        }
        // `PARTITION OF parent` and `OF type` name a second relation or type.
        let parent = Self::second_qualified_name(node);
        if parent.is_some() && node.has_child("kw_partition") {
            if let Some(p) = parent {
                let po = self.kw_pair("PARTITION", "OF");
                let pn = self.format_qualified_name(p, d);
                let tail = concat(&[" ", po.as_str(), " ", pn.as_str()]);
                let ghost before = header@;
                push_str(&mut header, tail.as_str());
                proof { lemma_prefix_append(before, tail@, lead); }
            }
        } else if let Some(of_type) = node.find_child("any_name") {
            if node.has_child("kw_of") {
                let o = self.kw("OF");
                let ty = self.render_clause_inline(of_type, d);
                let tail = concat(&[" ", o.as_str(), " ", ty.as_str()]);
                let ghost before = header@;
                push_str(&mut header, tail.as_str());
                proof { lemma_prefix_append(before, tail@, lead); }
            }
        }
        // A typed or partition table may omit the element list.
        let elem_list = Self::element_list(node);
        let first_line = match elem_list {
            None => {
                // An empty `()` is still needed before INHERITS or SERVER.
                if self.has_open_paren(node) {
                    let ghost before = header@;
                    push_str(&mut header, " ()");
                    proof { lemma_prefix_append(before, " ()"@, lead); }
                }
                header
            },
            Some(_) => {
                let h = concat(&[header.as_str(), " ("]);
                proof {
                    reveal_with_fuel(crate::strs::concat_views, 3);
                    lemma_prefix_append(header@, " ("@, lead);
                    reveal_strlit(" (");
                    assert(h@ == header@ + " ("@);
                    assert(h@.skip(h@.len() - 2) =~= " ("@);
                }
                h
            },
        };
        let ghost listed = elem_list is Some;
        let ghost mut close: int = 0;
        let mut lines: Vec<String> = Vec::new();
        if let Some(elem_list) = elem_list {
            let indent = self.config.indent;
            // Comments among the elements trail the element before them.
            let (leading_comments, grouped) = self.collect_table_elements(node, elem_list);
            proof { assert(grouped@.len() == table_element_count(*node)); }
            let mut k: usize = 0;
            while k < leading_comments.len()
                decreases leading_comments.len() - k,
            {
                lines.push(concat(&[indent, leading_comments[k].as_str()]));
                k += 1;
            }
            if self.config.river {
                self.render_table_elements_river(&grouped, &mut lines, d);
            } else {
                let mut rendered = self.render_grouped_elements_left_aligned(&grouped, indent, d);
                lines.append(&mut rendered);
            }
            proof { reveal_strlit(")"); }
            lines.push(owned(")"));
            proof { close = lines@.len() - 1; }
        }
        let ghost c0 = lines@;
        self.push_create_table_clauses(node, &mut lines, d);
        let ghost c1 = lines@;
        proof {
            assert(c1.len() >= c0.len());
            if listed {
                assert(c1[close] == c0[close]);
            }
        }
        lines.insert(0, first_line);
        let r = join(&lines, "\n");
        proof {
            lemma_lines_lead(lines@, r@, lead);
            let ls = string_views(lines@);
            assert(ls[0] == lines@[0]@);
            assert(join_with(ls, "\n"@) == r@);
            assert(listed == has_element_list(*node));
            if listed {
                assert(ls[close + 1] == ")"@);
            }
        }
        r
    }

    /// The clauses after a CREATE TABLE element list, a line each: the
    /// partition bound, INHERITS, PARTITION BY, USING, WITH, ON COMMIT and
    /// TABLESPACE.
    pub(crate) fn push_create_table_clauses(&self, node: &SyntaxNode, lines: &mut Vec<String>, d: usize)
        ensures
            final(lines)@.len() >= old(lines)@.len(),
            forall|k: int| 0 <= k < old(lines)@.len() ==> final(lines)@[k] == old(lines)@[k],
    {
        // FOR VALUES ... / DEFAULT: the bound of a PARTITION OF table.
        if let Some(bound) = node.find_child("PartitionBoundSpec") {
            lines.push(self.render_clause_inline(bound, d));
        }
        // INHERITS (parent, ...).
        if let Some(inh) = node.find_child("OptInherit") {
            if let Some(list) = inh.find_child("qualified_name_list") {
                let items = flatten_list(list, "qualified_name_list");
                let mut formatted: Vec<String> = Vec::new();
                let mut k: usize = 0;
                while k < items.len()
                    decreases items.len() - k,
                {
                    formatted.push(self.format_qualified_name(items[k], d));
                    k += 1;
                }
                let i = self.kw("INHERITS");
                let f = join(&formatted, ", ");
                lines.push(concat(&[i.as_str(), " (", f.as_str(), ")"]));
            }
        }
        // PARTITION BY { RANGE | LIST | HASH } (...).
        if let Some(ops) = node.find_child("OptPartitionSpec") {
            if let Some(spec) = ops.find_child("PartitionSpec") {
                let method = match spec.find_child("ColId") {
                    Some(n) => self.format_keyword_node(n),
                    None => String::new(),
                };
                let cols = match spec.find_child("part_params") {
                    Some(pp) => {
                        // A part_elem's parentheses are literal tokens that
                        // PostgreSQL requires around most keys, so elements
                        // render as written.
                        let items = flatten_list(pp, "part_params");
                        let mut formatted: Vec<String> = Vec::new();
                        let mut k: usize = 0;
                        while k < items.len()
                            decreases items.len() - k,
                        {
                            formatted.push(self.render_clause_inline(items[k], d));
                            k += 1;
                        }
                        join(&formatted, ", ")
                    },
                    None => String::new(),
                };
                let pb = self.kw_pair("PARTITION", "BY");
                lines.push(concat(&[pb.as_str(), " ", method.as_str(), " (", cols.as_str(), ")"]));
            }
        }
        // USING <access method>.
        if let Some(am) = node.find_child("table_access_method_clause") {
            lines.push(self.render_clause_inline(am, d));
        }
        // WITH (storage parameters): the node holds the WITH keyword.
        if let Some(with) = node.find_child("OptWith") {
            let t = self.text(with);
            let text = normalize(t.as_str());
            if !text.as_str().is_empty() {
                lines.push(text);
            }
        }
        // ON COMMIT { DROP | DELETE ROWS | PRESERVE ROWS }.
        if let Some(oc) = node.find_child("OnCommitOption") {
            lines.push(self.render_clause_inline(oc, d));
        }
        // TABLESPACE name.
        if let Some(ts) = node.find_child("OptTableSpace") {
            if let Some(name) = ts.find_child("name") {
                let k = self.kw("TABLESPACE");
                let n = self.format_expr(name, d);
                lines.push(concat(&[k.as_str(), " ", n.as_str()]));
            }
        }
    }

    /// The river layout of a CREATE TABLE element list: PRIMARY KEY first,
    /// columns padded into aligned name and type columns, table constraints
    /// aligned with the type column, trailing comments aligned.
    pub(crate) fn render_table_elements_river(&self, grouped: &Vec<Grouped>, lines: &mut Vec<String>, b: usize)
        ensures
            final(lines)@.len() >= old(lines)@.len() + (if b > 0 { grouped@.len() } else { 0 }),
            forall|x: int| 0 <= x < old(lines)@.len() ==> final(lines)@[x] == old(lines)@[x],
        decreases b,
    {
        let ghost l0 = lines@;
        if b == 0 {
            return;
        }
        let d = b - 1;
        let indent = self.config.indent;
        let mut pk_elements: Vec<(String, Vec<String>)> = Vec::new();
        let mut col_elements: Vec<(String, String, String, Vec<String>)> = Vec::new();
        let mut constraint_elements: Vec<(Option<String>, String, Vec<String>)> = Vec::new();
        let mut k: usize = 0;
        while k < grouped.len()
            invariant
                k <= grouped@.len(),
                pk_elements@.len() + col_elements@.len() + constraint_elements@.len() == k,
            decreases grouped.len() - k,
        {
            let comments = grouped[k].comments.clone();
            match self.classify_table_element(grouped[k].node, d) {
                TableElementKind::PrimaryKey(text) => pk_elements.push((text, comments)),
                TableElementKind::Column(name, typename, constraints) => {
                    col_elements.push((name, typename, constraints, comments))
                },
                TableElementKind::Constraint(name, body) => constraint_elements.push((name, body, comments)),
            }
            k += 1;
        }
        // The widths of the name and type columns.
        let mut max_name_len: usize = 0;
        let mut max_type_len: usize = 0;
        let mut k: usize = 0;
        while k < col_elements.len()
            decreases col_elements.len() - k,
        {
            let n = col_elements[k].0.as_str().len();
            let t = col_elements[k].1.as_str().len();
            if n > max_name_len {
                max_name_len = n;
            }
            if t > max_type_len {
                max_type_len = t;
            }
            k += 1;
        }
        // Items in order: PRIMARY KEYs, columns, constraints.
        let mut all_items: Vec<(String, Vec<String>)> = Vec::new();
        let mut k: usize = 0;
        while k < pk_elements.len()
            invariant
                k <= pk_elements@.len(),
                all_items@.len() == k,
            decreases pk_elements.len() - k,
        {
            all_items.push((pk_elements[k].0.clone(), pk_elements[k].1.clone()));
            k += 1;
        }
        let mut k: usize = 0;
        while k < col_elements.len()
            invariant
                k <= col_elements@.len(),
                all_items@.len() == pk_elements@.len() + k,
            decreases col_elements.len() - k,
        {
            let line = render_aligned_column(col_elements[k].0.as_str(), col_elements[k].1.as_str(),
                col_elements[k].2.as_str(), max_name_len, max_type_len);
            all_items.push((line, col_elements[k].3.clone()));
            k += 1;
        }
        // A table constraint: CONSTRAINT name on one line and the body on the
        // next, both aligned with the type column.
        let constraint_padding = spaces_str(max_name_len.saturating_add(1));
        let ckw = self.kw("CONSTRAINT");
        let mut k: usize = 0;
        while k < constraint_elements.len()
            invariant
                k <= constraint_elements@.len(),
                all_items@.len() == pk_elements@.len() + col_elements@.len() + k,
            decreases constraint_elements.len() - k,
        {
            let body = constraint_elements[k].1.as_str();
            let item = match &constraint_elements[k].0 {
                Some(cname) => concat(&[constraint_padding.as_str(), ckw.as_str(), " ", cname.as_str(), "\n",
                    constraint_padding.as_str(), body]),
                None => concat(&[constraint_padding.as_str(), body]),
            };
            all_items.push((item, constraint_elements[k].2.clone()));
            k += 1;
        }
        // Each item's physical lines, the comma on the last one.
        let mut rendered: Vec<(Vec<String>, Vec<String>)> = Vec::new();
        let total = all_items.len();
        let mut i: usize = 0;
        while i < all_items.len()
            invariant
                total == all_items@.len(),
                rendered@.len() == i,
                forall|x: int| 0 <= x < rendered@.len() ==> #[trigger] rendered@[x].0@.len() > 0,
            decreases all_items.len() - i,
        {
            let comma = if i + 1 < total { "," } else { "" };
            let item = all_items[i].0.as_str();
            let mut phys: Vec<String> = Vec::new();
            if contains(item, "\n") {
                let item_lines = lines_of_str(item);
                let mut j: usize = 0;
                while j < item_lines.len()
                    decreases item_lines.len() - j,
                {
                    if j + 1 == item_lines.len() {
                        phys.push(concat(&[indent, item_lines[j].as_str(), comma]));
                    } else {
                        phys.push(concat(&[indent, item_lines[j].as_str()]));
                    }
                    j += 1;
                }
            }
            if phys.len() == 0 {
                phys.push(concat(&[indent, item, comma]));
            }
            rendered.push((phys, all_items[i].1.clone()));
            i += 1;
        }
        // Trailing comments start at a common column.
        let mut comment_col: usize = 0;
        let mut i: usize = 0;
        while i < rendered.len()
            invariant
                forall|x: int| 0 <= x < rendered@.len() ==> #[trigger] rendered@[x].0@.len() > 0,
            decreases rendered.len() - i,
        {
            if rendered[i].1.len() > 0 {
                let n = rendered[i].0.len();
                let w = rendered[i].0[n - 1].as_str().len();
                if w > comment_col {
                    comment_col = w;
                }
            }
            i += 1;
        }
        let mut i: usize = 0;
        while i < rendered.len()
            invariant
                forall|x: int| 0 <= x < rendered@.len() ==> #[trigger] rendered@[x].0@.len() > 0,
                lines@.len() >= l0.len() + i,
                forall|x: int| 0 <= x < l0.len() ==> lines@[x] == l0[x],
            decreases rendered.len() - i,
        {
            let phys = &rendered[i].0;
            let comments = &rendered[i].1;
            let last = phys.len() - 1;
            let mut j: usize = 0;
            while j < phys.len()
                invariant
                    lines@.len() >= l0.len() + i + (if j > 0 { 1int } else { 0int }),
                    forall|x: int| 0 <= x < l0.len() ==> lines@[x] == l0[x],
                decreases phys.len() - j,
            {
                let line = phys[j].as_str();
                if j == last && comments.len() > 0 {
                    let pad = spaces_str(comment_col.saturating_sub(line.len()));
                    lines.push(concat(&[line, pad.as_str(), " ", comments[0].as_str()]));
                    let mut x: usize = 1;
                    while x < comments.len()
                        invariant
                            lines@.len() >= l0.len() + i + 1,
                            forall|y: int| 0 <= y < l0.len() ==> lines@[y] == l0[y],
                        decreases comments.len() - x,
                    {
                        lines.push(concat(&[indent, comments[x].as_str()]));
                        x += 1;
                    }
                } else {
                    lines.push(owned(line));
                }
                j += 1;
            }
            i += 1;
        }
    }

    /// A flattened element list split into its elements, each with the `--`
    /// comments that trail it, and the comments before the first element.
    pub(crate) fn group_table_elements<'n>(&self, elements: &Vec<&'n SyntaxNode>) -> (r: (Vec<String>, Vec<Grouped<'n>>))
        ensures
            grouped_nodes(r.1@) == non_comments(node_views(elements@)),
            r.0@.len() == leading_comment_count(node_views(elements@)),
    {
        let mut leading: Vec<String> = Vec::new();
        let mut grouped: Vec<Grouped<'n>> = Vec::new();
        let ghost es = node_views(elements@);
        proof { assert(es.take(0) =~= Seq::<SyntaxNode>::empty()); }
        let mut k: usize = 0;
        while k < elements.len()
            invariant
                k <= elements@.len(),
                es == node_views(elements@),
                grouped_nodes(grouped@) == non_comments(es.take(k as int)),
                leading@.len() == leading_comment_count(es.take(k as int)),
            decreases elements.len() - k,
        {
            proof {
                assert(es.take(k + 1).drop_last() =~= es.take(k as int));
                assert(es.take(k + 1).last() == *elements@[k as int]);
            }
            let e = elements[k];
            if e.is("comment") {
                let t = self.text(e);
                let text = trim_end(t.as_str());
                let n = grouped.len();
                if n > 0 {
                    let ghost g0 = grouped@;
                    let mut last = grouped.pop().unwrap();
                    last.comments.push(text);
                    grouped.push(last);
                    proof {
                        assert(grouped_nodes(grouped@) =~= grouped_nodes(g0));
                    }
                } else {
                    leading.push(text);
                }
            } else {
                let ghost g0 = grouped@;
                grouped.push(Grouped { node: e, comments: Vec::new() });
                proof { assert(grouped_nodes(grouped@) =~= grouped_nodes(g0).push(*e)); }
            }
            k += 1;
        }
        proof { assert(es.take(elements@.len() as int) =~= es); }
        (leading, grouped)
    }

    /// The comments of a table element list, shared by CREATE TABLE and
    /// CREATE FOREIGN TABLE: those before the first element, in source order,
    /// and each element with its trailing comments. A comment after the last
    /// element is a child of the statement, before the closing paren;
    /// comments after the paren are kept by `restore_stmt_comments`.
    pub(crate) fn collect_table_elements<'n>(&self, node: &'n SyntaxNode, elem_list: &'n SyntaxNode)
        -> (r: (Vec<String>, Vec<Grouped<'n>>))
        ensures
            r.1@.len() == non_comments(flat_items(*elem_list, elem_list.kind@)).len(),
    {
        let raw = flatten_list(elem_list, elem_list.kind.as_str());
        let (group_leading, mut grouped) = self.group_table_elements(&raw);
        let ghost n0 = grouped@.len();
        proof { assert(grouped_nodes(grouped@).len() == n0); }
        let list_start = elem_list.start;
        let mut close_paren = node.end;
        let mut i: usize = 0;
        while i < node.children.len()
            decreases node.children.len() - i,
        {
            if node.children[i].is(")") {
                close_paren = node.children[i].start;
                break;
            }
            i += 1;
        }
        let mut before_list: Vec<String> = Vec::new();
        let named = node.named_children();
        let mut k: usize = 0;
        while k < named.len()
            invariant
                grouped@.len() == n0,
            decreases named.len() - k,
        {
            let child = named[k];
            k += 1;
            if !child.is("comment") {
                continue;
            }
            let t = self.text(child);
            let text = trim_end(t.as_str());
            if child.start < list_start {
                before_list.push(text);
            } else if child.start < close_paren {
                let n = grouped.len();
                if n > 0 {
                    let mut last = grouped.pop().unwrap();
                    last.comments.push(text);
                    grouped.push(last);
                } else {
                    before_list.push(text);
                }
            }
        }
        let mut leading = before_list;
        let mut gl = group_leading;
        leading.append(&mut gl);
        (leading, grouped)
    }

    /// Grouped table elements, left-aligned, with trailing commas and their
    /// comments.
    pub(crate) fn render_grouped_elements_left_aligned(&self, grouped: &Vec<Grouped>, indent: &str, b: usize)
        -> (r: Vec<String>)
        ensures
            b > 0 ==> r@.len() >= grouped@.len(),
        decreases b,
    {
        let mut lines: Vec<String> = Vec::new();
        if b == 0 {
            return lines;
        }
        let total = grouped.len();
        let mut i: usize = 0;
        while i < grouped.len()
            invariant
                lines@.len() >= i,
            decreases grouped.len() - i,
        {
            let elem = self.format_table_element(grouped[i].node, b - 1);
            let comma = if i + 1 < total { "," } else { "" };
            let line = concat(&[indent, elem.as_str(), comma]);
            let comments = &grouped[i].comments;
            if comments.len() > 0 {
                lines.push(concat(&[line.as_str(), " ", comments[0].as_str()]));
                let mut x: usize = 1;
                while x < comments.len()
                    invariant
                        lines@.len() >= i + 1,
                    decreases comments.len() - x,
                {
                    lines.push(concat(&[indent, comments[x].as_str()]));
                    x += 1;
                }
            } else {
                lines.push(line);
            }
            i += 1;
        }
        lines
    }

    /// The constraint texts of a column definition.
    pub(crate) fn column_constraints(&self, col: &SyntaxNode, b: usize) -> (r: Vec<String>)
        ensures
            b == 0 ==> r@.len() == 0,
            b > 0 ==> r@.len() == (if first_kid(*col, "create_generic_options"@) is Some { 1nat } else { 0nat })
                + match first_kid(*col, "ColQualList"@) {
                    Some(q) => kind_count(flat_items(q, "ColQualList"@), "ColConstraint"@),
                    None => 0nat,
                },
        decreases b,
    {
        let mut parts: Vec<String> = Vec::new();
        if b == 0 {
            return parts;
        }
        if let Some(opts) = col.find_child("create_generic_options") {
            proof { lemma_found_kid(*col, "create_generic_options"@, *opts); }
            parts.push(self.format_col_generic_options_inline(opts, b - 1));
        } else {
            proof { lemma_no_kid(*col, "create_generic_options"@); }
        }
        let ghost p0 = parts@.len();
        if let Some(qual_list) = col.find_child("ColQualList") {
            proof { lemma_found_kid(*col, "ColQualList"@, *qual_list); }
            let constraints = flatten_list(qual_list, "ColQualList");
            let ghost fs = flat_items(*qual_list, "ColQualList"@);
            proof { assert(fs.take(0) =~= Seq::<SyntaxNode>::empty()); }
            let mut k: usize = 0;
            while k < constraints.len()
                invariant
                    k <= constraints@.len(),
                    node_views(constraints@) == fs,
                    parts@.len() == p0 + kind_count(fs.take(k as int), "ColConstraint"@),
                decreases constraints.len() - k,
            {
                proof {
                    assert(fs.take(k + 1).drop_last() =~= fs.take(k as int));
                    assert(fs.take(k + 1).last() == *constraints@[k as int]);
                }
                if constraints[k].is("ColConstraint") {
                    parts.push(self.format_col_constraint(constraints[k], b - 1));
                }
                k += 1;
            }
            proof { assert(fs.take(constraints@.len() as int) =~= fs); }
        } else {
            proof { lemma_no_kid(*col, "ColQualList"@); }
        }
        parts
    }

    /// Classify a table element for the river layout, by its inner child
    /// (so a TypedTableElement classifies like a TableElement).
    pub(crate) fn classify_table_element(&self, node: &SyntaxNode, b: usize) -> (r: TableElementKind)
        ensures
            b == 0 ==> (r matches TableElementKind::Constraint(n, t) && n is None && t@ == node_text(self.chars@, *node)),
            b > 0 && first_kid(*node, "columnDef"@) is Some ==> r is Column,
            b > 0 && first_kid(*node, "columnDef"@) is None && first_kid(*node, "TableConstraint"@) is None
                ==> (r matches TableElementKind::Constraint(n, _) && n is None),
        decreases b,
    {
        if b == 0 {
            return TableElementKind::Constraint(None, self.text(node));
        }
        let d = b - 1;
        let found_col = node.find_child("columnDef");
        proof {
            if found_col is Some { lemma_found_kid(*node, "columnDef"@, *found_col.unwrap()); }
            else { lemma_no_kid(*node, "columnDef"@); }
        }
        if let Some(col) = found_col {
            let name = match col.find_child("ColId") {
                Some(n) => self.format_col_id(n, d),
                None => String::new(),
            };
            let typename = match col.find_child("Typename") {
                Some(n) => self.format_typename(n, d),
                None => String::new(),
            };
            let constraint_parts = self.column_constraints(col, d);
            return TableElementKind::Column(name, typename, join(&constraint_parts, " "));
        }
        if let Some(constraint) = node.find_child("TableConstraint") {
            proof { lemma_found_kid(*node, "TableConstraint"@, *constraint); }
            return self.classify_table_constraint(constraint, d);
        } else {
            proof { lemma_no_kid(*node, "TableConstraint"@); }
        }
        if let Some(like) = node.find_child("TableLikeClause") {
            return TableElementKind::Constraint(None, self.render_clause_inline(like, d));
        }
        if let Some(opts) = node.find_child("columnOptions") {
            return TableElementKind::Constraint(None, self.render_clause_inline(opts, d));
        }
        let t = self.text(node);
        TableElementKind::Constraint(None, normalize(t.as_str()))
    }

    pub(crate) fn classify_table_constraint(&self, node: &SyntaxNode, b: usize) -> (r: TableElementKind)
        ensures
            b == 0 ==> (r matches TableElementKind::Constraint(n, t) && n is None && t@ == node_text(self.chars@, *node)),
            b > 0 ==> match first_kid(*node, "ConstraintElem"@) {
                Some(e) => if crate::plpgsql::holds_kind(e, "kw_primary"@) {
                    r is PrimaryKey
                } else {
                    r matches TableElementKind::Constraint(n, _) && (n is Some <==> first_kid(*node, "name"@) is Some)
                },
                None => r matches TableElementKind::Constraint(n, t) && t@ == node_text(self.chars@, *node)
                    && (n is Some <==> first_kid(*node, "name"@) is Some),
            },
        decreases b,
    {
        if b == 0 {
            return TableElementKind::Constraint(None, self.text(node));
        }
        let d = b - 1;
        let constraint_name = match node.find_child("name") {
            Some(n) => {
                proof { lemma_found_kid(*node, "name"@, *n); }
                Some(self.format_expr(n, d))
            },
            None => {
                proof { lemma_no_kid(*node, "name"@); }
                None
            },
        };
        let found_elem = node.find_child("ConstraintElem");
        proof {
            if found_elem is Some { lemma_found_kid(*node, "ConstraintElem"@, *found_elem.unwrap()); }
            else { lemma_no_kid(*node, "ConstraintElem"@); }
        }
        if let Some(elem) = found_elem {
            let is_pk = elem.has_child("kw_primary");
            let formatted = self.format_constraint_elem(elem, d);
            if is_pk {
                return match constraint_name {
                    Some(cname) => {
                        let c = self.kw("CONSTRAINT");
                        TableElementKind::PrimaryKey(concat(&[c.as_str(), " ", cname.as_str(), " ", formatted.as_str()]))
                    },
                    None => TableElementKind::PrimaryKey(formatted),
                };
            }
            return TableElementKind::Constraint(constraint_name, formatted);
        }
        TableElementKind::Constraint(constraint_name, self.text(node))
    }

    /// Format a table element by its inner child.
    pub(crate) fn format_table_element(&self, node: &SyntaxNode, b: usize) -> (r: String)
        ensures
            b == 0 ==> r@ == node_text(self.chars@, *node),
            b > 0 && first_kid(*node, "columnDef"@) is None && first_kid(*node, "TableConstraint"@) is None
                && first_kid(*node, "TableLikeClause"@) is None && first_kid(*node, "columnOptions"@) is None
                && node_text(self.chars@, *node).len() < usize::MAX
                ==> r@ == crate::lexical::collapsed(node_text(self.chars@, *node)),
        decreases b,
    {
        if b == 0 {
            return self.text(node);
        }
        let d = b - 1;
        if let Some(col) = node.find_child("columnDef") {
            proof { lemma_found_kid(*node, "columnDef"@, *col); }
            return self.format_column_def(col, d);
        } else {
            proof { lemma_no_kid(*node, "columnDef"@); }
        }
        if let Some(constraint) = node.find_child("TableConstraint") {
            proof { lemma_found_kid(*node, "TableConstraint"@, *constraint); }
            return self.format_table_constraint(constraint, d);
        } else {
            proof { lemma_no_kid(*node, "TableConstraint"@); }
        }
        if let Some(like) = node.find_child("TableLikeClause") {
            proof { lemma_found_kid(*node, "TableLikeClause"@, *like); }
            return self.render_clause_inline(like, d);
        } else {
            proof { lemma_no_kid(*node, "TableLikeClause"@); }
        }
        if let Some(opts) = node.find_child("columnOptions") {
            proof { lemma_found_kid(*node, "columnOptions"@, *opts); }
            return self.render_clause_inline(opts, d);
        } else {
            proof { lemma_no_kid(*node, "columnOptions"@); }
        }
        let t = self.text(node);
        normalize(t.as_str())
    }

    pub(crate) fn format_column_def(&self, node: &SyntaxNode, b: usize) -> (r: String)
        ensures
            b == 0 ==> r@ == node_text(self.chars@, *node),
            b > 1 ==> exists|ps: Seq<Seq<char>>| ps.len() == 2
                + (if first_kid(*node, "create_generic_options"@) is Some { 1nat } else { 0nat })
                + match first_kid(*node, "ColQualList"@) {
                    Some(q) => kind_count(flat_items(q, "ColQualList"@), "ColConstraint"@),
                    None => 0nat,
                }
                && (first_kid(*node, "ColId"@) is None ==> ps[0].len() == 0)
                && (first_kid(*node, "Typename"@) is None ==> ps[1].len() == 0)
                && r@ == join_with(nonempty_texts(ps), " "@),
        decreases b,
    {
        if b == 0 {
            return self.text(node);
        }
        let d = b - 1;
        let name = match node.find_child("ColId") {
            Some(n) => self.format_col_id(n, d),
            None => {
                proof { lemma_no_kid(*node, "ColId"@); }
                String::new()
            },
        };
        let typename = match node.find_child("Typename") {
            Some(n) => self.format_typename(n, d),
            None => {
                proof { lemma_no_kid(*node, "Typename"@); }
                String::new()
            },
        };
        let mut parts: Vec<String> = Vec::new();
        parts.push(name);
        parts.push(typename);
        let mut rest = self.column_constraints(node, d);
        parts.append(&mut rest);
        let r = join_nonempty(&parts, " ");
        proof {
            assert(string_views(parts@).len() == parts@.len());
            assert(string_views(parts@)[0] == parts@[0]@);
            assert(string_views(parts@)[1] == parts@[1]@);
        }
        r
    }

    pub(crate) fn format_col_constraint(&self, node: &SyntaxNode, b: usize) -> (r: String)
        ensures
            b == 0 ==> r@ == node_text(self.chars@, *node),
            b > 0 && first_kid(*node, "ColConstraintElem"@) is Some ==> exists|ps: Seq<Seq<char>>|
                ps.len() == (if crate::plpgsql::holds_kind(*node, "kw_constraint"@) && first_kid(*node, "name"@) is Some {
                    3nat } else { 1nat })
                && (ps.len() == 3 ==> ps[0] == cased(self.config, "CONSTRAINT"@))
                && r@ == join_with(nonempty_texts(ps), " "@),
        decreases b,
    {
        if b == 0 {
            return self.text(node);
        }
        let d = b - 1;
        // CONSTRAINT <name> <elem> or a bare <elem> carry a
        // ColConstraintElem; the other forms are flat keyword clauses.
        let elem = match node.find_child("ColConstraintElem") {
            Some(e) => e,
            None => {
                proof { lemma_no_kid(*node, "ColConstraintElem"@); }
                return self.render_clause_inline(node, d);
            },
        };
        let mut parts: Vec<String> = Vec::new();
        if node.has_child("kw_constraint") {
            if let Some(name) = node.find_child("name") {
                proof { lemma_found_kid(*node, "name"@, *name); }
                parts.push(self.kw("CONSTRAINT"));
                parts.push(self.format_expr(name, d));
            } else {
                proof { lemma_no_kid(*node, "name"@); }
            }
        }
        parts.push(self.format_col_constraint_elem(elem, d));
        let r = join_nonempty(&parts, " ");
        proof { assert(string_views(parts@).len() == parts@.len()); }
        r
    }

    pub(crate) fn format_col_constraint_elem(&self, node: &SyntaxNode, b: usize) -> (r: String)
        decreases b,
    {
        if b == 0 {
            return self.text(node);
        }
        let d = b - 1;
        let mut parts: Vec<String> = Vec::new();
        let mut has_check = false;
        // GENERATED ... AS (expr) keeps its parentheses; only the IDENTITY
        // form has no expression.
        let generated_expr = node.has_child("kw_generated") && !node.has_child("kw_identity");
        let named = node.named_children();
        let mut k: usize = 0;
        while k < named.len()
            decreases named.len() - k,
        {
            let child = named[k];
            k += 1;
            if child.is("kw_not") {
                parts.push(self.kw("NOT"));
            } else if child.is("kw_null") {
                parts.push(self.kw("NULL"));
            } else if child.is("kw_primary") {
                parts.push(self.kw("PRIMARY"));
            } else if child.is("kw_key") {
                parts.push(self.kw("KEY"));
            } else if child.is("kw_unique") {
                parts.push(self.kw("UNIQUE"));
            } else if child.is("kw_default") {
                parts.push(self.kw("DEFAULT"));
            } else if child.is("kw_check") {
                has_check = true;
                parts.push(self.kw("CHECK"));
            } else if child.is("kw_references") {
                parts.push(self.kw("REFERENCES"));
            } else if child.is_any(&["a_expr", "c_expr", "b_expr"]) {
                // A CHECK or generated expression needs one pair of parens,
                // added only where it is not already wrapped in one.
                let expr = self.format_expr(child, d);
                if (has_check || generated_expr) && !is_wrapped_in_parens(expr.as_str()) {
                    parts.push(concat(&["(", expr.as_str(), ")"]));
                } else {
                    parts.push(expr);
                }
            } else if child.kind_starts_with("kw_") {
                parts.push(self.format_keyword_node(child));
            } else {
                parts.push(self.render_clause_inline(child, d));
            }
        }
        join_nonempty(&parts, " ")
    }

    pub(crate) fn format_table_constraint(&self, node: &SyntaxNode, b: usize) -> (r: String)
        ensures
            b == 0 ==> r@ == node_text(self.chars@, *node),
            b > 0 ==> exists|ps: Seq<Seq<char>>|
                ps.len() == (if first_kid(*node, "name"@) is Some { 2nat } else { 0nat })
                    + (if first_kid(*node, "ConstraintElem"@) is Some { 1nat } else { 0nat })
                && (first_kid(*node, "name"@) is Some ==> ps[0] == cased(self.config, "CONSTRAINT"@))
                && r@ == join_with(nonempty_texts(ps), " "@),
        decreases b,
    {
        if b == 0 {
            return self.text(node);
        }
        let d = b - 1;
        let mut parts: Vec<String> = Vec::new();
        if let Some(name) = node.find_child("name") {
            proof { lemma_found_kid(*node, "name"@, *name); }
            parts.push(self.kw("CONSTRAINT"));
            parts.push(self.format_expr(name, d));
        } else {
            proof { lemma_no_kid(*node, "name"@); }
        }
        if let Some(elem) = node.find_child("ConstraintElem") {
            proof { lemma_found_kid(*node, "ConstraintElem"@, *elem); }
            parts.push(self.format_constraint_elem(elem, d));
        } else {
            proof { lemma_no_kid(*node, "ConstraintElem"@); }
        }
        let r = join_nonempty(&parts, " ");
        proof { assert(string_views(parts@).len() == parts@.len()); }
        r
    }

    pub(crate) fn format_constraint_elem(&self, node: &SyntaxNode, b: usize) -> (r: String)
        decreases b,
    {
        if b == 0 {
            return self.text(node);
        }
        let d = b - 1;
        let mut parts: Vec<String> = Vec::new();
        let mut has_check = false;
        let mut i: usize = 0;
        while i < node.children.len()
            decreases node.children.len() - i,
        {
            let child = &node.children[i];
            i += 1;
            if !child.named {
                continue;
            }
            if child.is("kw_primary") {
                parts.push(self.kw("PRIMARY"));
            } else if child.is("kw_key") {
                parts.push(self.kw("KEY"));
            } else if child.is("kw_unique") {
                parts.push(self.kw("UNIQUE"));
            } else if child.is("kw_check") {
                has_check = true;
                parts.push(self.kw("CHECK"));
            } else if child.is("kw_foreign") {
                parts.push(self.kw("FOREIGN"));
            } else if child.is("kw_references") {
                parts.push(self.kw("REFERENCES"));
            } else if child.is("columnList") {
                let items = flatten_list(child, "columnList");
                let mut formatted = self.format_each(&items, d);
                // WITHOUT OVERLAPS qualifies the last key column, inside the
                // parens.
                if let Some(wo) = node.find_child("opt_without_overlaps") {
                    if formatted.len() > 0 {
                        let w = self.render_clause_inline(wo, d);
                        let tail = concat(&[" ", w.as_str()]);
                        append_last(&mut formatted, tail.as_str());
                    }
                }
                let mut rendered = join(&formatted, ", ");
                // FOREIGN KEY (cols, PERIOD name): the period carries its own
                // leading comma, inside the parens.
                if let Some(period) = node.find_child("optionalPeriodName") {
                    let p = self.render_clause_inline(period, d);
                    push_str(&mut rendered, p.as_str());
                }
                parts.push(concat(&["(", rendered.as_str(), ")"]));
            } else if child.is("opt_without_overlaps") || child.is("optionalPeriodName") {
            } else if child.is("ExclusionConstraintList") {
                let e = self.render_clause_inline(child, d);
                parts.push(concat(&["(", e.as_str(), ")"]));
            } else if child.is("a_expr") || child.is("c_expr") {
                let e = self.format_expr(child, d);
                let expr_text = concat(&["(", e.as_str(), ")"]);
                if has_check && self.config.river {
                    // River style: CHECK(expr) without a space.
                    append_last(&mut parts, expr_text.as_str());
                } else {
                    parts.push(expr_text);
                }
            } else if child.kind_starts_with("kw_") {
                parts.push(self.format_keyword_node(child));
            } else {
                parts.push(self.render_clause_inline(child, d));
            }
        }
        join_nonempty(&parts, " ")
    }

    // CREATE VIEW.

    pub(crate) fn format_view_stmt(&self, node: &SyntaxNode, b: usize) -> (r: String)
        ensures
            b > 0 ==> has_prefix(r@, cased(self.config, "CREATE"@) + seq![' ']),
        decreases b,
    {
        if b == 0 {
            return self.text(node);
        }
        let d = b - 1;
        let mut head: Vec<String> = Vec::new();
        let c = self.kw("CREATE");
        let ghost lead = c@ + seq![' '];
        let ghost create = c@;
        head.push(c);
        if node.has_child("kw_or") && node.has_child("kw_replace") {
            head.push(self.kw("OR"));
            head.push(self.kw("REPLACE"));
        }
        if let Some(temp) = node.find_child("OptTemp") {
            let t = self.text(temp);
            let w = normalize(t.as_str());
            head.push(self.kw(w.as_str()));
        }
        if node.has_child("kw_recursive") {
            head.push(self.kw("RECURSIVE"));
        }
        head.push(self.kw("VIEW"));
        let mut prefix = join(&head, " ");
        proof {
            reveal_strlit(" ");
            assert(head@[0]@ == create);
            assert(string_views(head@)[0] == create);
            assert(" "@ == seq![' ']);
            lemma_join_leads(string_views(head@), " "@);
        }
        let name_node = match node.find_child("qualified_name") {
            Some(n) => Some(n),
            None => node.find_child("view_name"),
        };
        let name = match name_node {
            Some(n) => self.format_qualified_name(n, d),
            None => String::new(),
        };
        let ext = [prefix.as_str(), " ", name.as_str()];
        let longer = concat(&ext);
        proof {
            lemma_concat_starts_with_first(ext@);
            lemma_prefix_trans(longer@, prefix@, lead);
        }
        prefix = longer;
        // Column names: a RECURSIVE view needs them; a plain view nests them
        // under opt_column_list.
        let columns = match node.find_child("columnList") {
            Some(c) => Some(c),
            None => match node.find_child("opt_column_list") {
                Some(n) => n.find_child("columnList"),
                None => None,
            },
        };
        if let Some(columns) = columns {
            let c = self.render_clause_inline(columns, d);
            let ext = [prefix.as_str(), " (", c.as_str(), ")"];
            let longer = concat(&ext);
            proof {
                lemma_concat_starts_with_first(ext@);
                lemma_prefix_trans(longer@, prefix@, lead);
            }
            prefix = longer;
        }
        // WITH (security_barrier, check_option = ...).
        if let Some(options) = node.find_child("opt_reloptions") {
            let o = self.render_clause_inline(options, d);
            if !o.as_str().is_empty() {
                let ext = [prefix.as_str(), " ", o.as_str()];
                let longer = concat(&ext);
                proof {
                    lemma_concat_starts_with_first(ext@);
                    lemma_prefix_trans(longer@, prefix@, lead);
                }
                prefix = longer;
            }
        }
        let as_kw = self.kw("AS");
        let ext = [prefix.as_str(), " ", as_kw.as_str()];
        let longer = concat(&ext);
        proof {
            lemma_concat_starts_with_first(ext@);
            lemma_prefix_trans(longer@, prefix@, lead);
        }
        prefix = longer;
        // WITH [CASCADED | LOCAL] CHECK OPTION.
        let check_option = match node.find_child("opt_check_option") {
            Some(n) => {
                let t = self.render_clause_inline(n, d);
                if t.as_str().is_empty() { String::new() } else { concat(&["\n", t.as_str()]) }
            },
            None => String::new(),
        };
        match node.find_child("SelectStmt") {
            Some(select) => {
                let body = self.format_select_stmt(select, d);
                let body = strip_trailing(body.as_str(), ';');
                let all = [prefix.as_str(), "\n", body.as_str(), check_option.as_str()];
                let r = concat(&all);
                proof {
                    lemma_concat_starts_with_first(all@);
                    lemma_prefix_trans(r@, prefix@, lead);
                }
                r
            },
            None => prefix,
        }
    }

    // CREATE TABLE AS / CREATE MATERIALIZED VIEW.

    pub(crate) fn format_create_table_as_stmt(&self, node: &SyntaxNode, b: usize) -> (r: String)
        ensures
            b == 0 ==> r@ == node_text(self.chars@, *node),
            b > 0 ==> exists|head: Seq<char>, body: Seq<char>, tail: Seq<char>|
                r@ == head + "\n"@ + body + tail && has_suffix(head, cased(self.config, "AS"@))
                && (first_kid(*node, "opt_with_data"@) is None ==> tail.len() == 0),
        decreases b,
    {
        if b == 0 {
            return self.text(node);
        }
        let d = b - 1;
        // Everything before AS, in order.
        let mut prefix_parts: Vec<String> = Vec::new();
        let mut i: usize = 0;
        while i < node.children.len()
            decreases node.children.len() - i,
        {
            let child = &node.children[i];
            i += 1;
            if child.is("kw_as") {
                break;
            }
            let piece = self.render_clause_inline(child, d);
            if !piece.as_str().is_empty() {
                prefix_parts.push(piece);
            }
        }
        prefix_parts.push(self.kw("AS"));
        let prefix = join(&prefix_parts, " ");
        let mut body = String::new();
        if let Some(select) = node.find_child("SelectStmt") {
            body = self.format_select_stmt(select, d);
        } else if let Some(query) = node.find_child("create_as_target") {
            if let Some(select) = query.find_child("SelectStmt") {
                body = self.format_select_stmt(select, d);
            }
        }
        let body = strip_trailing(body.as_str(), ';');
        // WITH [NO] DATA.
        let suffix = match node.find_child("opt_with_data") {
            Some(n) => {
                let t = self.render_clause_inline(n, d);
                if t.as_str().is_empty() { String::new() } else { concat(&["\n", t.as_str()]) }
            },
            None => {
                proof { lemma_no_kid(*node, "opt_with_data"@); }
                String::new()
            },
        };
        let r = concat(&[prefix.as_str(), "\n", body.as_str(), suffix.as_str()]);
        proof {
            reveal_with_fuel(crate::strs::concat_views, 5);
            assert(r@ =~= prefix@ + "\n"@ + body@ + suffix@);
            crate::strs::lemma_join_ends_with_last(string_views(prefix_parts@), " "@);
        }
        r
    }

    // CREATE FUNCTION.

    pub(crate) fn format_create_function_stmt(&self, node: &SyntaxNode, b: usize) -> (r: String)
        ensures
            b > 0 ==> has_prefix(r@, cased(self.config, "CREATE"@) + seq![' ']),
        decreases b,
    {
        if b == 0 {
            return self.text(node);
        }
        let d = b - 1;
        let mut parts: Vec<String> = Vec::new();
        let mut header: Vec<String> = Vec::new();
        let c = self.kw("CREATE");
        let ghost create = c@;
        let ghost lead = c@ + seq![' '];
        header.push(c);
        if node.has_child("opt_or_replace") {
            header.push(self.kw("OR"));
            header.push(self.kw("REPLACE"));
        }
        if node.has_child("kw_procedure") {
            header.push(self.kw("PROCEDURE"));
        } else {
            header.push(self.kw("FUNCTION"));
        }
        let func_name = match node.find_child("func_name") {
            Some(n) => self.format_func_name(n, d),
            None => String::new(),
        };
        header.push(func_name);
        if let Some(args) = node.find_child("func_args_with_defaults") {
            let args_text = self.format_func_args(args);
            append_last(&mut header, args_text.as_str());
        }
        // RETURNS type, or RETURNS TABLE (...).
        if let Some(ret) = node.find_child("func_return") {
            let ret_type = self.format_func_return(ret, d);
            let r = self.kw("RETURNS");
            header.push(concat(&[r.as_str(), " ", ret_type.as_str()]));
        } else if let Some(cols) = node.find_child("table_func_column_list") {
            let items = flatten_list(cols, "table_func_column_list");
            let mut formatted: Vec<String> = Vec::new();
            let mut k: usize = 0;
            while k < items.len()
                decreases items.len() - k,
            {
                formatted.push(self.render_clause_inline(items[k], d));
                k += 1;
            }
            let r = self.kw("RETURNS");
            let t = self.kw("TABLE");
            let f = join(&formatted, ", ");
            header.push(concat(&[r.as_str(), " ", t.as_str(), " (", f.as_str(), ")"]));
        }
        let first = join(&header, " ");
        proof {
            reveal_strlit(" ");
            assert(header@[0]@ == create);
            assert(string_views(header@)[0] == create);
            assert(" "@ == seq![' ']);
            lemma_join_leads(string_views(header@), " "@);
        }
        // Options: LANGUAGE, AS, and the rest.
        let named = node.named_children();
        let mut k: usize = 0;
        while k < named.len()
            decreases named.len() - k,
        {
            let child = named[k];
            k += 1;
            if child.is("opt_createfunc_opt_list") || child.is("createfunc_opt_list") {
                self.format_createfunc_opts(child, &mut parts, node, d);
            } else if child.is("opt_routine_body") {
                parts.push(self.format_routine_body(child, d));
            }
        }
        parts.insert(0, first);
        let sep = concat(&["\n", self.config.indent]);
        let r = join(&parts, sep.as_str());
        proof {
            lemma_join_starts_with_first(string_views(parts@), sep@);
            lemma_prefix_trans(r@, parts@[0]@, lead);
        }
        r
    }

    /// The function arguments, whitespace normalized.
    pub(crate) fn format_func_args(&self, node: &SyntaxNode) -> (r: String)
        ensures
            node_text(self.chars@, *node).len() < usize::MAX
                ==> r@ == crate::lexical::collapsed(node_text(self.chars@, *node)),
    {
        let text = self.text(node);
        normalize(text.as_str())
    }

    pub(crate) fn format_func_return(&self, node: &SyntaxNode, b: usize) -> (r: String)
        ensures
            b == 0 ==> r@ == node_text(self.chars@, *node),
            b > 0 && !(exists|i: int| 0 <= i < node.children@.len() && #[trigger] node.children@[i].named
                && node.children@[i].kind@ == "func_type"@) ==> r@ == trim_of(node_text(self.chars@, *node)),
        decreases b,
    {
        if b == 0 {
            return self.text(node);
        }
        if let Some(ft) = node.find_child("func_type") {
            if let Some(tn) = ft.find_child("Typename") {
                return self.format_typename(tn, b - 1);
            }
        }
        self.trimmed_text(node)
    }

    pub(crate) fn format_createfunc_opts(&self, node: &SyntaxNode, parts: &mut Vec<String>, func: &SyntaxNode, b: usize)
        decreases b,
    {
        if b == 0 {
            return;
        }
        let named = node.named_children();
        let mut k: usize = 0;
        while k < named.len()
            decreases named.len() - k,
        {
            let child = named[k];
            k += 1;
            if child.is("createfunc_opt_item") {
                self.format_createfunc_opt_item(child, parts, Some(func), b - 1);
            } else if child.is("createfunc_opt_list") {
                self.format_createfunc_opts(child, parts, func, b - 1);
            }
        }
    }

    /// The LANGUAGE of the function `func`, lower-cased and unquoted: the
    /// first LANGUAGE option met in a depth-first walk that takes the last
    /// child first.
    pub(crate) fn function_language(&self, func: Option<&SyntaxNode>) -> (r: Option<String>) {
        let top = match func {
            Some(f) => f,
            None => { return None; },
        };
        let mut stack: Vec<&SyntaxNode> = Vec::new();
        stack.push(top);
        let mut steps: usize = 0;
        while stack.len() > 0 && steps < usize::MAX
            decreases usize::MAX - steps,
        {
            steps += 1;
            let node = stack.pop().unwrap();
            if node.is("createfunc_opt_item") && node.has_child("kw_language") {
                if let Some(lang) = node.find_child("NonReservedWord_or_Sconst") {
                    let t = self.text(lang);
                    let unq = strip_quotes(t.as_str());
                    return Some(to_lower(unq.as_str()));
                }
            }
            let named = node.named_children();
            let mut k: usize = 0;
            while k < named.len()
                decreases named.len() - k,
            {
                stack.push(named[k]);
                k += 1;
            }
        }
        None
    }

    pub(crate) fn format_createfunc_opt_item(&self, node: &SyntaxNode, parts: &mut Vec<String>, func: Option<&SyntaxNode>, b: usize)
        ensures
            final(parts)@.len() <= old(parts)@.len() + 1,
            forall|k: int| 0 <= k < old(parts)@.len() ==> final(parts)@[k] == old(parts)@[k],
            b == 0 ==> final(parts)@ == old(parts)@,
            b > 0 && crate::plpgsql::holds_kind(*node, "kw_language"@) ==> match first_kid(*node, "NonReservedWord_or_Sconst"@) {
                Some(l) => final(parts)@.len() == old(parts)@.len() + 1
                    && final(parts)@.last()@ == cased(self.config, "LANGUAGE"@) + " "@ + node_text(self.chars@, l),
                None => final(parts)@ == old(parts)@,
            },
            b > 0 && !crate::plpgsql::holds_kind(*node, "kw_language"@) && first_kid(*node, "func_as"@) is Some
                ==> final(parts)@.len() == old(parts)@.len() + 1
                    && has_prefix(final(parts)@.last()@, cased(self.config, "AS"@) + " "@),
        decreases b,
    {
        if b == 0 {
            return;
        }
        let d = b - 1;
        if node.has_child("kw_language") {
            if let Some(lang) = node.find_child("NonReservedWord_or_Sconst") {
                proof { lemma_found_kid(*node, "NonReservedWord_or_Sconst"@, *lang); }
                let l = self.kw("LANGUAGE");
                let t = self.text(lang);
                let line = concat(&[l.as_str(), " ", t.as_str()]);
                proof { reveal_with_fuel(crate::strs::concat_views, 4); assert(line@ =~= l@ + " "@ + t@); }
                parts.push(line);
            } else {
                proof { lemma_no_kid(*node, "NonReservedWord_or_Sconst"@); }
            }
            return;
        }
        let ghost as_lead = cased(self.config, "AS"@) + " "@;
        if let Some(child) = node.find_child("func_as") {
            // AS $$ ... $$: line breaks in the body stay, since collapsing
            // them would change what a `--` comment covers.
            let text = self.trimmed_text(child);
            let as_kw = self.kw("AS");
            let parsed = if char_count(text.as_str()) < usize::MAX { parse_dollar_quoted(text.as_str()) } else { None };
            match parsed {
                Some((tag, body)) => {
                    // The body is a string constant; it is laid out anew only
                    // in SQL or PL/pgSQL and only where no string in it spans
                    // a line.
                    let lang_ok = match self.function_language(func) {
                        Some(l) => same(l.as_str(), "sql") || same(l.as_str(), "plpgsql"),
                        None => false,
                    };
                    let relayout = lang_ok && char_count(body.as_str()) < usize::MAX - 1
                        && layout_is_safe(body.as_str());
                    if !relayout {
                        let line = concat(&[as_kw.as_str(), " ", text.as_str()]);
                        proof {
                            reveal_with_fuel(crate::strs::concat_views, 9);
                            assert(line@.take(as_lead.len() as int) =~= as_lead);
                        }
                        parts.push(line);
                    } else if contains(body.as_str(), "\n") {
                        let re = if fits(body.as_str()) { reindent_body(body.as_str(), " ") } else { None };
                        match re {
                            Some(body) => {
                                let line = concat(&[as_kw.as_str(), " ", tag.as_str(), "\n", body.as_str(), "\n", tag.as_str()]);
                                proof {
                                    reveal_with_fuel(crate::strs::concat_views, 9);
                                    assert(line@.take(as_lead.len() as int) =~= as_lead);
                                }
                                parts.push(line);
                            },
                            None => {
                                let line = concat(&[as_kw.as_str(), " ", text.as_str()]);
                                proof {
                                    reveal_with_fuel(crate::strs::concat_views, 9);
                                    assert(line@.take(as_lead.len() as int) =~= as_lead);
                                }
                                parts.push(line);
                            },
                        }
                    } else {
                        let body = normalize(body.as_str());
                        let line = concat(&[as_kw.as_str(), " ", tag.as_str(), "\n ", body.as_str(), "\n", tag.as_str()]);
                        proof {
                            reveal_with_fuel(crate::strs::concat_views, 9);
                            assert(line@.take(as_lead.len() as int) =~= as_lead);
                        }
                        parts.push(line);
                    }
                },
                None => {
                    let line = concat(&[as_kw.as_str(), " ", text.as_str()]);
                    proof {
                        reveal_with_fuel(crate::strs::concat_views, 9);
                        assert(line@.take(as_lead.len() as int) =~= as_lead);
                    }
                    parts.push(line);
                },
            }
            return;
        } else {
            proof { lemma_no_kid(*node, "func_as"@); }
        }
        // WINDOW, STRICT, IMMUTABLE/STABLE/VOLATILE, SECURITY, LEAKPROOF,
        // NULL INPUT, COST, ROWS, SUPPORT, PARALLEL, SET/RESET: flat keyword
        // clauses, rendered inline.
        let text = self.render_clause_inline(node, d);
        if !text.as_str().is_empty() {
            parts.push(text);
        }
    }

    /// A SQL-standard routine body: `RETURN expr`, or `BEGIN ATOMIC ... END`
    /// with one statement per line. The first line is left unindented (the
    /// option join supplies its indent); every later line carries its own.
    pub(crate) fn format_routine_body(&self, node: &SyntaxNode, b: usize) -> (r: String)
        ensures
            b == 0 ==> r@ == node_text(self.chars@, *node),
            b > 0 && first_kid(*node, "ReturnStmt"@) is None ==> has_prefix(r@,
                cased(self.config, "BEGIN"@) + seq![' '] + cased(self.config, "ATOMIC"@))
                && has_suffix(r@, self.config.indent@ + cased(self.config, "END"@)),
        decreases b,
    {
        if b == 0 {
            return self.text(node);
        }
        let d = b - 1;
        if let Some(ret) = node.find_child("ReturnStmt") {
            return self.render_clause_inline(ret, d);
        } else {
            proof { lemma_no_kid(*node, "ReturnStmt"@); }
        }
        let indent = self.config.indent;
        let mut lines: Vec<String> = Vec::new();
        let ba = self.kw_pair("BEGIN", "ATOMIC");
        let ghost lead = ba@;
        proof { crate::strs::lemma_prefix_self(lead); }
        lines.push(ba);
        if let Some(list) = node.find_child("routine_body_stmt_list") {
            let stmts = flatten_list(list, "routine_body_stmt_list");
            let mut k: usize = 0;
            while k < stmts.len()
                invariant
                    lines@.len() >= 1,
                    has_prefix(lines@[0]@, lead),
                decreases stmts.len() - k,
            {
                let stmt = stmts[k];
                k += 1;
                if !stmt.is("routine_body_stmt") {
                    continue;
                }
                let first = match stmt.first_named_child() {
                    Some(f) => f,
                    None => { continue; },
                };
                // routine_body_stmt wraps a `stmt`, which wraps the statement.
                let inner = if first.is("stmt") {
                    match first.first_named_child() {
                        Some(u) => u,
                        None => first,
                    }
                } else {
                    first
                };
                let body = if inner.is("SelectStmt") {
                    self.format_select_stmt(inner, d)
                } else if inner.is("InsertStmt") {
                    self.format_insert_stmt(inner, d)
                } else if inner.is("UpdateStmt") {
                    self.format_update_stmt(inner, d)
                } else if inner.is("DeleteStmt") {
                    self.format_delete_stmt(inner, d)
                } else {
                    let t = self.text(inner);
                    normalize(t.as_str())
                };
                let body = strip_trailing(body.as_str(), ';');
                let body_lines = lines_of_str(body.as_str());
                let mut j: usize = 0;
                while j < body_lines.len()
                    invariant
                        lines@.len() >= 1,
                        has_prefix(lines@[0]@, lead),
                    decreases body_lines.len() - j,
                {
                    if body_lines[j].as_str().is_empty() {
                        lines.push(String::new());
                    } else {
                        lines.push(concat(&[indent, indent, body_lines[j].as_str()]));
                    }
                    j += 1;
                }
                let ghost p0 = lines@;
                append_last(&mut lines, ";");
                proof {
                    if p0.len() == 1 {
                        crate::strs::lemma_prefix_append(p0[0]@, ";"@, lead);
                    } else {
                        assert(lines@[0] == p0[0]);
                    }
                }
            }
        }
        let e = self.kw("END");
        let last = concat(&[indent, e.as_str()]);
        proof {
            reveal_with_fuel(crate::strs::concat_views, 3);
            assert(last@ =~= indent@ + e@);
        }
        lines.push(last);
        let r = join(&lines, "\n");
        proof {
            crate::strs::lemma_lines_lead(lines@, r@, lead);
            crate::strs::lemma_join_ends_with_last(string_views(lines@), "\n"@);
        }
        r
    }

    // CREATE DOMAIN.

    pub(crate) fn format_create_domain_stmt(&self, node: &SyntaxNode, b: usize) -> (r: String)
        ensures
            b > 0 ==> has_prefix(r@, cased(self.config, "CREATE"@) + seq![' ']),
        decreases b,
    {
        if b == 0 {
            return self.text(node);
        }
        let d = b - 1;
        let name = self.find_name_in_create(node, d);
        let c = self.kw("CREATE");
        let dm = self.kw("DOMAIN");
        let head_parts = [c.as_str(), " ", dm.as_str(), " ", name.as_str()];
        let mut head = concat(&head_parts);
        let ghost lead = c@ + seq![' '];
        proof {
            reveal_strlit(" ");
            assert(head_parts@[1]@ == seq![' ']);
            lemma_concat_leads(head_parts@, c@);
        }
        if let Some(tn) = node.find_child("Typename") {
            let a = self.kw("AS");
            let t = self.format_typename(tn, d);
            let typed = [head.as_str(), " ", a.as_str(), " ", t.as_str()];
            let longer = concat(&typed);
            proof {
                lemma_concat_starts_with_first(typed@);
                lemma_prefix_trans(longer@, head@, lead);
            }
            head = longer;
        }
        let mut parts: Vec<String> = Vec::new();
        parts.push(head);
        if let Some(constraints) = node.find_child("ColQualList") {
            let named = constraints.named_children();
            let mut k: usize = 0;
            while k < named.len()
                invariant
                    parts@.len() >= 1,
                    has_prefix(parts@[0]@, lead),
                decreases named.len() - k,
            {
                if named[k].is("ColConstraint") {
                    let cc = self.format_col_constraint(named[k], d);
                    parts.push(concat(&[self.config.indent, cc.as_str()]));
                }
                k += 1;
            }
        }
        let r = join(&parts, "\n");
        proof { lemma_lines_lead(parts@, r@, lead); }
        r
    }

    // CREATE FOREIGN TABLE.

    #[verifier::rlimit(100)]
    #[verifier::spinoff_prover]
    pub(crate) fn format_create_foreign_table_stmt(&self, node: &SyntaxNode, b: usize) -> (r: String)
        ensures
            b > 0 ==> has_prefix(r@, cased(self.config, "CREATE"@) + seq![' ']),
            b > 0 ==> exists|ls: Seq<Seq<char>>| #[trigger] join_with(ls, "\n"@) == r@ && ls.len() >= 1
                && has_prefix(ls[0], cased(self.config, "CREATE"@) + seq![' '])
                && (has_element_list(*node) ==> has_suffix(ls[0], " ("@)
                    && exists|i: int| 1 + (if b > 1 { table_element_count(*node) } else { 0 }) <= i < ls.len()
                        && #[trigger] ls[i] == ")"@),
        decreases b,
    {
        if b == 0 {
            return self.text(node);
        }
        let d = b - 1;
        let table_name = match node.find_child("qualified_name") {
            Some(n) => self.format_qualified_name(n, d),
            None => String::new(),
        };
        let if_not_exists = self.if_not_exists(node);
        let c = self.kw("CREATE");
        let f = self.kw("FOREIGN");
        let t = self.kw("TABLE");
        let header_parts = [c.as_str(), " ", f.as_str(), " ", t.as_str(), " ", if_not_exists.as_str(),
            table_name.as_str()];
        let mut header = concat(&header_parts);
        let ghost lead = c@ + seq![' '];
        proof {
            reveal_strlit(" ");
            assert(header_parts@[1]@ == seq![' ']);
            lemma_concat_leads(header_parts@, c@);
        }
        // `PARTITION OF parent ... FOR VALUES ...`, as in CREATE TABLE.
        if let Some(parent) = Self::second_qualified_name(node) {
            if node.has_child("kw_partition") {
                let po = self.kw_pair("PARTITION", "OF");
                let pn = self.format_qualified_name(parent, d);
                let tail = concat(&[" ", po.as_str(), " ", pn.as_str()]);
                let ghost before = header@;
                push_str(&mut header, tail.as_str());
                proof { lemma_prefix_append(before, tail@, lead); }
            }
        }
        let elem_list = Self::element_list(node);
        let first_line = match elem_list {
            None => {
                if self.has_open_paren(node) {
                    let ghost before = header@;
                    push_str(&mut header, " ()");
                    proof { lemma_prefix_append(before, " ()"@, lead); }
                }
                header
            },
            Some(_) => {
                let h = concat(&[header.as_str(), " ("]);
                proof {
                    reveal_with_fuel(crate::strs::concat_views, 3);
                    lemma_prefix_append(header@, " ("@, lead);
                    reveal_strlit(" (");
                    assert(h@ == header@ + " ("@);
                    assert(h@.skip(h@.len() - 2) =~= " ("@);
                }
                h
            },
        };
        let ghost listed = elem_list is Some;
        let ghost mut close: int = 0;
        let mut lines: Vec<String> = Vec::new();
        if let Some(elem_list) = elem_list {
            let indent = self.config.indent;
            let (leading_comments, grouped) = self.collect_table_elements(node, elem_list);
            proof { assert(grouped@.len() == table_element_count(*node)); }
            let mut k: usize = 0;
            while k < leading_comments.len()
                decreases leading_comments.len() - k,
            {
                lines.push(concat(&[indent, leading_comments[k].as_str()]));
                k += 1;
            }
            if self.config.river {
                self.render_foreign_elements_river(&grouped, &mut lines, d);
            } else {
                let mut rendered = self.render_grouped_elements_left_aligned(&grouped, indent, d);
                lines.append(&mut rendered);
            }
            proof { reveal_strlit(")"); }
            lines.push(owned(")"));
            proof { close = lines@.len() - 1; }
        }
        if let Some(bound) = node.find_child("PartitionBoundSpec") {
            lines.push(self.render_clause_inline(bound, d));
        }
        if let Some(inh) = node.find_child("OptInherit") {
            let text = self.render_clause_inline(inh, d);
            if !text.as_str().is_empty() {
                lines.push(text);
            }
        }
        // SERVER name.
        if let Some(server_name) = node.find_child("name") {
            let s = self.kw("SERVER");
            let n = self.format_expr(server_name, d);
            lines.push(concat(&[s.as_str(), " ", n.as_str()]));
        }
        // OPTIONS (...).
        let ghost c0 = lines@;
        if let Some(opts) = node.find_child("create_generic_options") {
            self.format_generic_options(opts, &mut lines, d);
        }
        proof {
            if listed {
                assert(string_views(lines@).take(c0.len() as int)[close] == string_views(c0)[close]);
                assert(lines@[close]@ == ")"@);
            }
        }
        lines.insert(0, first_line);
        let r = join(&lines, "\n");
        proof {
            lemma_lines_lead(lines@, r@, lead);
            let ls = string_views(lines@);
            assert(ls[0] == lines@[0]@);
            assert(join_with(ls, "\n"@) == r@);
            assert(listed == has_element_list(*node));
            if listed {
                assert(ls[close + 1] == ")"@);
            }
        }
        r
    }

    /// The river layout of a foreign table's elements, in their order, each
    /// on one line, columns aligned and trailing comments aligned.
    pub(crate) fn render_foreign_elements_river(&self, grouped: &Vec<Grouped>, lines: &mut Vec<String>, b: usize)
        ensures
            final(lines)@.len() >= old(lines)@.len() + (if b > 0 { grouped@.len() } else { 0 }),
            forall|x: int| 0 <= x < old(lines)@.len() ==> final(lines)@[x] == old(lines)@[x],
        decreases b,
    {
        let ghost l0 = lines@;
        if b == 0 {
            return;
        }
        let d = b - 1;
        let indent = self.config.indent;
        let mut classified: Vec<(TableElementKind, Vec<String>)> = Vec::new();
        let mut k: usize = 0;
        while k < grouped.len()
            invariant
                k <= grouped@.len(),
                classified@.len() == k,
            decreases grouped.len() - k,
        {
            classified.push((self.classify_table_element(grouped[k].node, d), grouped[k].comments.clone()));
            k += 1;
        }
        let mut max_name_len: usize = 0;
        let mut max_type_len: usize = 0;
        let mut k: usize = 0;
        while k < classified.len()
            decreases classified.len() - k,
        {
            if let TableElementKind::Column(n, t, _) = &classified[k].0 {
                if n.as_str().len() > max_name_len {
                    max_name_len = n.as_str().len();
                }
                if t.as_str().len() > max_type_len {
                    max_type_len = t.as_str().len();
                }
            }
            k += 1;
        }
        let total = classified.len();
        let ckw = self.kw("CONSTRAINT");
        let mut rendered: Vec<(String, Vec<String>)> = Vec::new();
        let mut i: usize = 0;
        while i < classified.len()
            invariant
                i <= classified@.len(),
                rendered@.len() == i,
            decreases classified.len() - i,
        {
            let comma = if i + 1 < total { "," } else { "" };
            let text = match &classified[i].0 {
                TableElementKind::Column(name, typename, constraints) => render_aligned_column(name.as_str(),
                    typename.as_str(), constraints.as_str(), max_name_len, max_type_len),
                TableElementKind::Constraint(Some(name), body) => concat(&[ckw.as_str(), " ", name.as_str(), " ",
                    body.as_str()]),
                TableElementKind::PrimaryKey(text) => text.clone(),
                TableElementKind::Constraint(None, text) => text.clone(),
            };
            rendered.push((concat(&[indent, text.as_str(), comma]), classified[i].1.clone()));
            i += 1;
        }
        let mut comment_col: usize = 0;
        let mut i: usize = 0;
        while i < rendered.len()
            decreases rendered.len() - i,
        {
            if rendered[i].1.len() > 0 && rendered[i].0.as_str().len() > comment_col {
                comment_col = rendered[i].0.as_str().len();
            }
            i += 1;
        }
        let mut i: usize = 0;
        while i < rendered.len()
            invariant
                i <= rendered@.len(),
                lines@.len() >= l0.len() + i,
                forall|x: int| 0 <= x < l0.len() ==> lines@[x] == l0[x],
            decreases rendered.len() - i,
        {
            let line = rendered[i].0.as_str();
            let comments = &rendered[i].1;
            if comments.len() > 0 {
                let pad = spaces_str(comment_col.saturating_sub(line.len()));
                lines.push(concat(&[line, pad.as_str(), " ", comments[0].as_str()]));
                let mut x: usize = 1;
                while x < comments.len()
                    invariant
                        lines@.len() >= l0.len() + i + 1,
                        forall|y: int| 0 <= y < l0.len() ==> lines@[y] == l0[y],
                    decreases comments.len() - x,
                {
                    lines.push(concat(&[indent, comments[x].as_str()]));
                    x += 1;
                }
            } else {
                lines.push(owned(line));
            }
            i += 1;
        }
    }

    pub(crate) fn collect_generic_options(&self, node: &SyntaxNode, b: usize) -> (r: Vec<String>)
        ensures
            b == 0 ==> r@.len() == 0,
            b > 0 ==> forall|i: int| #[trigger] first_of_kind_at(*node, i, "generic_option_list"@)
                ==> r@.len() == flat_items(node.children@[i], "generic_option_list"@).len(),
            (forall|i: int| !#[trigger] first_of_kind_at(*node, i, "generic_option_list"@)) ==> r@.len() == 0,
        decreases b,
    {
        let mut out: Vec<String> = Vec::new();
        if b == 0 {
            return out;
        }
        let opt_list = match node.find_child("generic_option_list") {
            Some(l) => l,
            None => { return out; },
        };
        let ghost i0 = choose|i: int| first_of_kind_at(*node, i, "generic_option_list"@) && *opt_list == #[trigger] node.children@[i];
        proof {
            assert forall|i: int| #[trigger] first_of_kind_at(*node, i, "generic_option_list"@) implies i == i0 by {
                if i < i0 { assert(!(node.children@[i].named && node.children@[i].kind@ == "generic_option_list"@)); }
                if i0 < i { assert(!(node.children@[i0].named && node.children@[i0].kind@ == "generic_option_list"@)); }
            }
        }
        let items = flatten_list(opt_list, "generic_option_list");
        assert(node_views(items@).len() == items@.len());
        let mut k: usize = 0;
        while k < items.len()
            invariant
                k <= items@.len(),
                out@.len() == k,
            decreases items.len() - k,
        {
            out.push(self.format_generic_option(items[k], b - 1));
            k += 1;
        }
        out
    }

    pub(crate) fn format_generic_options(&self, node: &SyntaxNode, lines: &mut Vec<String>, b: usize)
        ensures
            appended(old(lines)@, final(lines)@),
            b > 1 && (exists|i: int| #[trigger] first_of_kind_at(*node, i, "generic_option_list"@)
                && flat_items(node.children@[i], "generic_option_list"@).len() > 0) ==> adds_line_opening(old(lines)@, final(lines)@,
                cased(self.config, "OPTIONS"@) + seq![' ', '('])
                && final(lines)@.last()@ == seq![')'],
        decreases b,
    {
        let ghost start = lines@;
        assert(string_views(lines@).take(lines@.len() as int) =~= string_views(lines@));
        if b == 0 {
            return;
        }
        let items = self.collect_generic_options(node, b - 1);
        if items.len() == 0 {
            return;
        }
        let indent = self.config.indent;
        let o = self.kw("OPTIONS");
        let parts = [o.as_str(), " ("];
        let first = concat(&parts);
        proof {
            reveal_with_fuel(crate::strs::concat_views, 3);
            reveal_strlit(" (");
            assert(first@ == o@ + seq![' ', '(']);
            lemma_prefix_self(first@);
            lemma_opens_with_prefix(first@, first@);
        }
        lines.push(first);
        assert(string_views(lines@).take(start.len() as int) =~= string_views(start));
        let ghost fl = lines@[start.len() as int];
        let mut i: usize = 0;
        while i < items.len()
            invariant
                appended(start, lines@),
                start.len() < lines@.len(),
                lines@[start.len() as int] == fl,
            decreases items.len() - i,
        {
            let ghost before = lines@;
            let comma = if i + 1 < items.len() { "," } else { "" };
            lines.push(concat(&[indent, items[i].as_str(), comma]));
            assert(string_views(lines@).take(start.len() as int) =~= string_views(before).take(start.len() as int));
            i += 1;
        }
        let ghost before = lines@;
        let close = owned(")");
        proof { reveal_strlit(")"); }
        lines.push(close);
        assert(string_views(lines@).take(start.len() as int) =~= string_views(before).take(start.len() as int));
    }

    pub(crate) fn format_col_generic_options_inline(&self, node: &SyntaxNode, b: usize) -> (r: String)
        ensures
            b == 0 ==> r@ == node_text(self.chars@, *node),
            b > 0 ==> has_prefix(r@, cased(self.config, "OPTIONS"@) + seq![' ', '(']) && has_suffix(r@, seq![')']),
        decreases b,
    {
        if b == 0 {
            return self.text(node);
        }
        let items = self.collect_generic_options(node, b - 1);
        let o = self.kw("OPTIONS");
        let j = join(&items, ", ");
        let r = concat(&[o.as_str(), " (", j.as_str(), ")"]);
        proof {
            reveal_with_fuel(crate::strs::concat_views, 5);
            reveal_strlit(" ("); reveal_strlit(")");
            assert(r@ == (o@ + seq![' ', '(']) + j@ + seq![')']);
            crate::strs::lemma_wraps(o@ + seq![' ', '('], j@, seq![')']);
        }
        r
    }

    pub(crate) fn format_generic_option(&self, node: &SyntaxNode, b: usize) -> (r: String)
        ensures
            b == 0 ==> r@ == node_text(self.chars@, *node),
            b > 0 ==> exists|ps: Seq<Seq<char>>| ps.len() == named_of(node.children@).len()
                && r@ == join_with(nonempty_texts(ps), " "@),
        decreases b,
    {
        if b == 0 {
            return self.text(node);
        }
        let named = node.named_children();
        let parts = self.format_each(&named, b - 1);
        let r = join_nonempty(&parts, " ");
        proof { assert(string_views(parts@).len() == named_of(node.children@).len()); }
        r
    }

    // Helpers.

    /// The leading `WITH ...` clause of a DML statement, if it has one.
    pub(crate) fn dml_with_clause(&self, node: &SyntaxNode, river_width: usize, b: usize) -> (r: Option<String>)
        ensures
            r is Some ==> has_with_clause(*node),
            r is Some <==> (b > 0 && has_with_clause(*node)),
        decreases b,
    {
        if b == 0 {
            return None;
        }
        let owc = match node.find_child("opt_with_clause") {
            Some(o) => o,
            None => {
                proof {
                    assert forall|i: int| !first_of_kind_at(*node, i, "opt_with_clause"@) by {
                        if 0 <= i < node.children@.len() {
                            assert(!(node.children@[i].named && node.children@[i].kind@ == "opt_with_clause"@));
                        }
                    }
                }
                return None;
            },
        };
        let ghost i0 = choose|i: int| first_of_kind_at(*node, i, "opt_with_clause"@) && *owc == #[trigger] node.children@[i];
        proof {
            assert forall|i: int| #[trigger] first_of_kind_at(*node, i, "opt_with_clause"@) implies i == i0 by {
                if i < i0 { assert(!(node.children@[i].named && node.children@[i].kind@ == "opt_with_clause"@)); }
                if i0 < i { assert(!(node.children@[i0].named && node.children@[i0].kind@ == "opt_with_clause"@)); }
            }
        }
        let with = match owc.find_child("with_clause") {
            Some(w) => w,
            None => {
                proof {
                    if has_with_clause(*node) {
                        let j = choose|j: int| 0 <= j < node.children@[i0].children@.len()
                            && #[trigger] node.children@[i0].children@[j].named
                            && node.children@[i0].children@[j].kind@ == "with_clause"@;
                        assert(!(owc.children@[j].named && owc.children@[j].kind@ == "with_clause"@));
                    }
                }
                return None;
            },
        };
        proof {
            let j = choose|j: int| 0 <= j < owc.children@.len() && owc.children@[j] == *with;
            assert(node.children@[i0].children@[j].named);
            assert(first_of_kind_at(*node, i0, "opt_with_clause"@));
        }
        Some(if self.config.river {
            self.format_with_clause_river_dml(with, river_width, b - 1)
        } else {
            self.format_with_clause_left(with, b - 1)
        })
    }

    /// Render a clause subtree inline: keyword leaves cased, expressions
    /// given to `format_expr`, punctuation glued.
    pub(crate) fn render_clause_inline(&self, node: &SyntaxNode, b: usize) -> (r: String)
        ensures
            b == 0 ==> r@ == node_text(self.chars@, *node),
            b > 0 && has_prefix(node.kind@, "kw_"@) ==> r@ == cased(self.config, node_text(self.chars@, *node)),
            b > 0 && !has_prefix(node.kind@, "kw_"@)
                && !kind_among(node.kind@, seq!["a_expr", "b_expr", "c_expr", "func_expr_windowless"])
                && node.kind@ != "Typename"@ && node.kind@ != "qualified_name"@
                && (kind_among(node.kind@, seq!["ColId", "ColLabel", "attr_name", "name"]) || node.children@.len() == 0)
                ==> r@ == trim_of(node_text(self.chars@, *node)),
        decreases b,
    {
        if b == 0 {
            return self.text(node);
        }
        let d = b - 1;
        if node.kind_starts_with("kw_") {
            return self.format_keyword_node(node);
        }
        let exprs = ["a_expr", "b_expr", "c_expr", "func_expr_windowless"];
        assert(exprs@ == seq!["a_expr", "b_expr", "c_expr", "func_expr_windowless"]);
        if node.is_any(&exprs) {
            return self.format_expr(node, d);
        }
        if node.is("Typename") {
            return self.format_typename(node, d);
        }
        if node.is("qualified_name") {
            return self.format_qualified_name(node, d);
        }
        // An identifier keeps its spelling, also where the grammar parses
        // it as an unreserved keyword.
        let names = ["ColId", "ColLabel", "attr_name", "name"];
        assert(names@ == seq!["ColId", "ColLabel", "attr_name", "name"]);
        if node.is_any(&names) {
            return self.trimmed_text(node);
        }
        if node.children.len() == 0 {
            return self.trimmed_text(node);
        }
        let mut out = String::new();
        let mut i: usize = 0;
        while i < node.children.len()
            decreases node.children.len() - i,
        {
            let child = &node.children[i];
            i += 1;
            let piece = self.render_clause_inline(child, d);
            if piece.as_str().is_empty() {
                continue;
            }
            if out.as_str().is_empty() {
                push_str(&mut out, piece.as_str());
                continue;
            }
            let glue_left = starts_with(piece.as_str(), ")") || starts_with(piece.as_str(), ",")
                || starts_with(piece.as_str(), ";");
            let glue_right = ends_with(out.as_str(), "(");
            if glue_left || glue_right {
                push_str(&mut out, piece.as_str());
            } else {
                push_char(&mut out, ' ');
                push_str(&mut out, piece.as_str());
            }
        }
        out
    }

    pub(crate) fn format_relation_expr_opt_alias(&self, node: &SyntaxNode, b: usize) -> (r: String)
        ensures
            b == 0 ==> r@ == node_text(self.chars@, *node),
            b > 0 ==> exists|ps: Seq<Seq<char>>| ps.len() <= named_of(node.children@).len()
                && r@ == join_with(nonempty_texts(ps), " "@),
            b > 0 && named_of(node.children@).len() == 0 ==> r@.len() == 0,
        decreases b,
    {
        if b == 0 {
            return self.text(node);
        }
        let d = b - 1;
        let mut parts: Vec<String> = Vec::new();
        let named = node.named_children();
        let mut k: usize = 0;
        while k < named.len()
            invariant
                k <= named@.len(),
                named@.map_values(|c: &SyntaxNode| *c) == named_of(node.children@),
                parts@.len() <= k,
            decreases named.len() - k,
        {
            let child = named[k];
            k += 1;
            if child.is("relation_expr") {
                parts.push(self.format_relation_expr(child, d));
            } else if child.is_any(&["opt_alias_clause", "alias_clause", "func_alias_clause"]) {
                let alias = self.format_expr(child, d);
                if !alias.as_str().is_empty() {
                    parts.push(alias);
                }
            } else if child.is("ColId") {
                let alias = self.format_expr(child, d);
                if !alias.as_str().is_empty() {
                    // `relation_expr AS ColId` holds its AS as a sibling;
                    // only the bare form gets AS supplied.
                    if node.has_child("kw_as") {
                        parts.push(alias);
                    } else {
                        let a = self.kw("AS");
                        parts.push(concat(&[a.as_str(), " ", alias.as_str()]));
                    }
                }
            } else {
                parts.push(self.format_expr(child, d));
            }
        }
        let r = join_nonempty(&parts, " ");
        proof {
            assert(string_views(parts@).len() == parts@.len());
            if named@.len() == 0 {
                assert(string_views(parts@) =~= Seq::<Seq<char>>::empty());
                assert(nonempty_texts(string_views(parts@)) =~= Seq::<Seq<char>>::empty());
            }
        }
        r
    }

    /// The table an INSERT writes to, with its alias.
    pub(crate) fn format_insert_target(&self, node: &SyntaxNode, b: usize) -> (r: String)
        ensures
            b == 0 ==> r@ == node_text(self.chars@, *node),
            b > 0 && (exists|i: int| 0 <= i < node.children@.len() && #[trigger] node.children@[i].named
                && node.children@[i].kind@ == "qualified_name"@)
                && (exists|i: int| 0 <= i < node.children@.len() && #[trigger] node.children@[i].named
                && node.children@[i].kind@ == "ColId"@)
                ==> occurs_in(r@, seq![' '] + cased(self.config, "AS"@) + seq![' ']),
        decreases b,
    {
        if b == 0 {
            return self.text(node);
        }
        let d = b - 1;
        let qn = match node.find_child("qualified_name") {
            Some(q) => q,
            None => { return self.format_expr(node, d); },
        };
        let name = self.format_expr(qn, d);
        match node.find_child("ColId") {
            Some(alias) => {
                let a = self.kw("AS");
                let al = self.format_expr(alias, d);
                let r = concat(&[name.as_str(), " ", a.as_str(), " ", al.as_str()]);
                proof {
                    reveal_with_fuel(crate::strs::concat_views, 6);
                    reveal_strlit(" ");
                    let w = seq![' '] + a@ + seq![' '];
                    assert(r@ == name@ + w + al@);
                    let at = name@.len() as int;
                    assert(r@.subrange(at, at + w.len()) =~= w);
                    assert(crate::lexical::occurs_at(r@, w, at));
                }
                r
            },
            None => name,
        }
    }

    pub(crate) fn find_name_in_create(&self, node: &SyntaxNode, b: usize) -> (r: String)
        ensures
            b == 0 ==> r@ == node_text(self.chars@, *node),
            b > 0 && (forall|i: int| 0 <= i < node.children@.len() ==> !(#[trigger] node.children@[i].named && node.children@[i].kind@ == "qualified_name"@) && !(#[trigger] node.children@[i].named && node.children@[i].kind@ == "any_name"@) && !(#[trigger] node.children@[i].named && node.children@[i].kind@ == "create_as_target"@) && !(#[trigger] node.children@[i].named && node.children@[i].kind@ == "create_mv_target"@)) ==> r@.len() == 0,
        decreases b,
    {
        if b == 0 {
            return self.text(node);
        }
        let d = b - 1;
        if let Some(qn) = node.find_child("qualified_name") {
            return self.format_expr(qn, d);
        }
        if let Some(an) = node.find_child("any_name") {
            return self.format_expr(an, d);
        }
        if let Some(cat) = node.find_child("create_as_target") {
            if let Some(qn) = cat.find_child("qualified_name") {
                return self.format_expr(qn, d);
            }
            return self.format_expr(cat, d);
        }
        if let Some(mv) = node.find_child("create_mv_target") {
            if let Some(qn) = mv.find_child("qualified_name") {
                return self.format_expr(qn, d);
            }
            return self.format_expr(mv, d);
        }
        String::new()
    }
}

/// Push a river line for `keyword` and `content` onto `lines`.
fn lines_push_river(f: &Formatter, lines: &mut Vec<String>, keyword: &str, content: &str, width: usize)
    ensures
        final(lines)@.len() == old(lines)@.len() + 1,
        final(lines)@.take(old(lines)@.len() as int) == old(lines)@,
        opens_with(final(lines)@.last()@, keyword@ + seq![' ']),
{
    lines.push(f.rline(keyword, content, width));
    assert(lines@.take(lines@.len() - 1) =~= old(lines)@);
}

/// The texts of `parts` that are not empty, in order.
pub open spec fn nonempty_texts(parts: Seq<Seq<char>>) -> Seq<Seq<char>>
    decreases parts.len(),
{
    if parts.len() == 0 {
        parts
    } else if parts.last().len() > 0 {
        nonempty_texts(parts.drop_last()).push(parts.last())
    } else {
        nonempty_texts(parts.drop_last())
    }
}

/// `parts` without the empty ones, joined with `sep`.
pub(crate) fn join_nonempty(parts: &Vec<String>, sep: &str) -> (r: String)
    ensures
        r@ == join_with(nonempty_texts(string_views(parts@)), sep@),
{
    let mut kept: Vec<String> = Vec::new();
    let mut k: usize = 0;
    while k < parts.len()
        invariant
            k <= parts@.len(),
            string_views(kept@) == nonempty_texts(string_views(parts@.take(k as int))),
        decreases parts.len() - k,
    {
        proof {
            assert(string_views(parts@.take(k + 1)).drop_last() =~= string_views(parts@.take(k as int)));
            assert(string_views(parts@.take(k + 1)).last() == parts@[k as int]@);
        }
        if !parts[k].as_str().is_empty() {
            kept.push(parts[k].clone());
            assert(string_views(kept@) =~= nonempty_texts(string_views(parts@.take(k as int))).push(parts@[k as int]@));
        }
        k += 1;
    }
    assert(parts@.take(parts@.len() as int) =~= parts@);
    join(&kept, sep)
}

} // verus!

verus! {

/// The first position at or after `i` of `s` that holds no single quote.
pub open spec fn past_quotes(s: Seq<char>, i: int) -> int
    decreases s.len() - i,
{
    if i < 0 || i >= s.len() || s[i] != '\'' {
        i
    } else {
        past_quotes(s, i + 1)
    }
}

/// The end `e` of `s`, moved back over single quotes but not before `a`.
pub open spec fn before_quotes(s: Seq<char>, a: int, e: int) -> int
    decreases e - a,
{
    if e <= a || e > s.len() || s[e - 1] != '\'' {
        e
    } else {
        before_quotes(s, a, e - 1)
    }
}

/// `s` without the single quotes at either end.
pub open spec fn unquoted(s: Seq<char>) -> Seq<char> {
    let a = past_quotes(s, 0);
    s.subrange(a, before_quotes(s, a, s.len() as int))
}

/// `s` without the single quotes at either end.
pub(crate) fn strip_quotes(s: &str) -> (r: String)
    ensures
        r@ == unquoted(s@),
{
    let chars = crate::chars::chars_of(s);
    let mut a: usize = 0;
    while a < chars.len() && chars[a] == '\''
        invariant
            a <= chars@.len(),
            chars@ == s@,
            past_quotes(s@, a as int) == past_quotes(s@, 0),
        decreases chars.len() - a,
    {
        a += 1;
    }
    let mut e: usize = chars.len();
    while e > a && chars[e - 1] == '\''
        invariant
            a <= e <= chars@.len(),
            chars@ == s@,
            a == past_quotes(s@, 0),
            before_quotes(s@, a as int, e as int) == before_quotes(s@, a as int, s@.len() as int),
        decreases e,
    {
        e -= 1;
    }
    slice_chars(s, a, e)
}

} // verus!
