//! Formatting of PostgreSQL SQL text in several published layout styles.

pub mod chars;
pub mod config;
pub mod error;
pub mod lexical;
pub mod style;
pub mod text;
pub mod expr;
pub mod stmt;
pub mod select;
pub mod pgdump;
pub mod tree;
pub mod parse;
pub mod strs;
pub mod expr_nodes;
pub mod select_nodes;
pub mod stmt_nodes;
pub mod plpgsql;
pub mod pgdump_nodes;
pub mod root;

use vstd::prelude::*;
use crate::chars::{chars_of, push_char, string_of};
use crate::config::{Formatter, node_text};
use crate::error::FormatError;

use crate::parse::{Grammar, ParseFailure, parse_tree, in_range};
use crate::stmt::trim_of;
use crate::strs::{concat, ends_with, has_suffix, occurs_in, owned, trim};
use crate::style::Style;
use crate::text::lines_of;
use crate::tree::{SyntaxNode, height, lemma_child_lower};
use crate::root::{lone_plain_statement, lone_statement_node};
use crate::stmt_nodes::passed_through;

verus! {

/// What `{:?}` writes for a string: the text in double quotes, with quotes,
/// backslashes and characters that do not print escaped.
pub uninterp spec fn debug_quoted(s: Seq<char>) -> Seq<char>;

/// `<str as core::fmt::Debug>::fmt`, through `format!("{:?}")`: the string in
/// double quotes with Rust's escapes (`\"`, `\\`, `\n`, `\u{..}`, ...). Its
/// result is named by `debug_quoted`; the escaping rules are not stated.
#[verifier::external_body]
fn debug_quote(s: &str) -> (r: String)
    ensures
        r@ == debug_quoted(s@),
{
    format!("{s:?}")
}

/// The character of a decimal digit.
pub open spec fn digit_char(d: nat) -> char {
    (d + 48) as char
}

/// The decimal digits of `n`.
pub open spec fn decimal_text(n: nat) -> Seq<char>
    decreases n,
{
    if n < 10 {
        seq![digit_char(n)]
    } else {
        decimal_text(n / 10).push(digit_char(n % 10))
    }
}

/// The digit `d` as a character.
fn digit(d: usize) -> (c: char)
    requires
        d < 10,
    ensures
        c == digit_char(d as nat),
{
    let b: u8 = (d as u8) + 48u8;
    let c = b as char;
    assert(c as int == d + 48);
    c
}

/// `n` in decimal.
pub fn decimal(n: usize) -> (r: String)
    ensures
        r@ == decimal_text(n as nat),
    decreases n,
{
    if n < 10 {
        let mut s = String::new();
        push_char(&mut s, digit(n));
        assert(s@ =~= seq![digit_char(n as nat)]);
        s
    } else {
        let mut s = decimal(n / 10);
        push_char(&mut s, digit(n % 10));
        s
    }
}

/// The message for a node that is an error: its line and column (from 1)
/// and its text.
pub open spec fn located_message(row: nat, col: nat, text: Seq<char>) -> Seq<char> {
    "Syntax error at line "@ + decimal_text(row) + ", column "@ + decimal_text(col) + ": "@ + debug_quoted(text)
}

/// A zero-based position counted from one (held at the largest `usize`).
pub open spec fn counted(x: usize) -> nat {
    if x < usize::MAX { (x + 1) as nat } else { x as nat }
}

/// Index of the first child of `n` at or after `k` that holds an error, or
/// the number of children.
pub open spec fn first_error_child(n: SyntaxNode, k: int) -> int
    decreases n.children@.len() - k,
{
    if k < 0 || k >= n.children@.len() {
        n.children@.len() as int
    } else if n.children@[k].has_error {
        k
    } else {
        first_error_child(n, k + 1)
    }
}

proof fn lemma_first_error_child(n: SyntaxNode, k: int)
    requires
        0 <= k <= n.children@.len(),
    ensures
        k <= first_error_child(n, k) <= n.children@.len(),
        first_error_child(n, k) < n.children@.len() ==> n.children@[first_error_child(n, k)].has_error,
    decreases n.children@.len() - k,
{
    if k < n.children@.len() && !n.children@[k].has_error {
        lemma_first_error_child(n, k + 1);
    }
}

/// The report for a tree with a syntax error: the first error or missing
/// node met by descending through the first child that holds an error.
pub open spec fn error_report(n: SyntaxNode, chars: Seq<char>) -> Seq<char>
    decreases height(n),
{
    if n.is_error || n.is_missing {
        located_message(counted(n.start_row), counted(n.start_col), node_text(chars, n))
    } else {
        let k = first_error_child(n, 0);
        if 0 <= k < n.children@.len() {
            proof { lemma_child_lower(n, k); }
            error_report(n.children@[k], chars)
        } else {
            "Unknown syntax error"@
        }
    }
}

/// Whether the parser made out no statement at all (no named child of the
/// root is a `toplevel_stmt`), or found something outside any statement (a
/// child of the root is an error node).
pub open spec fn structural_error(root: SyntaxNode) -> bool {
    ||| !(exists|i: int| 0 <= i < root.children@.len() && #[trigger] root.children@[i].named
        && root.children@[i].kind@ == "toplevel_stmt"@)
    ||| (exists|i: int| 0 <= i < root.children@.len() && #[trigger] root.children@[i].is_error)
}

/// Whether the parse tree is too broken to format: junk before, after or
/// between statements, or no statement at all. Errors inside a statement
/// (grammar gaps) are formatted around.
pub fn has_structural_error(root: &SyntaxNode) -> (r: bool)
    ensures
        r == structural_error(*root),
{
    let mut found_stmt = false;
    let mut i: usize = 0;
    while i < root.children.len()
        invariant
            i <= root.children@.len(),
            forall|x: int| 0 <= x < i ==> !(#[trigger] root.children@[x].is_error),
            found_stmt == (exists|x: int| 0 <= x < i && #[trigger] root.children@[x].named
                && root.children@[x].kind@ == "toplevel_stmt"@),
        decreases root.children.len() - i,
    {
        if root.children[i].is_error {
            return true;
        }
        if root.children[i].named && root.children[i].is("toplevel_stmt") {
            found_stmt = true;
        }
        i += 1;
    }
    !found_stmt
}

/// The message for the first syntax error of the tree under `node`.
pub fn find_error_message(node: &SyntaxNode, chars: &Vec<char>) -> (r: String)
    ensures
        r@ == error_report(*node, chars@),
    decreases height(*node),
{
    if node.is_error || node.is_missing {
        let text = if node.start <= node.end && node.end <= chars.len() {
            let t = crate::lexical::copy_range(chars, node.start, node.end);
            string_of(&t)
        } else {
            String::new()
        };
        let row = decimal(node.start_row.saturating_add(1));
        let col = decimal(node.start_col.saturating_add(1));
        let quoted = debug_quote(text.as_str());
        proof { reveal_strlit("Syntax error at line "); reveal_strlit(", column "); reveal_strlit(": "); }
        let r = concat(&["Syntax error at line ", row.as_str(), ", column ", col.as_str(), ": ", quoted.as_str()]);
        proof {
            reveal_with_fuel(crate::strs::concat_views, 7);
        }
        return r;
    }
    let mut i: usize = 0;
    while i < node.children.len()
        invariant
            i <= node.children@.len(),
            !node.is_error && !node.is_missing,
            first_error_child(*node, i as int) == first_error_child(*node, 0),
        decreases node.children.len() - i,
    {
        if node.children[i].has_error {
            proof { lemma_child_lower(*node, i as int); }
            return find_error_message(&node.children[i], chars);
        }
        i += 1;
    }
    owned("Unknown syntax error")
}


/// What the parser is given for the trimmed text `t`: `t` ended with `;`,
/// which goes on a line of its own after a line comment on the last line.
pub open spec fn terminated(t: Seq<char>) -> Seq<char> {
    if has_suffix(t, ";"@) {
        t
    } else if lines_of(t).len() > 0 && occurs_in(lines_of(t).last(), "--"@) {
        t + "\n;"@
    } else {
        t + ";"@
    }
}

/// A statement written without its final `;` is handed to the parser as the
/// same statement written with it: `format` gives the two the same text to
/// parse (where the last line holds no `--` comment, whose `;` would go on a
/// line of its own).
pub proof fn law_missing_terminator_supplied(sql: Seq<char>)
    requires
        trim_of(sql) == sql,
        sql.len() > 0,
        sql.last() != ';',
        !occurs_in(lines_of(sql).last(), "--"@),
    ensures
        terminated(trim_of(sql)) == terminated(trim_of(sql + ";"@)),
{
    reveal_strlit(";");
    let t = sql + ";"@;
    assert(";"@ == seq![';']);
    crate::stmt::lemma_first_non_ws_bounds(sql, 0);
    crate::stmt::lemma_last_non_ws_bounds(sql, sql.len() as int);
    let a = crate::stmt::first_non_ws_from(sql, 0);
    let b = crate::stmt::last_non_ws_end(sql, sql.len() as int);
    assert(a < b);
    assert(!crate::chars::is_whitespace_char(t[0])) by {
        assert(t[0] == sql[0]);
        assert(!crate::chars::is_whitespace_char(sql[0])) by {
            if crate::chars::is_whitespace_char(sql[0]) {
                assert(crate::stmt::first_non_ws_from(sql, 0) == crate::stmt::first_non_ws_from(sql, 1));
                crate::stmt::lemma_first_non_ws_bounds(sql, 1);
            }
        }
    }
    assert(crate::stmt::first_non_ws_from(t, 0) == 0);
    assert(!crate::chars::is_whitespace_char(t[t.len() - 1]));
    assert(crate::stmt::last_non_ws_end(t, t.len() as int) == t.len());
    assert(trim_of(t) =~= t);
    assert(has_suffix(t, ";"@)) by { assert(t.skip(t.len() - 1) =~= ";"@); }
    assert(!has_suffix(sql, ";"@)) by {
        if has_suffix(sql, ";"@) {
            assert(sql.skip(sql.len() - 1)[0] == sql.last());
        }
    }
}

/// `trimmed` ended with `;` as the grammar requires.
pub fn terminate(trimmed: &str) -> (r: String)
    ensures
        r@ == terminated(trimmed@),
{
    proof { reveal_strlit(";"); reveal_strlit("--"); reveal_strlit("\n;"); }
    if ends_with(trimmed, ";") {
        owned(trimmed)
    } else if crate::stmt_nodes::last_line_has_comment(trimmed) {
        let r = concat(&[trimmed, "\n;"]);
        proof { reveal_with_fuel(crate::strs::concat_views, 3); }
        r
    } else {
        let r = concat(&[trimmed, ";"]);
        proof { reveal_with_fuel(crate::strs::concat_views, 3); }
        r
    }
}

/// What formatting the SQL text `input`, parsed into `root`, in `style`
/// gives: a syntax error where the tree holds an error and no statement;
/// otherwise `Ok`: the formatted statements (and comments) separated by
/// blank lines, at least one part per statement; and a lone statement without a layout of its own comes
/// back as its text with whitespace normalized and the terminator it needs.
pub open spec fn tree_formatting(input: Seq<char>, root: SyntaxNode, style: Style,
    r: Result<String, FormatError>) -> bool
{
    &&& (root.has_error && structural_error(root)
        ==> (r matches Err(FormatError::Syntax(m)) && m@ == error_report(root, input)))
    &&& (!(root.has_error && structural_error(root)) ==> r is Ok)
    &&& (!(root.has_error && structural_error(root)) ==> (r matches Ok(s) && exists|rs: Seq<Seq<char>>|
        rs.len() >= crate::root::statement_count(root) && s@ == #[trigger] crate::expr::join_with(rs, "\n\n"@)))
    &&& forall|i: int, j: int, k: int| style != Style::PgDump && !(root.has_error && structural_error(root))
        && #[trigger] lone_plain_statement(input, root, i, j, k)
        ==> (r matches Ok(s) && s@ == passed_through(node_text(input, lone_statement_node(root, i, j, k))))
}

/// Format the parsed SQL `input` (its tree `root`) in `style`: a syntax
/// error where the tree holds an error and no statement; otherwise the
/// formatted statements.
pub fn format_tree(input: &str, root: &SyntaxNode, style: Style) -> (r: Result<String, FormatError>)
    ensures
        tree_formatting(input@, *root, style, r),
{
    if root.has_error && has_structural_error(root) {
        let chars = chars_of(input);
        return Err(FormatError::Syntax(find_error_message(root, &chars)));
    }
    let fmt = Formatter::new(input, style);
    fmt.format_root(root)
}

/// Format one or more PostgreSQL statements in `style`. A statement without
/// a trailing `;` is accepted.
pub fn format(sql: &str, style: Style) -> (r: Result<String, FormatError>)
    requires
        sql@.len() <= usize::MAX / 8 - 2,
    ensures
        trim_of(sql@).len() == 0 ==> (r matches Ok(s) && s@.len() == 0),
        trim_of(sql@).len() == 0 ==> !(r is Err),
        trim_of(sql@).len() > 0 ==> (r matches Err(FormatError::Parser(_))
            || exists|root: SyntaxNode| in_range(root, terminated(trim_of(sql@)).len())
                && #[trigger] tree_formatting(terminated(trim_of(sql@)), root, style, r)),
{
    let trimmed = trim(sql);
    proof { lemma_trim_shorter(sql@); }
    if trimmed.as_str().is_empty() {
        return Ok(String::new());
    }
    let input = terminate(trimmed.as_str());
    let chars = chars_of(input.as_str());
    proof { reveal_strlit(";"); reveal_strlit("\n;"); }
    match parse_tree(input.as_str(), &chars, Grammar::Sql) {
        Ok(root) => format_tree(input.as_str(), &root, style),
        Err(ParseFailure::Language(msg)) => Err(FormatError::Parser(msg)),
        Err(_) => Err(FormatError::Parser(owned("Failed to parse SQL"))),
    }
}

/// What formatting the PL/pgSQL text `code`, parsed into `root`, in `style`
/// gives: where the tree holds an error, a syntax error (or the text
/// formatted as SQL); otherwise `Ok`: the block opening with BEGIN or DECLARE
/// as its first item says (where no compiler directive comes first), ended
/// with `;`; without a block, the text as written.
pub open spec fn plpgsql_tree_formatting(code: Seq<char>, root: SyntaxNode, style: Style,
    r: Result<String, FormatError>) -> bool
{
    &&& (root.has_error && r is Err ==> (r matches Err(FormatError::Syntax(m)) && m@ == error_report(root, code)))
    &&& (!root.has_error ==> r is Ok)
    &&& (!root.has_error && (exists|i: int| 0 <= i < root.children@.len() && #[trigger] root.children@[i].named
        && root.children@[i].kind@ == "pl_block"@) ==> (r matches Ok(s)
        && crate::strs::has_suffix(crate::lexical::trim_end_of(s@), ";"@)))
    &&& (!root.has_error && crate::tree::first_kid(root, "comp_options"@) is None
        ==> (crate::tree::first_kid(root, "pl_block"@) matches Some(blk)
        ==> (r matches Ok(s) && crate::root::block_opening(crate::config::config_of(style), blk, s@))))
    &&& (!root.has_error && (forall|i: int| 0 <= i < root.children@.len() ==> !(#[trigger] root.children@[i].named
        && root.children@[i].kind@ == "pl_block"@)) ==> (r matches Ok(s) && s@ == node_text(code, root)))
}

/// Format the parsed PL/pgSQL `code` (its tree `root`) in `style`: a
/// syntax error where the tree holds any error; otherwise the formatted
/// block.
pub fn format_plpgsql_tree(code: &str, root: &SyntaxNode, style: Style) -> (r: Result<String, FormatError>)
    requires
        code@.len() <= usize::MAX / 8 - 2,
    ensures
        plpgsql_tree_formatting(code@, *root, style, r),
{
    if root.has_error {
        // A body that is not PL/pgSQL (that of a LANGUAGE sql function) is
        // formatted as SQL where it parses as such.
        if let Ok(formatted) = format(code, style) {
            return Ok(formatted);
        }
        let chars = chars_of(code);
        return Err(FormatError::Syntax(find_error_message(root, &chars)));
    }
    let fmt = Formatter::new(code, style);
    fmt.format_plpgsql_root(root)
}

/// Format a PL/pgSQL function body (what stands between the dollar quotes,
/// from DECLARE or BEGIN on) in `style`.
pub fn format_plpgsql(code: &str, style: Style) -> (r: Result<String, FormatError>)
    requires
        code@.len() <= usize::MAX / 8 - 2,
    ensures
        trim_of(code@).len() == 0 ==> (r matches Ok(s) && s@.len() == 0),
        trim_of(code@).len() == 0 ==> !(r is Err),
        trim_of(code@).len() > 0 ==> (r matches Err(FormatError::Parser(_))
            || exists|root: SyntaxNode| in_range(root, trim_of(code@).len())
                && #[trigger] plpgsql_tree_formatting(trim_of(code@), root, style, r)),
{
    let trimmed = trim(code);
    proof { lemma_trim_shorter(code@); }
    if trimmed.as_str().is_empty() {
        return Ok(String::new());
    }
    let chars = chars_of(trimmed.as_str());
    match parse_tree(trimmed.as_str(), &chars, Grammar::PlPgSql) {
        Ok(root) => format_plpgsql_tree(trimmed.as_str(), &root, style),
        Err(ParseFailure::Language(msg)) => Err(FormatError::Parser(msg)),
        Err(_) => Err(FormatError::Parser(owned("Failed to parse PL/pgSQL"))),
    }
}

/// Trimming does not lengthen a text.
pub proof fn lemma_trim_shorter(s: Seq<char>)
    ensures
        trim_of(s).len() <= s.len(),
{
    crate::stmt::lemma_first_non_ws_bounds(s, 0);
    crate::stmt::lemma_last_non_ws_bounds(s, s.len() as int);
}
} // verus!
