//! Running the tree-sitter PostgreSQL grammars, and copying the tree they
//! produce into a `SyntaxNode` tree.

use vstd::prelude::*;
use crate::text::{byte_len, utf8_width, char_width};
use crate::tree::SyntaxNode;

verus! {

#[verifier::external_type_specification]
#[verifier::external_body]
pub struct ExParser(tree_sitter::Parser);

#[verifier::external_type_specification]
#[verifier::external_body]
pub struct ExTree(tree_sitter::Tree);

#[verifier::external_type_specification]
#[verifier::external_body]
pub struct ExLanguage(tree_sitter::Language);

#[verifier::external_type_specification]
#[verifier::external_body]
pub struct ExNode<'tree>(tree_sitter::Node<'tree>);

/// `tree_sitter::Parser::new`: a parser with no language yet. The parser is
/// opaque here; nothing is stated of it.
#[verifier::external_body]
fn new_parser() -> tree_sitter::Parser {
    tree_sitter::Parser::new()
}

/// The PostgreSQL SQL grammar, `tree_sitter_postgres::LANGUAGE` as a `Language`.
/// The language is opaque here; nothing is stated of it.
#[verifier::external_body]
fn sql_language() -> tree_sitter::Language {
    tree_sitter_postgres::LANGUAGE.into()
}

/// The PL/pgSQL grammar, `tree_sitter_postgres::LANGUAGE_PLPGSQL` as a `Language`.
/// The language is opaque here; nothing is stated of it.
#[verifier::external_body]
fn plpgsql_language() -> tree_sitter::Language {
    tree_sitter_postgres::LANGUAGE_PLPGSQL.into()
}

/// `tree_sitter::Parser::set_language`; its error is turned into its message.
/// Whether it succeeds depends on the grammar's ABI version, which is not stated.
#[verifier::external_body]
fn set_language(parser: &mut tree_sitter::Parser, language: &tree_sitter::Language) -> Result<(), String> {
    parser.set_language(language).map_err(|e| e.to_string())
}

/// `tree_sitter::Parser::parse` on the whole of `text`. The tree it returns is
/// opaque here, so nothing ties it to `text`; `None` comes when no language
/// is set. Nothing is stated of the result.
#[verifier::external_body]
fn parse_text(parser: &mut tree_sitter::Parser, text: &str) -> Option<tree_sitter::Tree> {
    parser.parse(text, None)
}

/// `tree_sitter::Tree::root_node`. Tree and node are opaque here; nothing is
/// stated of the result.
#[verifier::external_body]
fn root_node<'t>(tree: &'t tree_sitter::Tree) -> tree_sitter::Node<'t> {
    tree.root_node()
}

/// `tree_sitter::Node::kind`, as an owned string. The node is opaque here, so
/// nothing ties the result to it.
#[verifier::external_body]
fn node_kind(n: &tree_sitter::Node) -> String {
    n.kind().to_string()
}

/// `tree_sitter::Node::is_named`. The node is opaque here, so nothing ties
/// the result to it.
#[verifier::external_body]
fn node_is_named(n: &tree_sitter::Node) -> bool {
    n.is_named()
}

/// `tree_sitter::Node::is_error`. The node is opaque here, so nothing ties
/// the result to it.
#[verifier::external_body]
fn node_is_error(n: &tree_sitter::Node) -> bool {
    n.is_error()
}

/// `tree_sitter::Node::is_missing`. The node is opaque here, so nothing ties
/// the result to it.
#[verifier::external_body]
fn node_is_missing(n: &tree_sitter::Node) -> bool {
    n.is_missing()
}

/// `tree_sitter::Node::has_error`. The node is opaque here, so nothing ties
/// the result to it.
#[verifier::external_body]
fn node_has_error(n: &tree_sitter::Node) -> bool {
    n.has_error()
}

/// `tree_sitter::Node::start_byte`. The node is opaque here, so nothing ties
/// the result to it; the copy checks each offset against the text.
#[verifier::external_body]
fn node_start_byte(n: &tree_sitter::Node) -> usize {
    n.start_byte()
}

/// `tree_sitter::Node::end_byte`. The node is opaque here, so nothing ties
/// the result to it; the copy checks each offset against the text.
#[verifier::external_body]
fn node_end_byte(n: &tree_sitter::Node) -> usize {
    n.end_byte()
}

/// `tree_sitter::Node::start_position`, as its row and column. The node is
/// opaque here, so nothing ties the result to it.
#[verifier::external_body]
fn node_start_position(n: &tree_sitter::Node) -> (usize, usize) {
    let p = n.start_position();
    (p.row, p.column)
}

/// `tree_sitter::Node::end_position`, as its row. The node is opaque here, so
/// nothing ties the result to it.
#[verifier::external_body]
fn node_end_row(n: &tree_sitter::Node) -> usize {
    n.end_position().row
}

/// `tree_sitter::Node::child_count`. The node is opaque here, so nothing ties
/// the result to it.
#[verifier::external_body]
fn node_child_count(n: &tree_sitter::Node) -> u32 {
    n.child_count()
}

/// `tree_sitter::Node::child`: the child at index `i`, `None` past the last.
/// The node is opaque here, so nothing ties the result to it.
#[verifier::external_body]
fn node_child<'t>(n: &tree_sitter::Node<'t>, i: u32) -> Option<tree_sitter::Node<'t>> {
    n.child(i)
}

// ---------------------------------------------------------------------------
// Byte offsets to character offsets
// ---------------------------------------------------------------------------

/// For each byte offset into the UTF-8 encoding of `chars`, the index of the
/// character that holds it; the offset just past the end maps to `chars.len()`.
pub open spec fn char_index_table_ok(chars: Seq<char>, t: Seq<usize>) -> bool {
    &&& t.len() == byte_len(chars) + 1
    &&& forall|b: int| 0 <= b < t.len() ==> #[trigger] t[b] <= chars.len()
    &&& forall|k: int| 0 <= k <= chars.len() ==> #[trigger] t[byte_len(chars.take(k)) as int] == k
}

proof fn lemma_byte_len_monotone(chars: Seq<char>, k: int)
    requires
        0 <= k <= chars.len(),
    ensures
        byte_len(chars.take(k)) <= byte_len(chars),
    decreases chars.len() - k,
{
    if k < chars.len() {
        assert(chars.take(k + 1).drop_last() =~= chars.take(k));
        lemma_byte_len_monotone(chars, k + 1);
    } else {
        assert(chars.take(k) =~= chars);
    }
}

/// The byte-to-character table of `chars`.
pub fn char_index_table(chars: &Vec<char>) -> (t: Vec<usize>)
    requires
        chars@.len() <= usize::MAX / 8,
    ensures
        char_index_table_ok(chars@, t@),
{
    let mut t: Vec<usize> = Vec::new();
    let mut k: usize = 0;
    while k < chars.len()
        invariant
            k <= chars@.len(),
            chars@.len() <= usize::MAX / 8,
            t@.len() == byte_len(chars@.take(k as int)),
            forall|b: int| 0 <= b < t@.len() ==> #[trigger] t@[b] < k,
            forall|x: int| 0 <= x < k ==> #[trigger] t@[byte_len(chars@.take(x)) as int] == x,
            forall|x: int| 0 <= x < k ==> byte_len(chars@.take(x)) < byte_len(chars@.take(k as int)),
        decreases chars.len() - k,
    {
        let w = char_width(chars[k]);
        let ghost before = t@;
        proof {
            assert(chars@.take(k + 1).drop_last() =~= chars@.take(k as int));
            crate::text::lemma_byte_len_bound(chars@.take(k as int));
        }
        let mut j: usize = 0;
        while j < w
            invariant
                j <= w,
                w == utf8_width(chars@[k as int]),
                k < chars@.len(),
                t@.len() == before.len() + j,
                t@.take(before.len() as int) == before,
                forall|b: int| before.len() <= b < t@.len() ==> #[trigger] t@[b] == k,
            decreases w - j,
        {
            t.push(k);
            j += 1;
            assert(t@.take(before.len() as int) =~= before);
        }
        assert forall|b: int| 0 <= b < t@.len() implies #[trigger] t@[b] < k + 1 by {
            if b < before.len() {
                assert(t@[b] == t@.take(before.len() as int)[b]);
            }
        }
        assert forall|x: int| 0 <= x < k + 1 implies #[trigger] t@[byte_len(chars@.take(x)) as int] == x by {
            if x < k {
                assert(t@[byte_len(chars@.take(x)) as int] == t@.take(before.len() as int)[byte_len(chars@.take(x)) as int]);
            }
        }
        k += 1;
    }
    assert(chars@.take(k as int) =~= chars@);
    t.push(chars.len());
    assert forall|x: int| 0 <= x <= chars@.len() implies #[trigger] t@[byte_len(chars@.take(x)) as int] == x by {
        if x < chars@.len() {
            lemma_byte_len_monotone(chars@, x);
        } else {
            assert(chars@.take(x) =~= chars@);
        }
    }
    t
}

/// The character offset of byte offset `b`, or the end of the text when `b`
/// lies beyond it.
fn char_offset(t: &Vec<usize>, b: usize, n: usize) -> (r: usize)
    requires
        forall|x: int| 0 <= x < t@.len() ==> #[trigger] t@[x] <= n,
    ensures
        r <= n,
        b < t@.len() ==> r == t@[b as int],
{
    if b < t.len() { t[b] } else { n }
}

/// Whether a node's offsets lie inside a text of `len` characters.
pub open spec fn in_range(n: SyntaxNode, len: nat) -> bool
    decreases n,
{
    &&& n.start <= n.end <= len
    &&& forall|i: int| 0 <= i < n.children@.len() ==> in_range(#[trigger] n.children@[i], len)
}

/// Copy the tree below `n` into a `SyntaxNode`. `depth` bounds how deep the
/// copy goes; `None` comes when the tree is deeper, or holds more nodes than
/// ids can count.
fn copy_node(
    n: &tree_sitter::Node,
    t: &Vec<usize>,
    nchars: usize,
    next_id: &mut usize,
    depth: usize,
) -> (r: Option<SyntaxNode>)
    requires
        forall|x: int| 0 <= x < t@.len() ==> #[trigger] t@[x] <= nchars,
    ensures
        r matches Some(node) ==> in_range(node, nchars as nat),
    decreases depth,
{
    if depth == 0 || *next_id == usize::MAX {
        return None;
    }
    let id = *next_id;
    *next_id = id + 1;
    let kind = node_kind(n);
    let named = node_is_named(n);
    let is_error = node_is_error(n);
    let is_missing = node_is_missing(n);
    let has_error = node_has_error(n);
    let start = char_offset(t, node_start_byte(n), nchars);
    let end0 = char_offset(t, node_end_byte(n), nchars);
    let end = if end0 < start { start } else { end0 };
    let (start_row, start_col) = node_start_position(n);
    let end_row = node_end_row(n);
    let count = node_child_count(n);
    let mut children: Vec<SyntaxNode> = Vec::new();
    let mut i: u32 = 0;
    while i < count
        invariant
            depth > 0,
            forall|x: int| 0 <= x < t@.len() ==> #[trigger] t@[x] <= nchars,
            forall|k: int| 0 <= k < children@.len() ==> in_range(#[trigger] children@[k], nchars as nat),
        decreases count - i,
    {
        match node_child(n, i) {
            Some(c) => {
                match copy_node(&c, t, nchars, next_id, depth - 1) {
                    Some(sc) => children.push(sc),
                    None => return None,
                }
            },
            None => {},
        }
        i += 1;
    }
    Some(SyntaxNode {
        kind,
        named,
        is_error,
        is_missing,
        has_error,
        id,
        start,
        end,
        start_row,
        start_col,
        end_row,
        children,
    })
}

/// Which tree-sitter grammar to parse with.
pub enum Grammar {
    /// PostgreSQL SQL statements.
    Sql,
    /// A PL/pgSQL function body.
    PlPgSql,
}

/// Why parsing could not produce a tree.
pub enum ParseFailure {
    /// The grammar could not be loaded; the parser's message.
    Language(String),
    /// The parser returned no tree.
    NoTree,
    /// The tree was deeper than the copy allows.
    TooDeep,
}

/// Parse `text` with `grammar` and copy the resulting tree. The tree that
/// tree-sitter builds is not stated here; what is stated is that every
/// node's offsets lie inside `chars`, the characters of `text`.
pub fn parse_tree(text: &str, chars: &Vec<char>, grammar: Grammar) -> (r: Result<SyntaxNode, ParseFailure>)
    requires
        chars@ == text@,
        chars@.len() <= usize::MAX / 8,
    ensures
        r matches Ok(root) ==> in_range(root, chars@.len()),
{
    let mut parser = new_parser();
    let language = match grammar {
        Grammar::Sql => sql_language(),
        Grammar::PlPgSql => plpgsql_language(),
    };
    match set_language(&mut parser, &language) {
        Ok(()) => {},
        Err(msg) => return Err(ParseFailure::Language(msg)),
    }
    let tree = match parse_text(&mut parser, text) {
        Some(tree) => tree,
        None => return Err(ParseFailure::NoTree),
    };
    let root = root_node(&tree);
    let t = char_index_table(chars);
    let mut next_id: usize = 0;
    let depth = chars.len() * 4 + 256;
    match copy_node(&root, &t, chars.len(), &mut next_id, depth) {
        Some(node) => Ok(node),
        None => Err(ParseFailure::TooDeep),
    }
}

} // verus!
