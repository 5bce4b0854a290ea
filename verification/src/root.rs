//! Formatting a whole parsed input: its statements one after the other,
//! literals put back, comments kept (a statement whose comments the layout
//! lost comes out as written), standalone comments kept.
#![verifier::loop_isolation(false)]

use vstd::prelude::*;
use crate::chars::push_char;
use crate::config::Formatter;
use crate::error::FormatError;
use crate::lexical::{occurs_at, collapse_whitespace, ends_in_line_comment, restore_literals, quoted_spans_of,
    law_restore_without_source_literals};
use crate::strs::{has_prefix, has_suffix, char_count, concat, ends_with, find, join, owned, same, slice_chars, starts_with,
    trim_end};
use crate::tree::{SyntaxNode, height, lemma_child_lower, comment_free, lemma_comment_free_child,
    first_named_at, first_of_kind_at};
use crate::config::{node_text, cased};
use crate::stmt_nodes::{passed_through, supported_statement};
use crate::expr::{string_views, join_with};

verus! {

/// The number of nodes of the tree under `node`, itself included
/// (saturating).
pub(crate) fn count_nodes(node: &SyntaxNode) -> (r: usize)
    ensures
        r >= 1,
        r == capped(tree_size(*node)),
    decreases height(*node),
{
    let mut n: usize = 1;
    let mut i: usize = 0;
    while i < node.children.len()
        invariant
            n >= 1,
            i <= node.children@.len(),
            n == capped(1 + children_size(*node, i as int)),
        decreases node.children.len() - i,
    {
        proof { lemma_child_lower(*node, i as int); }
        let c = count_nodes(&node.children[i]);
        n = n.saturating_add(c);
        i += 1;
    }
    n
}

/// `n`, held at the largest `usize`.
pub open spec fn capped(n: nat) -> nat {
    if n < usize::MAX { n } else { usize::MAX as nat }
}

/// The number of nodes of the tree under `n`, itself included.
pub open spec fn tree_size(n: SyntaxNode) -> nat
    decreases n, 1nat,
{
    1 + children_size(n, n.children@.len() as int)
}

/// The number of nodes under the first `k` children of `n`.
pub open spec fn children_size(n: SyntaxNode, k: int) -> nat
    decreases n, 0nat, k,
{
    if k <= 0 || k > n.children@.len() {
        0
    } else {
        children_size(n, k - 1) + tree_size(n.children@[k - 1])
    }
}

/// The call budget for formatting the tree under `root`: 64 nested calls
/// for each of its nodes.
pub(crate) fn budget_for(root: &SyntaxNode) -> (r: usize)
    ensures
        r >= 64,
{
    let n = count_nodes(root);
    if n > (usize::MAX - 64) / 64 {
        usize::MAX
    } else {
        n * 64 + 64
    }
}

/// `formatted` where each of `comments` already stands in it and, for a
/// line comment, ends its line there; nothing otherwise.
pub(crate) fn restore_comments(comments: &Vec<(usize, String)>, formatted: &str) -> (r: Option<String>)
    ensures
        r matches Some(x) ==> x@ == formatted@,
        r is Some <==> forall|k: int| 0 <= k < comments@.len() ==> comment_placed(formatted@, (#[trigger] comments@[k]).1@),
{
    let n = char_count(formatted);
    proof { reveal_strlit("--"); reveal_strlit("\n"); }
    let mut k: usize = 0;
    while k < comments.len()
        invariant
            n == formatted@.len(),
            forall|x: int| 0 <= x < k ==> comment_placed(formatted@, (#[trigger] comments@[x]).1@),
        decreases comments.len() - k,
    {
        let c = comments[k].1.as_str();
        let ghost f = formatted@;
        let ghost cv = c@;
        assert(cv == comments@[k as int].1@);
        assert("\n"@ =~= seq!['\n']);
        match find(formatted, c) {
            Some(at) => {
                proof {
                    assert forall|a: int| #![trigger occurs_at(f, cv, a)] occurs_at(f, cv, a)
                        && (forall|j: int| 0 <= j < a ==> !occurs_at(f, cv, j)) implies a == at by {
                        if a < at { assert(!occurs_at(f, cv, a)); }
                        if at < a { assert(!occurs_at(f, cv, at as int)); }
                    }
                }
                if starts_with(c, "--") {
                    let m = char_count(c);
                    if at <= n && m <= n - at {
                        let after = at + m;
                        if after < n {
                            let next = slice_chars(formatted, after, after + 1);
                            let is_nl = same(next.as_str(), "\n");
                            assert(is_nl == (next@ == "\n"@));
                            if !is_nl {
                                proof {
                                    assert(next@ =~= seq![f[after as int]]);
                                    assert(f[after as int] != '\n');
                                    assert(!comment_placed(f, cv));
                                }
                                return None;
                            }
                            proof {
                                assert(next@ =~= seq![f[after as int]]);
                                assert(next@ == seq!['\n']);
                                assert(next@[0] == '\n');
                                assert(f[after as int] == '\n');
                                assert(occurs_at(f, cv, at as int));
                                assert(comment_placed(f, cv));
                            }
                        } else {
                            proof {
                                assert(occurs_at(f, cv, at as int));
                                assert(comment_placed(f, cv));
                            }
                        }
                    } else {
                        return None;
                    }
                } else {
                    proof {
                        assert(occurs_at(f, cv, at as int));
                        assert(comment_placed(f, cv));
                    }
                }
            },
            None => {
                proof { assert(!comment_placed(f, cv)); }
                return None;
            },
        }
        k += 1;
    }
    Some(owned(formatted))
}

/// Whether comment `c` stands in `f`: it occurs there, and where it is a
/// line comment its first occurrence ends a line.
pub open spec fn comment_placed(f: Seq<char>, c: Seq<char>) -> bool {
    exists|at: int| #![trigger occurs_at(f, c, at)] occurs_at(f, c, at)
        && (forall|j: int| 0 <= j < at ==> !occurs_at(f, c, j))
        && (has_prefix(c, "--"@) ==> (at + c.len() == f.len() || f[at + c.len()] == '\n'))
}

/// A text that ends with `;` keeps it when trailing whitespace goes.
pub proof fn lemma_trim_end_keeps_semicolon(s: Seq<char>)
    ensures
        crate::strs::has_suffix(crate::lexical::trim_end_of(s.push(';')), ";"@),
{
    reveal_strlit(";");
    let t = s.push(';');
    assert(!crate::chars::is_whitespace_char(';'));
    assert(crate::lexical::trimmed_end(t, t.len() as int) == t.len());
    assert(crate::lexical::trim_end_of(t) =~= t);
    assert(t.skip(t.len() - 1) =~= seq![';']);
    assert(";"@ =~= seq![';']);
}

/// Child `i` of `root` is its one statement, and no other child is a
/// statement or a comment.
pub open spec fn sole_statement(root: SyntaxNode, i: int) -> bool {
    &&& 0 <= i < root.children@.len()
    &&& root.children@[i].named && root.children@[i].kind@ == "toplevel_stmt"@
    &&& forall|x: int| 0 <= x < root.children@.len() && x != i ==> !(#[trigger] root.children@[x].named
        && (root.children@[x].kind@ == "toplevel_stmt"@ || root.children@[x].kind@ == "comment"@))
}

/// The statement node (child `k` of the `stmt` node, child `j` of the
/// statement at child `i` of `root`).
pub open spec fn lone_statement_node(root: SyntaxNode, i: int, j: int, k: int) -> SyntaxNode {
    root.children@[i].children@[j].children@[k]
}

/// `root` holds one statement and no comment; the statement, of a kind
/// without a layout of its own, holds no comment and its text no string
/// constant or quoted identifier.
pub open spec fn lone_plain_statement(chars: Seq<char>, root: SyntaxNode, i: int, j: int, k: int) -> bool {
    &&& sole_statement(root, i)
    &&& first_of_kind_at(root.children@[i], j, "stmt"@)
    &&& first_named_at(root.children@[i].children@[j], k)
    &&& comment_free(root.children@[i])
    &&& !supported_statement(lone_statement_node(root, i, j, k).kind@)
    &&& quoted_spans_of(node_text(chars, root.children@[i].children@[j])).len() == 0
    &&& node_text(chars, lone_statement_node(root, i, j, k)).len() < usize::MAX
}

/// The offsets and texts of a list of collected comments.
pub open spec fn pair_views(v: Seq<(usize, String)>) -> Seq<(usize, Seq<char>)> {
    v.map_values(|p: (usize, String)| (p.0, p.1@))
}

/// `n` itself as a collected comment, if it is one: its offset from `base`
/// (none before `base`) and its text without trailing whitespace.
pub open spec fn own_comment(chars: Seq<char>, n: SyntaxNode, base: usize) -> Seq<(usize, Seq<char>)> {
    if n.kind@ == "comment"@ {
        seq![((if n.start >= base { (n.start - base) as usize } else { 0usize }),
            crate::lexical::trim_end_of(node_text(chars, n)))]
    } else {
        Seq::empty()
    }
}

/// The comments under `n`, `n` included, in source order.
pub open spec fn comments_under(chars: Seq<char>, n: SyntaxNode, base: usize) -> Seq<(usize, Seq<char>)>
    decreases n, 1nat,
{
    own_comment(chars, n, base) + comments_in_children(chars, n, base, n.children@.len() as int)
}

/// The comments under the first `k` children of `n`.
pub open spec fn comments_in_children(chars: Seq<char>, n: SyntaxNode, base: usize, k: int)
    -> Seq<(usize, Seq<char>)>
    decreases n, 0nat, k,
{
    if k <= 0 || k > n.children@.len() {
        Seq::empty()
    } else {
        comments_in_children(chars, n, base, k - 1) + comments_under(chars, n.children@[k - 1], base)
    }
}

/// Whether each of the collected comments `cs` stands in `f`.
pub open spec fn all_placed(f: Seq<char>, cs: Seq<(usize, Seq<char>)>) -> bool {
    forall|k: int| 0 <= k < cs.len() ==> comment_placed(f, #[trigger] cs[k].1)
}

/// A statement as written, whitespace collapsed, given the `;` that its
/// formatted text `f` ends with (on a line of its own after a line comment).
pub open spec fn kept_as_written(text: Seq<char>, f: Seq<char>) -> Seq<char> {
    let v = crate::lexical::collapsed(text);
    if has_suffix(crate::lexical::trim_end_of(f), ";"@) && !has_suffix(v, ";"@) && v.len() < usize::MAX {
        if crate::lexical::comment_runs_to_end_from(crate::lexical::trim_end_of(v), 0) {
            v.push('\n').push(';')
        } else {
            v.push(';')
        }
    } else {
        v
    }
}

/// How many top-level statements the root node `root` holds.
pub open spec fn statement_count(root: SyntaxNode) -> nat {
    crate::select_nodes::kind_count(crate::tree::named_of(root.children@), "toplevel_stmt"@)
}

/// How many top-level statements come among the first `i` children of `root`.
pub open spec fn statements_before(root: SyntaxNode, i: int) -> nat {
    crate::select_nodes::kind_count(crate::tree::named_of(root.children@.take(i)), "toplevel_stmt"@)
}

/// One child more adds one statement where it is a named `toplevel_stmt`,
/// none otherwise.
pub proof fn lemma_statements_step(root: SyntaxNode, i: int)
    requires
        0 <= i < root.children@.len(),
    ensures
        statements_before(root, i + 1) == statements_before(root, i)
            + if root.children@[i].named && root.children@[i].kind@ == "toplevel_stmt"@ { 1nat } else { 0nat },
{
    let t = root.children@.take(i + 1);
    assert(t.drop_last() =~= root.children@.take(i));
    assert(t.last() == root.children@[i]);
    let n0 = crate::tree::named_of(root.children@.take(i));
    if root.children@[i].named {
        assert(n0.push(root.children@[i]).drop_last() =~= n0);
    }
}

/// How the PL/pgSQL `block` opens in the formatted text `s`: with BEGIN or
/// DECLARE in the style's case, as the block's first item says.
pub open spec fn block_opening(config: crate::config::StyleConfig, block: SyntaxNode, s: Seq<char>) -> bool {
    let items = crate::tree::named_of(block.children@);
    &&& (items.len() > 0 && items[0].kind@ == "kw_begin"@ ==> has_prefix(s, cased(config, "BEGIN"@)))
    &&& (items.len() > 0 && items[0].kind@ == "decl_sect"@ ==> has_prefix(s, cased(config, "DECLARE"@)))
}

impl<'a> Formatter<'a> {
    /// The comment nodes under `node`, each with its offset from `base` and
    /// its text without trailing whitespace, in source order.
    fn collect_comments(&self, node: &SyntaxNode, base: usize, out: &mut Vec<(usize, String)>)
        ensures
            comment_free(*node) ==> final(out)@ == old(out)@,
            pair_views(final(out)@) == pair_views(old(out)@) + comments_under(self.chars@, *node, base),
        decreases height(*node),
    {
        let ghost start = pair_views(out@);
        if node.is("comment") {
            let offset = node.start.saturating_sub(base);
            let t = self.text(node);
            out.push((offset, trim_end(t.as_str())));
            assert(pair_views(out@) =~= start + own_comment(self.chars@, *node, base));
        } else {
            assert(pair_views(out@) =~= start + own_comment(self.chars@, *node, base));
        }
        let mut i: usize = 0;
        while i < node.children.len()
            invariant
                i <= node.children@.len(),
                comment_free(*node) ==> out@ == old(out)@,
                pair_views(out@) == start + own_comment(self.chars@, *node, base)
                    + comments_in_children(self.chars@, *node, base, i as int),
            decreases node.children.len() - i,
        {
            proof {
                lemma_child_lower(*node, i as int);
                if comment_free(*node) {
                    lemma_comment_free_child(*node, node.children@.len() as int, i as int);
                }
            }
            self.collect_comments(&node.children[i], base, out);
            assert(pair_views(out@) =~= start + own_comment(self.chars@, *node, base)
                + comments_in_children(self.chars@, *node, base, i + 1));
            i += 1;
        }
    }

    /// Keep the comments inside `stmt`: where every one of them already stands
    /// in `formatted` (a line comment ending its line), `formatted` is kept;
    /// otherwise the statement comes out as written with only its whitespace
    /// collapsed: losing the formatting is better than losing a comment.
    pub(crate) fn restore_stmt_comments(&self, stmt: &SyntaxNode, formatted: String) -> (r: String)
        ensures
            comment_free(*stmt) ==> r@ == formatted@,
            all_placed(formatted@, comments_under(self.chars@, *stmt, stmt.start)) ==> r@ == formatted@,
            !all_placed(formatted@, comments_under(self.chars@, *stmt, stmt.start))
                && node_text(self.chars@, *stmt).len() < usize::MAX - 1
                ==> r@ == kept_as_written(node_text(self.chars@, *stmt), formatted@),
    {
        let source = self.text(stmt);
        let mut comments: Vec<(usize, String)> = Vec::new();
        self.collect_comments(stmt, stmt.start, &mut comments);
        let ghost cs = comments_under(self.chars@, *stmt, stmt.start);
        assert(pair_views(comments@) =~= cs);
        if comments.len() == 0 {
            return formatted;
        }
        let placed = restore_comments(&comments, formatted.as_str());
        proof {
            assert forall|k: int| 0 <= k < cs.len() implies
                (comment_placed(formatted@, cs[k].1) == comment_placed(formatted@, (#[trigger] comments@[k]).1@)) by {
                assert(pair_views(comments@)[k] == (comments@[k].0, comments@[k].1@));
            }
            if placed is Some {
                assert forall|k: int| 0 <= k < cs.len() implies comment_placed(formatted@, cs[k].1) by {
                    assert(comment_placed(formatted@, comments@[k].1@));
                }
            } else {
                let k = choose|k: int| 0 <= k < comments@.len() && !comment_placed(formatted@, (#[trigger] comments@[k]).1@);
                assert(!comment_placed(formatted@, cs[k].1));
            }
        }
        if let Some(restored) = placed {
            return restored;
        }
        if char_count(source.as_str()) >= usize::MAX - 1 {
            return formatted;
        }
        let mut verbatim = collapse_whitespace(source.as_str());
        let ft = trim_end(formatted.as_str());
        if ends_with(ft.as_str(), ";") && !ends_with(verbatim.as_str(), ";") && char_count(verbatim.as_str()) < usize::MAX {
            if ends_in_line_comment(verbatim.as_str()) {
                push_char(&mut verbatim, '\n');
            }
            push_char(&mut verbatim, ';');
        }
        verbatim
    }

    /// `output` with the literals of `source` that it re-indented put back.
    fn with_literals(source: &str, output: &str) -> (r: String)
        ensures
            quoted_spans_of(source@).len() == 0 ==> r@ == output@,
    {
        if char_count(source) < usize::MAX && char_count(output) < usize::MAX {
            let r = restore_literals(source, output);
            proof {
                if quoted_spans_of(source@).len() == 0 {
                    law_restore_without_source_literals(source@, output@);
                }
            }
            r
        } else {
            owned(output)
        }
    }

    /// Format the root `source_file` node: each statement formatted, the
    /// results separated by blank lines; a comment on the line where a
    /// statement ends stays on that line, other comments between statements
    /// are kept as written.
    pub fn format_root(&self, root: &SyntaxNode) -> (r: Result<String, FormatError>)
        ensures
            r is Ok,
            (forall|i: int| 0 <= i < root.children@.len() ==> !(#[trigger] root.children@[i].named
                && (root.children@[i].kind@ == "toplevel_stmt"@ || root.children@[i].kind@ == "comment"@)))
                ==> (r matches Ok(s) && s@.len() == 0),
            forall|i: int, j: int, k: int| !self.config.pg_dump
                && #[trigger] lone_plain_statement(self.chars@, *root, i, j, k)
                ==> (r matches Ok(s) && s@ == passed_through(node_text(self.chars@, lone_statement_node(*root, i, j, k)))),
            r matches Ok(s) && exists|rs: Seq<Seq<char>>|
                rs.len() >= statement_count(*root) && s@ == #[trigger] join_with(rs, "\n\n"@),
    {
        let b = budget_for(root);
        let mut results: Vec<String> = Vec::new();
        let mut statements: usize = 0;
        let mut i: usize = 0;
        while i < root.children.len()
            invariant
                statements <= i,
            decreases root.children.len() - i,
        {
            if root.children[i].named && root.children[i].is("toplevel_stmt") {
                statements += 1;
            }
            i += 1;
        }
        let mut i: usize = 0;
        while i < root.children.len()
            invariant
                i <= root.children@.len(),
                (forall|j: int| 0 <= j < i ==> !(#[trigger] root.children@[j].named
                    && (root.children@[j].kind@ == "toplevel_stmt"@ || root.children@[j].kind@ == "comment"@)))
                    ==> results@.len() == 0,
                forall|i0: int, j: int, k: int| !self.config.pg_dump
                    && #[trigger] lone_plain_statement(self.chars@, *root, i0, j, k) ==> {
                        &&& i <= i0 ==> results@.len() == 0
                        &&& i > i0 ==> results@.len() == 1 && results@[0]@
                            == passed_through(node_text(self.chars@, lone_statement_node(*root, i0, j, k)))
                    },
                results@.len() >= statements_before(*root, i as int),
            decreases root.children.len() - i,
        {
            proof { lemma_statements_step(*root, i as int); }
            let child = &root.children[i];
            if child.named && child.is("toplevel_stmt") {
                // Most statements are wrapped in a `stmt` node; some (the
                // legacy `BEGIN`) are direct children of `toplevel_stmt`.
                let stmt = match child.find_child("stmt") {
                    Some(s) => s,
                    None => child,
                };
                let source = self.text(stmt);
                if self.config.pg_dump {
                    let f = match self.format_pgdump_stmt(stmt, b) {
                        Ok(f) => f,
                        Err(e) => { return Err(e); },
                    };
                    let text = Self::with_literals(source.as_str(), f.as_str());
                    let mut text = self.restore_stmt_comments(child, text);
                    // A lone statement keeps the deparser's missing `;`; a
                    // second one needs the first terminated.
                    let te = trim_end(text.as_str());
                    if statements > 1 && !ends_with(te.as_str(), ";") {
                        if char_count(text.as_str()) < usize::MAX && ends_in_line_comment(text.as_str()) {
                            push_char(&mut text, '\n');
                        }
                        push_char(&mut text, ';');
                    }
                    results.push(text);
                } else {
                    let ghost before = results@;
                    let f = match self.format_stmt(stmt, b) {
                        Ok(f) => f,
                        Err(e) => { return Err(e); },
                    };
                    let text = Self::with_literals(source.as_str(), f.as_str());
                    results.push(self.restore_stmt_comments(child, text));
                    proof {
                        assert forall|i0: int, j: int, k: int|
                            #[trigger] lone_plain_statement(self.chars@, *root, i0, j, k) implies {
                                &&& i + 1 <= i0 ==> results@.len() == 0
                                &&& i + 1 > i0 ==> results@.len() == 1 && results@[0]@
                                    == passed_through(node_text(self.chars@, lone_statement_node(*root, i0, j, k)))
                            } by {
                            if i0 != i {
                                assert(!(root.children@[i as int].named
                                    && root.children@[i as int].kind@ == "toplevel_stmt"@));
                            }
                            let c = root.children@[i0];
                            let j0 = choose|x: int| first_of_kind_at(c, x, "stmt"@) && *stmt == #[trigger] c.children@[x];
                            if j0 < j {
                                assert(!(c.children@[j0].named && c.children@[j0].kind@ == "stmt"@));
                            }
                            if j < j0 {
                                assert(!(c.children@[j].named && c.children@[j].kind@ == "stmt"@));
                            }
                            assert(j0 == j);
                            assert(f@ == passed_through(node_text(self.chars@, lone_statement_node(*root, i0, j, k))));
                        }
                    }
                }
            } else if child.named && child.is("comment") {
                proof {
                    assert forall|i0: int, j: int, k: int|
                        #[trigger] lone_plain_statement(self.chars@, *root, i0, j, k) implies false by {
                        assert(i0 != i);
                    }
                }
                let t = self.text(child);
                let text = trim_end(t.as_str());
                let same_line = i > 0 && !root.children[i - 1].is("comment")
                    && root.children[i - 1].end_row == child.start_row && results.len() > 0;
                if same_line {
                    // `SELECT 1; -- why` keeps its comment on the line.
                    let tail = concat(&[" ", text.as_str()]);
                    crate::expr_nodes::append_last(&mut results, tail.as_str());
                } else {
                    // A standalone comment between statements, as written.
                    results.push(text);
                }
            } else {
                proof {
                    assert forall|i0: int, j: int, k: int|
                        #[trigger] lone_plain_statement(self.chars@, *root, i0, j, k) implies i0 != i by {
                    }
                }
            }
            i += 1;
        }
        proof { assert(root.children@.take(root.children@.len() as int) =~= root.children@); }
        if results.len() == 0 {
            proof {
                assert(join_with(Seq::<Seq<char>>::empty(), "\n\n"@) == Seq::<char>::empty());
            }
            return Ok(String::new());
        }
        let r = join(&results, "\n\n");
        proof { assert(string_views(results@).len() == results@.len()); }
        proof {
            assert forall|i0: int, j: int, k: int| !self.config.pg_dump
                && #[trigger] lone_plain_statement(self.chars@, *root, i0, j, k)
                implies r@ == passed_through(node_text(self.chars@, lone_statement_node(*root, i0, j, k))) by {
                assert(string_views(results@).len() == 1);
            }
        }
        Ok(r)
    }

    /// Format a PL/pgSQL root node: its block, ended with `;`; without a
    /// block, the source as written.
    pub fn format_plpgsql_root(&self, root: &SyntaxNode) -> (r: Result<String, FormatError>)
        ensures
            r is Ok,
            (exists|i: int| 0 <= i < root.children@.len() && #[trigger] root.children@[i].named
                && root.children@[i].kind@ == "pl_block"@) ==> (r matches Ok(s)
                && crate::strs::has_suffix(crate::lexical::trim_end_of(s@), ";"@)),
            (forall|i: int| 0 <= i < root.children@.len() ==> !(#[trigger] root.children@[i].named
                && root.children@[i].kind@ == "pl_block"@)) ==> (r matches Ok(s)
                && s@ == crate::config::node_text(self.chars@, *root)),
            crate::tree::first_kid(*root, "comp_options"@) is None
                ==> (crate::tree::first_kid(*root, "pl_block"@) matches Some(blk)
                ==> (r matches Ok(s) && block_opening(self.config, blk, s@))),
    {
        proof { reveal_strlit(";"); }
        match root.find_child("pl_block") {
            Some(block) => {
                proof { crate::tree::lemma_found_kid(*root, "pl_block"@, *block); }
                let block_text = self.format_plpgsql_block(block, 0, budget_for(root));
                proof { assert(crate::text::spaces(0) + cased(self.config, "BEGIN"@) =~= cased(self.config, "BEGIN"@));
                    assert(crate::text::spaces(0) + cased(self.config, "DECLARE"@) =~= cased(self.config, "DECLARE"@)); }
                let ghost opts_none = crate::tree::first_kid(*root, "comp_options"@) is None;
                // Compiler directives (`#variable_conflict ...`) come first,
                // each on a line of its own.
                let mut lines: Vec<String> = Vec::new();
                if let Some(opts) = root.find_child("comp_options") {
                    let named = opts.named_children();
                    let mut k: usize = 0;
                    while k < named.len()
                        decreases named.len() - k,
                    {
                        lines.push(self.trimmed_text(named[k]));
                        k += 1;
                    }
                }
                let ghost bt = block_text@;
                lines.push(block_text);
                let mut body = join(&lines, "\n");
                proof {
                    if opts_none {
                        assert(string_views(lines@) =~= seq![bt]);
                        assert(body@ == bt);
                    }
                }
                let ghost b0 = body@;
                // The outermost block ends with `END;`.
                let te = trim_end(body.as_str());
                if !ends_with(te.as_str(), ";") {
                    let ghost before = body@;
                    push_char(&mut body, ';');
                    proof { lemma_trim_end_keeps_semicolon(before); }
                }
                proof {
                    if opts_none {
                        assert(has_prefix(body@, b0) ) by { assert(body@.take(b0.len() as int) =~= b0); }
                        let items = crate::tree::named_of(block.children@);
                        if items.len() > 0 && items[0].kind@ == "kw_begin"@ {
                            crate::strs::lemma_prefix_trans(body@, b0, cased(self.config, "BEGIN"@));
                        }
                        if items.len() > 0 && items[0].kind@ == "decl_sect"@ {
                            crate::strs::lemma_prefix_trans(body@, b0, cased(self.config, "DECLARE"@));
                        }
                    }
                }
                Ok(body)
            },
            None => Ok(self.text(root)),
        }
    }
}

} // verus!
