//! PL/pgSQL formatting: blocks, declarations and control statements, two
//! spaces per nesting level.
#![verifier::loop_isolation(false)]

use vstd::prelude::*;
use crate::chars::push_char;
use crate::config::{Formatter, StyleConfig, cased, node_text};
use crate::tree::{first_of_kind_at, first_kid};
use crate::stmt::trim_of;
use crate::text::spaces;
use crate::expr_nodes::append_last;
use crate::strs::{concat, find, join, same, slice_chars, trim};
use crate::tree::{SyntaxNode, named_of};
use crate::expr::string_views;
use crate::select_nodes::{appended, lemma_appended_push, lemma_appended_self, lemma_appended_trans};
use crate::strs::{concat_views, has_prefix, lemma_prefix_append};

verus! {

/// Two spaces for each level.
pub fn level_indent(level: usize) -> (r: String)
    ensures
        r@ == spaces(2 * level as nat),
{
    let mut r = String::new();
    let mut k: usize = 0;
    while k < level
        invariant
            k <= level,
            r@ == spaces(2 * k as nat),
        decreases level - k,
    {
        push_char(&mut r, ' ');
        push_char(&mut r, ' ');
        assert(r@ =~= spaces(2 * (k + 1) as nat));
        k += 1;
    }
    r
}

/// The line that closes a block opened by `word` at `level`: `END word;`.
pub open spec fn block_end(config: StyleConfig, level: nat, word: Seq<char>) -> Seq<char> {
    spaces(2 * level) + cased(config, "END"@) + seq![' '] + cased(config, word) + seq![';']
}

/// The trimmed text of the first named child of `n` of kind `kind`, or
/// nothing where it has none.
pub open spec fn kid_text(chars: Seq<char>, n: SyntaxNode, kind: Seq<char>) -> Seq<char> {
    match first_kid(n, kind) {
        Some(c) => trim_of(node_text(chars, c)),
        None => Seq::empty(),
    }
}

/// The least number of lines that the statements of a loop's body give.
pub open spec fn loop_body_lines(n: SyntaxNode) -> nat {
    match crate::tree::first_kid_within(n, "loop_body"@, "proc_sect"@) {
        Some(p) => stmt_lines(named_of(p.children@)),
        None => 0,
    }
}

/// The line that opens a loop at `level`: `WHILE condition LOOP` for a
/// WHILE loop, a bare `LOOP` for a plain one.
pub open spec fn loop_head(config: StyleConfig, chars: Seq<char>, n: SyntaxNode, level: nat) -> Seq<char> {
    if n.kind@ == "stmt_while"@ {
        spaces(2 * level) + cased(config, "WHILE"@) + seq![' '] + kid_text(chars, n, "sql_expression"@)
            + seq![' '] + cased(config, "LOOP"@)
    } else {
        spaces(2 * level) + cased(config, "LOOP"@)
    }
}

/// `END word;` at `indent`, `e` and `w` the cased keywords.
fn end_line(indent: &str, e: &str, w: &str) -> (r: String)
    ensures
        r@ == indent@ + e@ + seq![' '] + w@ + seq![';'],
{
    let r = concat(&[indent, e, " ", w, ";"]);
    proof {
        reveal_with_fuel(crate::strs::concat_views, 6);
        reveal_strlit(" ");
        reveal_strlit(";");
    }
    r
}

/// Push `l` onto `lines`.
pub(crate) fn push_line(lines: &mut Vec<String>, l: String)
    ensures
        final(lines)@ == old(lines)@.push(l),
        appended(old(lines)@, final(lines)@),
{
    proof { lemma_appended_push(lines@, l); }
    lines.push(l);
}

/// Whether `n` has a named child of kind `kind`.
pub open spec fn holds_kind(n: SyntaxNode, kind: Seq<char>) -> bool {
    exists|i: int| 0 <= i < n.children@.len() && #[trigger] n.children@[i].named && n.children@[i].kind@ == kind
}

/// How many of `s` are declarations that hold a `decl_statement`.
pub open spec fn decl_count(s: Seq<SyntaxNode>) -> nat
    decreases s.len(),
{
    if s.len() == 0 {
        0
    } else {
        decl_count(s.drop_last()) + if s.last().kind@ == "decl_stmt"@ && holds_kind(s.last(), "decl_statement"@) {
            1nat
        } else {
            0nat
        }
    }
}

/// Statement kinds that give at least one line each.
pub open spec fn sure_kind(k: Seq<char>) -> bool {
    k == "stmt_if"@ || k == "stmt_loop"@ || k == "stmt_while"@ || k == "stmt_for"@ || k == "stmt_foreach_a"@
        || k == "stmt_case"@ || k == "stmt_return"@ || k == "stmt_raise"@ || k == "stmt_null"@
        || k == "pl_block"@ || k == "comment"@
}

/// How many of `s` are of a kind that gives at least one line.
pub open spec fn sure_count(s: Seq<SyntaxNode>) -> nat
    decreases s.len(),
{
    if s.len() == 0 {
        0
    } else {
        sure_count(s.drop_last()) + if sure_kind(s.last().kind@) { 1nat } else { 0nat }
    }
}

/// The least number of lines that the statements among `s` give.
pub open spec fn stmt_lines(s: Seq<SyntaxNode>) -> nat
    decreases s.len(),
{
    if s.len() == 0 {
        0
    } else {
        stmt_lines(s.drop_last()) + if s.last().kind@ == "proc_stmt"@ {
            sure_count(named_of(s.last().children@))
        } else {
            0nat
        }
    }
}

/// A line made of `parts` begins with the first part and ends with the last
/// character of the last part.
proof fn lemma_line_shape(parts: Seq<&str>)
    requires
        parts.len() >= 1,
        parts.last()@.len() > 0,
    ensures
        has_prefix(concat_views(parts), parts[0]@),
        concat_views(parts).last() == parts.last()@.last(),
{
    crate::strs::lemma_concat_starts_with_first(parts);
    assert(concat_views(parts) == concat_views(parts.drop_last()) + parts.last()@);
}

/// Lines added after the first keep the first as it was.
proof fn lemma_appended_first(a: Seq<String>, b: Seq<String>)
    requires
        appended(a, b),
        a.len() >= 1,
    ensures
        b.len() >= 1,
        b[0]@ == a[0]@,
{
    assert(string_views(b).take(a.len() as int)[0] == string_views(a)[0]);
}

impl<'a> Formatter<'a> {
    /// The trimmed text of the first `kind` child, or nothing.
    fn child_text(&self, node: &SyntaxNode, kind: &str) -> (r: String)
        ensures
            forall|i: int| #[trigger] first_of_kind_at(*node, i, kind@)
                ==> r@ == trim_of(node_text(self.chars@, node.children@[i])),
            (forall|i: int| !#[trigger] first_of_kind_at(*node, i, kind@)) ==> r@.len() == 0,
    {
        match node.find_child(kind) {
            Some(n) => {
                let ghost i0 = choose|i: int| first_of_kind_at(*node, i, kind@) && *n == #[trigger] node.children@[i];
                proof {
                    assert forall|i: int| #[trigger] first_of_kind_at(*node, i, kind@) implies i == i0 by {
                        if i < i0 { assert(!(node.children@[i].named && node.children@[i].kind@ == kind@)); }
                        if i0 < i { assert(!(node.children@[i0].named && node.children@[i0].kind@ == kind@)); }
                    }
                }
                self.trimmed_text(n)
            },
            None => String::new(),
        }
    }

    /// Format a PL/pgSQL block at `indent_level`.
    pub(crate) fn format_plpgsql_block(&self, node: &SyntaxNode, indent_level: usize, b: usize) -> (r: String)
        ensures
            b == 0 ==> r@ == node_text(self.chars@, *node),
            b > 0 && named_of(node.children@).len() == 0 ==> r@.len() == 0,
            b > 0 && named_of(node.children@).len() > 0 && named_of(node.children@)[0].kind@ == "kw_begin"@
                ==> has_prefix(r@, spaces(2 * indent_level as nat) + cased(self.config, "BEGIN"@)),
            b > 0 && named_of(node.children@).len() > 0 && named_of(node.children@)[0].kind@ == "decl_sect"@
                ==> has_prefix(r@, spaces(2 * indent_level as nat) + cased(self.config, "DECLARE"@)),
        decreases b,
    {
        if b == 0 {
            return self.text(node);
        }
        let d = b - 1;
        let indent = level_indent(indent_level);
        let inner = indent_level.saturating_add(1);
        let mut lines: Vec<String> = Vec::new();
        let named = node.named_children();
        let ghost ns = named_of(node.children@);
        let ghost lead: Seq<char> = if ns.len() > 0 && ns[0].kind@ == "kw_begin"@ {
            indent@ + cased(self.config, "BEGIN"@)
        } else if ns.len() > 0 && ns[0].kind@ == "decl_sect"@ {
            indent@ + cased(self.config, "DECLARE"@)
        } else {
            Seq::empty()
        };
        let ghost has_lead = ns.len() > 0 && (ns[0].kind@ == "kw_begin"@ || ns[0].kind@ == "decl_sect"@);
        let mut k: usize = 0;
        while k < named.len()
            invariant
                k <= named@.len(),
                named@.map_values(|c: &SyntaxNode| *c) == ns,
                k == 0 ==> lines@.len() == 0,
                k > 0 && has_lead ==> lines@.len() >= 1,
                lines@.len() >= 1 && has_lead ==> has_prefix(lines@[0]@, lead),
            decreases named.len() - k,
        {
            let ghost before = lines@;
            proof { assert(ns[k as int] == *named@[k as int]); }
            let child = named[k];
            k += 1;
            if child.is("decl_sect") {
                let kw = self.kw("DECLARE");
                let line = concat(&[indent.as_str(), kw.as_str()]);
                proof {
                    reveal_with_fuel(crate::strs::concat_views, 3);
                    assert(line@ =~= indent@ + kw@);
                    crate::strs::lemma_prefix_self(line@);
                }
                push_line(&mut lines, line);
                let ghost mid = lines@;
                proof {
                    if before.len() >= 1 {
                        assert(mid[0] == before[0]);
                    } else {
                        assert(mid[0] == line);
                    }
                    reveal_strlit("kw_begin");
                    reveal_strlit("decl_sect");
                    assert("kw_begin"@.len() == 8);
                    assert("decl_sect"@.len() == 9);
                }
                self.format_decl_sect(child, inner, &mut lines);
                proof { lemma_appended_first(mid, lines@); }
            } else if child.is("kw_begin") {
                let kw = self.kw("BEGIN");
                let line = concat(&[indent.as_str(), kw.as_str()]);
                proof {
                    reveal_with_fuel(crate::strs::concat_views, 3);
                    assert(line@ =~= indent@ + kw@);
                    crate::strs::lemma_prefix_self(line@);
                }
                push_line(&mut lines, line);
            } else if child.is("proc_sect") {
                self.format_proc_sect(child, inner, &mut lines, d);
                proof { if before.len() >= 1 { lemma_appended_first(before, lines@); } }
            } else if child.is("exception_sect") {
                let kw = self.kw("EXCEPTION");
                push_line(&mut lines, concat(&[indent.as_str(), kw.as_str()]));
                let ghost mid = lines@;
                self.format_exception_sect(child, inner, &mut lines, d);
                proof { lemma_appended_first(mid, lines@); }
            } else if child.is("kw_end") {
                let kw = self.kw("END");
                push_line(&mut lines, concat(&[indent.as_str(), kw.as_str()]));
            } else if child.is("block_label") {
                // `<<label>>` on a line of its own before the block.
                let t = self.trimmed_text(child);
                push_line(&mut lines, concat(&[indent.as_str(), t.as_str()]));
            } else if child.is("end_label") {
                // `END label`.
                let t = self.trimmed_text(child);
                let tail = concat(&[" ", t.as_str()]);
                append_last(&mut lines, tail.as_str());
                proof {
                    if before.len() == 1 && has_lead {
                        lemma_prefix_append(before[0]@, tail@, lead);
                    }
                }
            } else if child.is("comment") {
                // A comment in the block, on a line of its own.
                let t = self.text(child);
                let t = crate::strs::trim_end(t.as_str());
                let ci = level_indent(inner);
                push_line(&mut lines, concat(&[ci.as_str(), t.as_str()]));
            }
        }
        let r = join(&lines, "\n");
        proof {
            reveal_strlit("kw_begin");
            reveal_strlit("decl_sect");
            assert("kw_begin"@.len() == 8);
            assert("decl_sect"@.len() == 9);
            if has_lead {
                crate::strs::lemma_lines_lead(lines@, r@, lead);
            }
            if ns.len() == 0 {
                assert(string_views(lines@) =~= Seq::<Seq<char>>::empty());
            }
        }
        r
    }

    fn format_decl_sect(&self, node: &SyntaxNode, indent_level: usize, lines: &mut Vec<String>)
        ensures
            appended(old(lines)@, final(lines)@),
            final(lines)@.len() == old(lines)@.len() + decl_count(named_of(node.children@)),
    {
        let ghost l0 = lines@;
        let named = node.named_children();
        let ghost ns = named_of(node.children@);
        proof {
            lemma_appended_self(l0);
            assert(ns.take(0) =~= Seq::<SyntaxNode>::empty());
        }
        let mut k: usize = 0;
        while k < named.len()
            invariant
                k <= named@.len(),
                named@.map_values(|c: &SyntaxNode| *c) == ns,
                appended(l0, lines@),
                lines@.len() == l0.len() + decl_count(ns.take(k as int)),
            decreases named.len() - k,
        {
            let ghost before = lines@;
            proof {
                assert(ns.take(k + 1).drop_last() =~= ns.take(k as int));
                assert(ns.take(k + 1).last() == *named@[k as int]);
                lemma_appended_self(before);
            }
            if named[k].is("decl_stmt") {
                self.format_decl_stmt(named[k], indent_level, lines);
            }
            proof { lemma_appended_trans(l0, before, lines@); }
            k += 1;
        }
        proof { assert(ns.take(named@.len() as int) =~= ns); }
    }

    fn format_decl_stmt(&self, node: &SyntaxNode, indent_level: usize, lines: &mut Vec<String>)
        ensures
            appended(old(lines)@, final(lines)@),
            holds_kind(*node, "decl_statement"@) ==> final(lines)@.len() == old(lines)@.len() + 1
                && has_prefix(final(lines)@.last()@, spaces(2 * indent_level as nat))
                && final(lines)@.last()@.last() == ';',
            !holds_kind(*node, "decl_statement"@) ==> final(lines)@ == old(lines)@,
    {
        let indent = level_indent(indent_level);
        proof { lemma_appended_self(lines@); }
        if let Some(decl) = node.find_child("decl_statement") {
            let var_name = self.child_text(decl, "decl_varname");
            if decl.has_child("kw_alias") {
                // `name ALIAS FOR $1`.
                let target = match decl.find_child_any(&["param", "any_identifier", "identifier"]) {
                    Some(t) => self.trimmed_text(t),
                    None => String::new(),
                };
                let a = self.kw_pair("ALIAS", "FOR");
                let ps = [indent.as_str(), var_name.as_str(), " ", a.as_str(), " ", target.as_str(), ";"];
                let line = concat(&ps);
                proof { reveal_strlit(";"); lemma_line_shape(ps@); }
                push_line(lines, line);
                return;
            }
            if decl.has_child("kw_cursor") {
                // `name CURSOR FOR|IS query`, the `;` on a line of its own
                // after a line comment that ends the query.
                let c = self.kw("CURSOR");
                let word = if decl.has_child("kw_is") { self.kw("IS") } else { self.kw("FOR") };
                let query = self.child_text(decl, "sql_expression");
                let term = if crate::stmt_nodes::last_line_has_comment(query.as_str()) { "\n;" } else { ";" };
                proof { reveal_strlit(";"); reveal_strlit("\n;"); }
                let ps = [indent.as_str(), var_name.as_str(), " ", c.as_str(), " ", word.as_str(), " ",
                    query.as_str(), term];
                let line = concat(&ps);
                proof { lemma_line_shape(ps@); }
                push_line(lines, line);
                return;
            }
            let mut parts: Vec<String> = Vec::new();
            parts.push(var_name);
            if decl.has_child("kw_constant") {
                parts.push(self.kw("CONSTANT"));
            }
            if let Some(dt) = decl.find_child("decl_datatype") {
                parts.push(self.trimmed_text(dt));
            }
            if let Some(coll) = decl.find_child("decl_collate") {
                parts.push(self.trimmed_text(coll));
            }
            if decl.has_child("kw_not") {
                parts.push(self.kw_pair("NOT", "NULL"));
            }
            if let Some(defval) = decl.find_child("decl_defval") {
                parts.push(self.trimmed_text(defval));
            }
            let j = join(&parts, " ");
            let ps = [indent.as_str(), j.as_str(), ";"];
            let line = concat(&ps);
            proof { reveal_strlit(";"); lemma_line_shape(ps@); }
            push_line(lines, line);
        }
    }

    fn format_proc_sect(&self, node: &SyntaxNode, indent_level: usize, lines: &mut Vec<String>, b: usize)
        ensures
            appended(old(lines)@, final(lines)@),
            b > 2 ==> final(lines)@.len() >= old(lines)@.len() + stmt_lines(named_of(node.children@)),
        decreases b,
    {
        let ghost l0 = lines@;
        proof { lemma_appended_self(l0); }
        if b == 0 {
            return;
        }
        let named = node.named_children();
        let ghost ns = named_of(node.children@);
        proof { assert(ns.take(0) =~= Seq::<SyntaxNode>::empty()); }
        let mut k: usize = 0;
        while k < named.len()
            invariant
                k <= named@.len(),
                named@.map_values(|c: &SyntaxNode| *c) == ns,
                appended(l0, lines@),
                b > 2 ==> lines@.len() >= l0.len() + stmt_lines(ns.take(k as int)),
            decreases named.len() - k,
        {
            let ghost before = lines@;
            proof {
                assert(ns.take(k + 1).drop_last() =~= ns.take(k as int));
                assert(ns.take(k + 1).last() == *named@[k as int]);
                lemma_appended_self(before);
            }
            if named[k].is("proc_stmt") {
                self.format_proc_stmt(named[k], indent_level, lines, b - 1);
            }
            proof { lemma_appended_trans(l0, before, lines@); }
            k += 1;
        }
        proof { assert(ns.take(named@.len() as int) =~= ns); }
    }

    fn format_proc_stmt(&self, node: &SyntaxNode, indent_level: usize, lines: &mut Vec<String>, b: usize)
        ensures
            appended(old(lines)@, final(lines)@),
            b > 1 ==> final(lines)@.len() >= old(lines)@.len() + sure_count(named_of(node.children@)),
        decreases b,
    {
        let ghost l0 = lines@;
        proof { lemma_appended_self(l0); }
        if b == 0 {
            return;
        }
        let d = b - 1;
        let indent = level_indent(indent_level);
        let named = node.named_children();
        let ghost ns = named_of(node.children@);
        proof { assert(ns.take(0) =~= Seq::<SyntaxNode>::empty()); }
        let mut k: usize = 0;
        while k < named.len()
            invariant
                k <= named@.len(),
                named@.map_values(|c: &SyntaxNode| *c) == ns,
                appended(l0, lines@),
                b > 1 ==> lines@.len() >= l0.len() + sure_count(ns.take(k as int)),
                d == b - 1,
            decreases named.len() - k,
        {
            let ghost before = lines@;
            proof {
                assert(ns.take(k + 1).drop_last() =~= ns.take(k as int));
                assert(ns.take(k + 1).last() == *named@[k as int]);
                lemma_appended_self(before);
            }
            let child = named[k];
            k += 1;
            if child.is("stmt_if") {
                self.format_stmt_if(child, indent_level, lines, d);
            } else if child.is("stmt_loop") || child.is("stmt_while") {
                self.format_stmt_loop(child, indent_level, lines, d);
            } else if child.is("stmt_for") {
                self.format_stmt_for(child, indent_level, lines, d);
            } else if child.is("stmt_foreach_a") {
                self.format_stmt_foreach(child, indent_level, lines);
            } else if child.is("stmt_case") {
                self.format_stmt_case(child, indent_level, lines, d);
            } else if child.is("stmt_return") {
                let expr = self.child_text(child, "sql_expression");
                let r = if child.has_child("kw_next") { self.kw_pair("RETURN", "NEXT") } else { self.kw("RETURN") };
                if expr.as_str().is_empty() {
                    push_line(lines, concat(&[indent.as_str(), r.as_str(), ";"]));
                } else {
                    push_line(lines, concat(&[indent.as_str(), r.as_str(), " ", expr.as_str(), ";"]));
                }
            } else if child.is("stmt_raise") {
                self.format_stmt_raise(child, indent_level, lines);
            } else if child.is("stmt_null") {
                let n = self.kw("NULL");
                push_line(lines, concat(&[indent.as_str(), n.as_str(), ";"]));
            } else if child.is_any(&["stmt_assign", "stmt_execsql", "stmt_perform", "stmt_call",
                "stmt_dynexecute", "stmt_exit", "stmt_continue", "stmt_open", "stmt_close", "stmt_fetch",
                "stmt_move", "stmt_commit", "stmt_rollback", "stmt_assert"]) {
                // Passed through as written, indented.
                let text = self.trimmed_text(child);
                push_line(lines, concat(&[indent.as_str(), text.as_str()]));
            } else if child.is("pl_block") {
                // A nested block ends with `;`.
                let block = self.format_plpgsql_block(child, indent_level, d);
                push_line(lines, concat(&[block.as_str(), ";"]));
            } else if child.is("comment") {
                let t = self.text(child);
                let t = crate::strs::trim_end(t.as_str());
                push_line(lines, concat(&[indent.as_str(), t.as_str()]));
            } else {
                let text = self.trimmed_text(child);
                if !text.as_str().is_empty() {
                    push_line(lines, concat(&[indent.as_str(), text.as_str()]));
                }
            }
            proof { lemma_appended_trans(l0, before, lines@); }
        }
        proof { assert(ns.take(named@.len() as int) =~= ns); }
    }

    fn format_stmt_if(&self, node: &SyntaxNode, indent_level: usize, lines: &mut Vec<String>, b: usize)
        ensures
            appended(old(lines)@, final(lines)@),
            b > 0 ==> final(lines)@.len() > old(lines)@.len()
                && final(lines)@.last()@ == block_end(self.config, indent_level as nat, "IF"@),
        decreases b,
    {
        let ghost l0 = lines@;
        proof { lemma_appended_self(l0); }
        if b == 0 {
            return;
        }
        let d = b - 1;
        let indent = level_indent(indent_level);
        let inner = indent_level.saturating_add(1);
        let children = node.named_children();
        let mut i: usize = 0;
        while i < children.len()
            invariant
                appended(l0, lines@),
            decreases children.len() - i,
        {
            let ghost before = lines@;
            proof { lemma_appended_self(before); }
            let child = children[i];
            if child.is("kw_if") && i == 0 {
                // The opening IF, its condition and THEN.
                let cond = if i + 1 < children.len() && children[i + 1].is("sql_expression") {
                    self.trimmed_text(children[i + 1])
                } else {
                    String::new()
                };
                let if_kw = self.kw("IF");
                let then_kw = self.kw("THEN");
                push_line(lines, concat(&[indent.as_str(), if_kw.as_str(), " ", cond.as_str(), " ", then_kw.as_str()]));
                i = if children.len() < 3 { children.len() } else { 3 };
            } else {
                if child.is("proc_sect") {
                    self.format_proc_sect(child, inner, lines, d);
                } else if child.is("elsif_clause") {
                    self.format_elsif_clause(child, indent_level, lines, d);
                } else if child.is("else_clause") {
                    let e = self.kw("ELSE");
                    push_line(lines, concat(&[indent.as_str(), e.as_str()]));
                    let ghost mid = lines@;
                    if let Some(p) = child.find_child("proc_sect") {
                        self.format_proc_sect(p, inner, lines, d);
                    } else {
                        proof { lemma_appended_self(mid); }
                    }
                    proof { lemma_appended_trans(before, mid, lines@); }
                }
                i += 1;
            }
            proof { lemma_appended_trans(l0, before, lines@); }
        }
        let e = self.kw("END");
        let f = self.kw("IF");
        let ghost last = lines@;
        push_line(lines, end_line(indent.as_str(), e.as_str(), f.as_str()));
        proof { lemma_appended_trans(l0, last, lines@); }
    }

    fn format_elsif_clause(&self, node: &SyntaxNode, indent_level: usize, lines: &mut Vec<String>, b: usize)
        ensures
            appended(old(lines)@, final(lines)@),
            b > 0 ==> final(lines)@.len() > old(lines)@.len()
                && has_prefix(final(lines)@[old(lines)@.len() as int]@,
                    spaces(2 * indent_level as nat) + cased(self.config, "ELSIF"@) + seq![' ']),
        decreases b,
    {
        let ghost l0 = lines@;
        proof { lemma_appended_self(l0); }
        if b == 0 {
            return;
        }
        let indent = level_indent(indent_level);
        let cond = self.child_text(node, "sql_expression");
        let e = self.kw("ELSIF");
        let t = self.kw("THEN");
        let line = concat(&[indent.as_str(), e.as_str(), " ", cond.as_str(), " ", t.as_str()]);
        proof {
            reveal_with_fuel(crate::strs::concat_views, 7);
            reveal_strlit(" ");
            assert(line@.take((indent@ + e@ + seq![' ']).len() as int) =~= indent@ + e@ + seq![' ']);
        }
        push_line(lines, line);
        let ghost mid = lines@;
        if let Some(p) = node.find_child("proc_sect") {
            self.format_proc_sect(p, indent_level.saturating_add(1), lines, b - 1);
        } else {
            proof { lemma_appended_self(mid); }
        }
        proof {
            lemma_appended_trans(l0, mid, lines@);
            assert(string_views(lines@).take(mid.len() as int)[l0.len() as int] == lines@[l0.len() as int]@);
            assert(string_views(mid)[l0.len() as int] == mid[l0.len() as int]@);
        }
    }

    fn format_stmt_loop(&self, node: &SyntaxNode, indent_level: usize, lines: &mut Vec<String>, b: usize)
        ensures
            appended(old(lines)@, final(lines)@),
            b > 0 ==> final(lines)@.len() > old(lines)@.len()
                && final(lines)@.last()@ == block_end(self.config, indent_level as nat, "LOOP"@),
            b > 0 ==> final(lines)@.len() > old(lines)@.len() + 1
                && final(lines)@[old(lines)@.len() as int]@
                    == loop_head(self.config, self.chars@, *node, indent_level as nat),
            b > 3 ==> final(lines)@.len() >= old(lines)@.len() + 2 + loop_body_lines(*node),
        decreases b,
    {
        let ghost l0 = lines@;
        proof { lemma_appended_self(l0); }
        if b == 0 {
            return;
        }
        let indent = level_indent(indent_level);
        let loop_kw = self.kw("LOOP");
        // WHILE condition LOOP, or a bare LOOP.
        if node.is("stmt_while") {
            let cond = self.child_text(node, "sql_expression");
            let w = self.kw("WHILE");
            push_line(lines, concat(&[indent.as_str(), w.as_str(), " ", cond.as_str(), " ", loop_kw.as_str()]));
            proof {
                if exists|i: int| first_of_kind_at(*node, i, "sql_expression"@) {
                    let i0 = choose|i: int| first_of_kind_at(*node, i, "sql_expression"@);
                    assert(cond@ == trim_of(node_text(self.chars@, node.children@[i0])));
                } else {
                    assert(cond@ =~= Seq::<char>::empty());
                }
                assert(cond@ == kid_text(self.chars@, *node, "sql_expression"@));
                reveal_with_fuel(crate::strs::concat_views, 7);
                reveal_strlit(" ");
                assert(lines@[l0.len() as int]@ =~= loop_head(self.config, self.chars@, *node, indent_level as nat));
            }
        } else {
            push_line(lines, concat(&[indent.as_str(), loop_kw.as_str()]));
            proof {
                reveal_with_fuel(crate::strs::concat_views, 3);
                assert(lines@[l0.len() as int]@ =~= loop_head(self.config, self.chars@, *node, indent_level as nat));
            }
        }
        let ghost mid = lines@;
        proof { lemma_appended_self(mid); }
        if let Some(body) = node.find_child("loop_body") {
            proof { crate::tree::lemma_found_kid(*node, "loop_body"@, *body); }
            if let Some(p) = body.find_child("proc_sect") {
                proof { crate::tree::lemma_found_kid(*body, "proc_sect"@, *p); }
                self.format_proc_sect(p, indent_level.saturating_add(1), lines, b - 1);
            } else {
                proof { crate::tree::lemma_no_kid(*body, "proc_sect"@); }
            }
        } else {
            proof { crate::tree::lemma_no_kid(*node, "loop_body"@); }
        }
        let e = self.kw("END");
        let ghost last = lines@;
        push_line(lines, end_line(indent.as_str(), e.as_str(), loop_kw.as_str()));
        proof {
            lemma_appended_trans(l0, mid, last);
            lemma_appended_trans(l0, last, lines@);
            lemma_appended_trans(mid, last, lines@);
            assert(string_views(lines@).take(mid.len() as int)[l0.len() as int]
                == string_views(mid)[l0.len() as int]);
        }
    }

    fn format_stmt_for(&self, node: &SyntaxNode, indent_level: usize, lines: &mut Vec<String>, b: usize)
        ensures
            appended(old(lines)@, final(lines)@),
            b > 0 ==> final(lines)@.len() > old(lines)@.len()
                && final(lines)@.last()@ == block_end(self.config, indent_level as nat, "LOOP"@),
        decreases b,
    {
        let ghost l0 = lines@;
        proof { lemma_appended_self(l0); }
        if b == 0 {
            return;
        }
        let indent = level_indent(indent_level);
        let var = self.child_text(node, "for_variable");
        // FOR ... IN range, or FOR ... IN query.
        let in_clause = if let Some(range) = node.find_child("for_integer_range") {
            self.trimmed_text(range)
        } else if let Some(query) = node.find_child("for_control") {
            self.trimmed_text(query)
        } else {
            // From the source: what lies between IN and LOOP.
            let text = self.text(node);
            match (find(text.as_str(), "IN"), find(text.as_str(), "LOOP")) {
                (Some(start), Some(end)) => {
                    if start <= end && end - start >= 2 {
                        let mid = slice_chars(text.as_str(), start + 2, end);
                        trim(mid.as_str())
                    } else {
                        String::new()
                    }
                },
                _ => String::new(),
            }
        };
        let for_kw = self.kw("FOR");
        let in_kw = self.kw("IN");
        let loop_kw = self.kw("LOOP");
        push_line(lines, concat(&[indent.as_str(), for_kw.as_str(), " ", var.as_str(), " ", in_kw.as_str(), " ",
            in_clause.as_str(), " ", loop_kw.as_str()]));
        let ghost mid = lines@;
        proof { lemma_appended_self(mid); }
        if let Some(body) = node.find_child("loop_body") {
            if let Some(p) = body.find_child("proc_sect") {
                self.format_proc_sect(p, indent_level.saturating_add(1), lines, b - 1);
            }
        }
        let e = self.kw("END");
        let ghost last = lines@;
        push_line(lines, end_line(indent.as_str(), e.as_str(), loop_kw.as_str()));
        proof {
            lemma_appended_trans(l0, mid, last);
            lemma_appended_trans(l0, last, lines@);
        }
    }

    /// FOREACH ... SLICE ... IN ARRAY ... LOOP ... END LOOP, as written.
    fn format_stmt_foreach(&self, node: &SyntaxNode, indent_level: usize, lines: &mut Vec<String>)
        ensures
            final(lines)@.len() == old(lines)@.len() + 1,
            final(lines)@.take(old(lines)@.len() as int) == old(lines)@,
            appended(old(lines)@, final(lines)@),
            final(lines)@.last()@ == spaces(2 * indent_level as nat) + node_text(self.chars@, *node),
    {
        let indent = level_indent(indent_level);
        let text = self.text(node);
        let line = concat(&[indent.as_str(), text.as_str()]);
        proof { reveal_with_fuel(crate::strs::concat_views, 3); }
        push_line(lines, line);
        assert(lines@.take(old(lines)@.len() as int) =~= old(lines)@);
    }

    fn format_stmt_case(&self, node: &SyntaxNode, indent_level: usize, lines: &mut Vec<String>, b: usize)
        ensures
            appended(old(lines)@, final(lines)@),
            b > 0 ==> final(lines)@.len() > old(lines)@.len()
                && final(lines)@.last()@ == block_end(self.config, indent_level as nat, "CASE"@),
        decreases b,
    {
        let ghost l0 = lines@;
        proof { lemma_appended_self(l0); }
        if b == 0 {
            return;
        }
        let d = b - 1;
        let indent = level_indent(indent_level);
        let inner_level = indent_level.saturating_add(1);
        let inner_indent = level_indent(inner_level);
        let body_level = inner_level.saturating_add(1);
        let expr = self.child_text(node, "sql_expression");
        let c = self.kw("CASE");
        push_line(lines, concat(&[indent.as_str(), c.as_str(), " ", expr.as_str()]));
        let named = node.named_children();
        let mut k: usize = 0;
        while k < named.len()
            invariant
                appended(l0, lines@),
            decreases named.len() - k,
        {
            let ghost before = lines@;
            let child = named[k];
            k += 1;
            if child.is("case_when") {
                let when_expr = self.child_text(child, "sql_expression");
                let w = self.kw("WHEN");
                let t = self.kw("THEN");
                push_line(lines, concat(&[inner_indent.as_str(), w.as_str(), " ", when_expr.as_str(), " ", t.as_str()]));
                let ghost mid = lines@;
                proof { lemma_appended_self(mid); }
                if let Some(p) = child.find_child("proc_sect") {
                    self.format_proc_sect(p, body_level, lines, d);
                }
                proof { lemma_appended_trans(before, mid, lines@); }
            } else if child.is("else_clause") {
                let e = self.kw("ELSE");
                push_line(lines, concat(&[inner_indent.as_str(), e.as_str()]));
                let ghost mid = lines@;
                proof { lemma_appended_self(mid); }
                if let Some(p) = child.find_child("proc_sect") {
                    self.format_proc_sect(p, body_level, lines, d);
                }
                proof { lemma_appended_trans(before, mid, lines@); }
            } else {
                proof { lemma_appended_self(before); }
            }
            proof { lemma_appended_trans(l0, before, lines@); }
        }
        let e = self.kw("END");
        let ghost last = lines@;
        push_line(lines, end_line(indent.as_str(), e.as_str(), c.as_str()));
        proof { lemma_appended_trans(l0, last, lines@); }
    }

    fn format_stmt_raise(&self, node: &SyntaxNode, indent_level: usize, lines: &mut Vec<String>)
        ensures
            final(lines)@.len() == old(lines)@.len() + 1,
            appended(old(lines)@, final(lines)@),
            has_prefix(final(lines)@.last()@, spaces(2 * indent_level as nat) + cased(self.config, "RAISE"@)),
            final(lines)@.last()@.last() == ';',
    {
        let indent = level_indent(indent_level);
        let mut parts: Vec<String> = Vec::new();
        let raise = self.kw("RAISE");
        let ghost rw = raise@;
        proof { crate::strs::lemma_prefix_self(rw); }
        parts.push(raise);
        let mut i: usize = 0;
        while i < node.children.len()
            invariant
                parts@.len() >= 1,
                has_prefix(parts@[0]@, rw),
            decreases node.children.len() - i,
        {
            let child = &node.children[i];
            i += 1;
            if child.named {
                if child.is("raise_level") {
                    let level = self.trimmed_text(child);
                    parts.push(self.kw(level.as_str()));
                } else if child.is("string_literal") {
                    parts.push(self.text(child));
                } else if child.is("sql_expression") {
                    parts.push(self.trimmed_text(child));
                } else if child.is("kw_using") {
                    parts.push(self.kw("USING"));
                } else if child.is("raise_option") {
                    // `ERRCODE = '22000'` and the like.
                    let name = match child.first_named_child() {
                        Some(k) => self.format_keyword_node(k),
                        None => String::new(),
                    };
                    let value = self.child_text(child, "sql_expression");
                    parts.push(concat(&[name.as_str(), " = ", value.as_str()]));
                }
            } else {
                let t = self.trimmed_text(child);
                if same(t.as_str(), ",") {
                    // The comma goes onto the previous part.
                    let ghost p0 = parts@;
                    append_last(&mut parts, ",");
                    proof {
                        if p0.len() == 1 {
                            lemma_prefix_append(p0[0]@, ","@, rw);
                        } else {
                            assert(parts@[0] == p0[0]);
                        }
                    }
                }
            }
        }
        let j = join(&parts, " ");
        proof {
            crate::strs::lemma_join_starts_with_first(string_views(parts@), " "@);
            crate::strs::lemma_prefix_trans(j@, parts@[0]@, rw);
        }
        let line = concat(&[indent.as_str(), j.as_str(), ";"]);
        proof {
            reveal_with_fuel(crate::strs::concat_views, 4);
            reveal_strlit(";");
            assert(line@.take((indent@ + rw).len() as int) =~= indent@ + rw);
        }
        push_line(lines, line);
    }

    fn format_exception_sect(&self, node: &SyntaxNode, indent_level: usize, lines: &mut Vec<String>, b: usize)
        ensures
            appended(old(lines)@, final(lines)@),
            b > 0 && (exists|i: int| 0 <= i < named_of(node.children@).len()
                && (#[trigger] named_of(node.children@)[i]).kind@ == "proc_conditions"@)
                ==> final(lines)@.len() > old(lines)@.len(),
        decreases b,
    {
        let ghost l0 = lines@;
        proof { lemma_appended_self(l0); }
        if b == 0 {
            return;
        }
        let indent = level_indent(indent_level);
        let named = node.named_children();
        let ghost ns = named_of(node.children@);
        let mut k: usize = 0;
        while k < named.len()
            invariant
                k <= named@.len(),
                named@.map_values(|c: &SyntaxNode| *c) == ns,
                appended(l0, lines@),
                (exists|i: int| 0 <= i < k && (#[trigger] ns[i]).kind@ == "proc_conditions"@)
                    ==> lines@.len() > l0.len(),
            decreases named.len() - k,
        {
            let ghost before = lines@;
            proof {
                lemma_appended_self(before);
                assert(ns[k as int] == *named@[k as int]);
            }
            let child = named[k];
            k += 1;
            if child.is("proc_conditions") {
                let cond_text = self.trimmed_text(child);
                let w = self.kw("WHEN");
                let t = self.kw("THEN");
                push_line(lines, concat(&[indent.as_str(), w.as_str(), " ", cond_text.as_str(), " ", t.as_str()]));
            } else if child.is("proc_sect") {
                self.format_proc_sect(child, indent_level.saturating_add(1), lines, b - 1);
            } else if child.is("proc_exception") {
                // WHEN conditions THEN, its statements one level in.
                self.format_exception_sect(child, indent_level, lines, b - 1);
            }
            proof { lemma_appended_trans(l0, before, lines@); }
        }
    }
}

} // verus!
