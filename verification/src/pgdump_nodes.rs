//! The deparser layout (`Style::PgDump`): reproduces the layout of
//! PostgreSQL's `pg_get_viewdef` / `pg_get_functiondef`, so that deparser
//! output given back comes out unchanged. Clause keywords end at column 7,
//! target continuation lines are indented 4, JOIN steps 5, set-operation
//! keywords sit at column 1; expressions are kept as written with their
//! whitespace collapsed. Statements other than SELECT and CREATE FUNCTION are
//! reproduced as written.
#![verifier::loop_isolation(false)]

use vstd::prelude::*;
use crate::chars::{push_char, push_str};
use crate::config::Formatter;
use crate::error::FormatError;
use crate::select_nodes::SelectClauses;
use crate::strs::{concat, join, spaces_str, trim_start};
use crate::tree::{SyntaxNode, flatten_list, flat_items, node_views, first_named, first_kid, lemma_found_named,
    lemma_no_named, lemma_found_kid, lemma_no_kid};
use crate::config::node_text;
use crate::expr::{join_with, string_views};
use crate::pgdump::words_from;
use crate::stmt::trim_of;
use crate::strs::has_prefix;

verus! {

/// Indentation of target-list continuation lines.
pub const TARGET_INDENT: usize = 4;

/// Indentation of JOIN continuation lines.
pub const JOIN_INDENT: usize = 5;

/// `s` with its whitespace collapsed: its words with one space between them.
pub open spec fn collapsed_words(s: Seq<char>) -> Seq<char> {
    join_with(words_from(s, 0), seq![' '])
}

/// Where the signature of a CREATE FUNCTION ends: at the end of its argument
/// list, or of its name, or of the statement.
pub open spec fn signature_end(n: SyntaxNode) -> usize {
    match first_kid(n, "func_args_with_defaults"@) {
        Some(a) => a.end,
        None => match first_kid(n, "func_args"@) {
            Some(a) => a.end,
            None => match first_kid(n, "func_name"@) {
                Some(a) => a.end,
                None => n.end,
            },
        },
    }
}

/// The signature of a CREATE FUNCTION, its whitespace collapsed.
pub open spec fn signature_words(chars: Seq<char>, n: SyntaxNode) -> Seq<char> {
    let e = signature_end(n);
    collapsed_words(if n.start <= e <= chars.len() { chars.subrange(n.start as int, e as int) } else { Seq::empty() })
}

impl<'a> Formatter<'a> {
    /// The source characters from offset `a` up to `e`, or nothing where
    /// they do not lie in the source.
    pub(crate) fn source_range(&self, a: usize, e: usize) -> (r: String)
        ensures
            a <= e <= self.chars@.len() ==> r@ == self.chars@.subrange(a as int, e as int),
            !(a <= e <= self.chars@.len()) ==> r@ == Seq::<char>::empty(),
    {
        if a <= e && e <= self.chars.len() {
            let t = crate::lexical::copy_range(&self.chars, a, e);
            crate::chars::string_of(&t)
        } else {
            String::new()
        }
    }

    /// The text of `node` with its whitespace collapsed.
    fn collapsed_text(&self, node: &SyntaxNode) -> (r: String)
        ensures
            r@ == collapsed_words(node_text(self.chars@, *node)),
    {
        let t = self.text(node);
        self.collapse_ws(t.as_str())
    }

    /// Render one top-level statement in the deparser layout.
    pub(crate) fn format_pgdump_stmt(&self, stmt: &SyntaxNode, b: usize) -> (r: Result<String, FormatError>)
        ensures
            r is Ok,
            b == 0 ==> (r matches Ok(t) && t@ == node_text(self.chars@, *stmt)),
            b > 0 ==> match first_named(*stmt) {
                None => (r matches Ok(t) && t@ == collapsed_words(node_text(self.chars@, *stmt))),
                Some(inner) => (r matches Ok(t) && (inner.kind@ == "SelectStmt"@ ==> t@.len() > 0 && t@.last() == ';')
                    && (inner.kind@ == "CreateFunctionStmt"@ ==> has_prefix(t@, signature_words(self.chars@, inner)))
                    && (inner.kind@ != "SelectStmt"@ && inner.kind@ != "CreateFunctionStmt"@
                        ==> t@ == trim_of(node_text(self.chars@, inner)))),
            },
        decreases b,
    {
        if b == 0 {
            return Ok(self.text(stmt));
        }
        let d = b - 1;
        proof {
            reveal_strlit("SelectStmt");
            reveal_strlit("CreateFunctionStmt");
            assert("SelectStmt"@.len() == 10 && "CreateFunctionStmt"@.len() == 18);
        }
        match stmt.first_named_child() {
            None => {
                proof { lemma_no_named(*stmt); }
                Ok(self.collapsed_text(stmt))
            },
            Some(inner) => {
                proof { lemma_found_named(*stmt, *inner); }
                if inner.is("SelectStmt") {
                    let body = self.pgdump_select(inner, d);
                    let t = concat(&[body.as_str(), ";"]);
                    proof { reveal_with_fuel(crate::strs::concat_views, 3); reveal_strlit(";"); }
                    Ok(t)
                } else if inner.is("CreateFunctionStmt") {
                    Ok(self.pgdump_create_function(inner))
                } else {
                    // Out of scope: reproduced as written.
                    Ok(self.trimmed_text(inner))
                }
            },
        }
    }

    fn pgdump_select(&self, node: &SyntaxNode, b: usize) -> (r: String)
        ensures
            b == 0 ==> r@ == node_text(self.chars@, *node),
            b > 1 ==> has_prefix(r@, " SELECT "@),
        decreases b,
    {
        if b == 0 {
            return self.text(node);
        }
        let snp = match node.find_child("select_no_parens") {
            Some(s) => s,
            None => node,
        };
        let clauses = self.collect_select_clauses(snp, b - 1);
        self.pgdump_render_clauses(&clauses, b - 1)
    }

    /// The collapsed texts of the items of a list.
    fn collapsed_items(&self, list: &SyntaxNode, list_kind: &str) -> (r: Vec<String>)
        ensures
            r@.len() == flat_items(*list, list_kind@).len(),
            forall|k: int| 0 <= k < r@.len()
                ==> (#[trigger] r@[k])@ == collapsed_words(node_text(self.chars@, flat_items(*list, list_kind@)[k])),
    {
        let items = flatten_list(list, list_kind);
        let mut out: Vec<String> = Vec::new();
        let mut k: usize = 0;
        while k < items.len()
            invariant
                k <= items@.len(),
                node_views(items@) == flat_items(*list, list_kind@),
                out@.len() == k,
                forall|x: int| 0 <= x < k
                    ==> (#[trigger] out@[x])@ == collapsed_words(node_text(self.chars@, flat_items(*list, list_kind@)[x])),
            decreases items.len() - k,
        {
            proof { assert(node_views(items@)[k as int] == *items@[k as int]); }
            out.push(self.collapsed_text(items[k]));
            k += 1;
        }
        out
    }

    /// Render collected SELECT clauses as a deparser body, without `;`.
    fn pgdump_render_clauses(&self, c: &SelectClauses, b: usize) -> (r: String)
        ensures
            b == 0 ==> r@.len() == 0,
            b > 0 ==> has_prefix(r@, " SELECT "@),
            b > 0 && c.distinct is None && c.targets@.len() == 0 ==> has_prefix(r@, " SELECT *"@),
        decreases b,
    {
        let mut s = String::new();
        if b == 0 {
            return s;
        }
        let d = b - 1;
        proof { reveal_strlit(" SELECT "); reveal_strlit(" SELECT *"); reveal_strlit("*"); }
        let ghost lead: Seq<char> = if c.distinct is None && c.targets@.len() == 0 { " SELECT *"@ } else { " SELECT "@ };
        // SELECT [DISTINCT] target, target, ...
        push_str(&mut s, " SELECT ");
        if let Some(dn) = c.distinct {
            let t = self.collapsed_text(dn);
            push_str(&mut s, t.as_str());
            push_char(&mut s, ' ');
        }
        let mut targets: Vec<String> = Vec::new();
        if c.targets.len() == 0 {
            targets.push(crate::strs::owned("*"));
        } else {
            let mut k: usize = 0;
            while k < c.targets.len()
                decreases c.targets.len() - k,
            {
                targets.push(self.collapsed_text(c.targets[k]));
                k += 1;
            }
        }
        let pad4 = spaces_str(TARGET_INDENT);
        let cont = concat(&[",\n", pad4.as_str()]);
        let t = join(&targets, cont.as_str());
        push_str(&mut s, t.as_str());
        proof {
            if c.distinct is None && c.targets@.len() == 0 {
                assert(string_views(targets@) =~= seq!["*"@]);
            }
            assert(lead.len() <= s@.len());
        }
        let mut rest = String::new();
        // FROM, the JOIN steps under it.
        if let Some(from) = c.from {
            let items = self.pgdump_from_items(from, d);
            if items.len() > 0 {
                push_char(&mut rest, '\n');
                let p = self.river_pad(4);
                push_str(&mut rest, p.as_str());
                push_str(&mut rest, "FROM ");
                push_str(&mut rest, items[0].as_str());
                let join_pad = spaces_str(JOIN_INDENT);
                let mut k: usize = 1;
                while k < items.len()
                    decreases items.len() - k,
                {
                    push_char(&mut rest, '\n');
                    push_str(&mut rest, join_pad.as_str());
                    push_str(&mut rest, items[k].as_str());
                    k += 1;
                }
            }
        }
        if let Some(w) = c.where_clause {
            if let Some(expr) = w.find_child_any(&["a_expr", "c_expr"]) {
                push_char(&mut rest, '\n');
                let p = self.river_pad(5);
                push_str(&mut rest, p.as_str());
                push_str(&mut rest, "WHERE ");
                let t = self.collapsed_text(expr);
                push_str(&mut rest, t.as_str());
            }
        }
        if let Some(g) = c.group_clause {
            if let Some(list) = g.find_child("group_by_list") {
                let items = self.collapsed_items(list, "group_by_list");
                push_char(&mut rest, '\n');
                let p = self.river_pad(5);
                push_str(&mut rest, p.as_str());
                push_str(&mut rest, "GROUP BY ");
                let t = join(&items, ", ");
                push_str(&mut rest, t.as_str());
            }
        }
        if let Some(h) = c.having_clause {
            if let Some(expr) = h.find_child_any(&["a_expr", "c_expr"]) {
                push_char(&mut rest, '\n');
                let p = self.river_pad(6);
                push_str(&mut rest, p.as_str());
                push_str(&mut rest, "HAVING ");
                let t = self.collapsed_text(expr);
                push_str(&mut rest, t.as_str());
            }
        }
        if let Some(sort) = c.sort_clause {
            if let Some(list) = sort.find_child("sortby_list") {
                let items = self.collapsed_items(list, "sortby_list");
                push_char(&mut rest, '\n');
                let p = self.river_pad(5);
                push_str(&mut rest, p.as_str());
                push_str(&mut rest, "ORDER BY ");
                let t = join(&items, ", ");
                push_str(&mut rest, t.as_str());
            }
        }
        // A set operation: its keyword at column 1, then the right side
        // rendered the same way.
        if let Some(so) = &c.set_op {
            push_char(&mut rest, '\n');
            push_str(&mut rest, so.keyword.as_str());
            if let Some(q) = &so.quantifier {
                push_char(&mut rest, ' ');
                push_str(&mut rest, q.as_str());
            }
            push_char(&mut rest, '\n');
            let right = match &so.right_clauses {
                Some(rc) => self.pgdump_render_clauses(rc, d),
                None => {
                    let rc = self.collect_select_clauses(so.right, d);
                    self.pgdump_render_clauses(&rc, d)
                },
            };
            push_str(&mut rest, right.as_str());
        }
        push_str(&mut s, rest.as_str());
        proof {
            assert(s@.take(lead.len() as int) =~= lead);
            assert(s@.take(" SELECT "@.len() as int) =~= " SELECT "@);
        }
        s
    }

    /// The FROM items: the base relation, then one entry per JOIN step.
    fn pgdump_from_items(&self, from_clause: &SyntaxNode, b: usize) -> (r: Vec<String>)
        ensures
            b == 0 ==> r@.len() == 0,
            b > 0 ==> match first_kid(*from_clause, "from_list"@) {
                Some(l) => r@.len() >= flat_items(l, "from_list"@).len(),
                None => r@.len() == 0,
            },
        decreases b,
    {
        let mut items: Vec<String> = Vec::new();
        if b == 0 {
            return items;
        }
        if let Some(list) = from_clause.find_child("from_list") {
            proof { lemma_found_kid(*from_clause, "from_list"@, *list); }
            let refs = flatten_list(list, "from_list");
            let mut k: usize = 0;
            while k < refs.len()
                invariant
                    k <= refs@.len(),
                    items@.len() >= k,
                decreases refs.len() - k,
            {
                self.pgdump_table_ref_items(refs[k], &mut items, b - 1);
                k += 1;
            }
        } else {
            proof { lemma_no_kid(*from_clause, "from_list"@); }
        }
        items
    }

    fn pgdump_table_ref_items(&self, node: &SyntaxNode, items: &mut Vec<String>, b: usize)
        ensures
            final(items)@.len() > old(items)@.len(),
            forall|k: int| 0 <= k < old(items)@.len() ==> final(items)@[k] == old(items)@[k],
            b == 0 || (node.kind@ != "joined_table"@ && first_kid(*node, "joined_table"@) is None)
                ==> final(items)@.len() == old(items)@.len() + 1
                    && final(items)@.last()@ == collapsed_words(node_text(self.chars@, *node)),
        decreases b,
    {
        if b == 0 {
            items.push(self.collapsed_text(node));
            return;
        }
        let joined = if node.is("joined_table") {
            Some(node)
        } else {
            let j = node.find_child("joined_table");
            proof {
                if j is Some { lemma_found_kid(*node, "joined_table"@, *j.unwrap()); } else { lemma_no_kid(*node, "joined_table"@); }
            }
            j
        };
        match joined {
            Some(jt) => {
                // The left side first (itself maybe a join), then this step:
                // from the end of the left table_ref to the end of the join.
                match jt.find_child("table_ref") {
                    Some(left) => {
                        self.pgdump_table_ref_items(left, items, b - 1);
                        let step = self.source_range(left.end, jt.end);
                        items.push(self.collapse_ws(step.as_str()));
                    },
                    None => items.push(self.collapsed_text(jt)),
                }
            },
            None => items.push(self.collapsed_text(node)),
        }
    }

    /// Render `CREATE FUNCTION` in `pg_get_functiondef` layout: the signature
    /// on the first line, RETURNS and each option on a line of its own after
    /// a space, the AS clause (its body as written) last.
    fn pgdump_create_function(&self, node: &SyntaxNode) -> (r: String)
        ensures
            has_prefix(r@, signature_words(self.chars@, *node)),
    {
        let mut s = String::new();
        // The signature, as written up to the argument list's closing paren.
        let sig_end = match node.find_child("func_args_with_defaults") {
            Some(n) => {
                proof { lemma_found_kid(*node, "func_args_with_defaults"@, *n); }
                n.end
            },
            None => {
                proof { lemma_no_kid(*node, "func_args_with_defaults"@); }
                match node.find_child("func_args") {
                    Some(n) => {
                        proof { lemma_found_kid(*node, "func_args"@, *n); }
                        n.end
                    },
                    None => {
                        proof { lemma_no_kid(*node, "func_args"@); }
                        match node.find_child("func_name") {
                            Some(n) => {
                                proof { lemma_found_kid(*node, "func_name"@, *n); }
                                n.end
                            },
                            None => {
                                proof { lemma_no_kid(*node, "func_name"@); }
                                node.end
                            },
                        }
                    },
                }
            },
        };
        let sig = self.source_range(node.start, sig_end);
        let sig = self.collapse_ws(sig.as_str());
        push_str(&mut s, sig.as_str());
        let ghost lead = sig@;
        proof { assert(lead == signature_words(self.chars@, *node)); }
        if let Some(ret) = node.find_child("func_return") {
            push_str(&mut s, "\n RETURNS ");
            let t = self.collapsed_text(ret);
            push_str(&mut s, t.as_str());
        }
        // The options in source order, the deparser's own on its output.
        let opts = match node.find_child("opt_createfunc_opt_list") {
            Some(n) => match n.find_child("createfunc_opt_list") {
                Some(l) => Some(l),
                None => node.find_child("createfunc_opt_list"),
            },
            None => node.find_child("createfunc_opt_list"),
        };
        if let Some(opts) = opts {
            let items = flatten_list(opts, "createfunc_opt_list");
            let mut k: usize = 0;
            while k < items.len()
                invariant
                    lead.len() <= s@.len(),
                    forall|i: int| 0 <= i < lead.len() ==> s@[i] == lead[i],
                decreases items.len() - k,
            {
                let item = items[k];
                k += 1;
                match item.find_child("kw_as") {
                    Some(as_kw) => {
                        // The body as written: dollar-quoted text may span
                        // lines.
                        let body = self.source_range(as_kw.end, item.end);
                        let body = trim_start(body.as_str());
                        push_str(&mut s, "\nAS ");
                        push_str(&mut s, body.as_str());
                    },
                    None => {
                        push_str(&mut s, "\n ");
                        let t = self.collapsed_text(item);
                        push_str(&mut s, t.as_str());
                    },
                }
            }
        }
        proof { assert(s@.take(lead.len() as int) =~= lead); }
        s
    }
}

} // verus!
