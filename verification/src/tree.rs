//! The syntax tree that the formatter reads: a plain-value copy of the
//! parser's concrete syntax tree, with character offsets into the source.

use vstd::prelude::*;
use crate::chars::chars_of;
use crate::lexical::eq_chars;

verus! {

/// One node of the concrete syntax tree.
pub struct SyntaxNode {
    /// The grammar symbol, e.g. `SelectStmt` or `kw_select`.
    pub kind: String,
    /// Whether the node is a named rule (not an anonymous token).
    pub named: bool,
    /// Whether the node is an `ERROR` node.
    pub is_error: bool,
    /// Whether the node was inserted by the parser to recover from an error.
    pub is_missing: bool,
    /// Whether the node is or contains a syntax error.
    pub has_error: bool,
    /// Index of the node in a pre-order walk of its tree.
    pub id: usize,
    /// Character offset of the node's first character in the source.
    pub start: usize,
    /// Character offset just past the node's last character.
    pub end: usize,
    /// Zero-based row of the node's start.
    pub start_row: usize,
    /// Zero-based byte column of the node's start.
    pub start_col: usize,
    /// Zero-based row of the node's end.
    pub end_row: usize,
    /// The node's children, in source order.
    pub children: Vec<SyntaxNode>,
}

/// Child `i` of `n` is its first named child.
pub open spec fn first_named_at(n: SyntaxNode, i: int) -> bool {
    &&& 0 <= i < n.children@.len()
    &&& n.children@[i].named
    &&& forall|x: int| 0 <= x < i ==> !(#[trigger] n.children@[x].named)
}

/// Child `i` of `n` is its first named child of kind `kind`.
pub open spec fn first_of_kind_at(n: SyntaxNode, i: int, kind: Seq<char>) -> bool {
    &&& 0 <= i < n.children@.len()
    &&& n.children@[i].named && n.children@[i].kind@ == kind
    &&& forall|x: int| 0 <= x < i ==> !(#[trigger] n.children@[x].named && n.children@[x].kind@ == kind)
}

/// The first named child of `n` of kind `kind`, if it has one.
pub open spec fn first_kid(n: SyntaxNode, kind: Seq<char>) -> Option<SyntaxNode> {
    if exists|i: int| first_of_kind_at(n, i, kind) {
        Some(n.children@[choose|i: int| first_of_kind_at(n, i, kind)])
    } else {
        None
    }
}

/// The first named child of kind `inner` of the first named child of `n` of
/// kind `outer`.
pub open spec fn first_kid_within(n: SyntaxNode, outer: Seq<char>, inner: Seq<char>) -> Option<SyntaxNode> {
    match first_kid(n, outer) {
        Some(o) => first_kid(o, inner),
        None => None,
    }
}

/// At most one child is the first of its kind.
pub proof fn lemma_first_of_kind_unique(n: SyntaxNode, kind: Seq<char>, i: int, j: int)
    requires
        first_of_kind_at(n, i, kind),
        first_of_kind_at(n, j, kind),
    ensures
        i == j,
{
    if i < j { assert(!(n.children@[i].named && n.children@[i].kind@ == kind)); }
    if j < i { assert(!(n.children@[j].named && n.children@[j].kind@ == kind)); }
}

/// What `find_child` found is the first child of its kind.
pub proof fn lemma_found_kid(n: SyntaxNode, kind: Seq<char>, c: SyntaxNode)
    requires
        exists|i: int| first_of_kind_at(n, i, kind) && c == #[trigger] n.children@[i],
    ensures
        first_kid(n, kind) == Some(c),
{
    let i = choose|i: int| first_of_kind_at(n, i, kind) && c == #[trigger] n.children@[i];
    let j = choose|i: int| first_of_kind_at(n, i, kind);
    lemma_first_of_kind_unique(n, kind, i, j);
}

/// Where `find_child` found nothing, there is no child of that kind.
pub proof fn lemma_no_kid(n: SyntaxNode, kind: Seq<char>)
    requires
        forall|i: int| 0 <= i < n.children@.len() ==> !(#[trigger] n.children@[i].named && n.children@[i].kind@ == kind),
    ensures
        first_kid(n, kind) is None,
{
}

/// The first named child of `n`, if it has one.
pub open spec fn first_named(n: SyntaxNode) -> Option<SyntaxNode> {
    if exists|i: int| first_named_at(n, i) {
        Some(n.children@[choose|i: int| first_named_at(n, i)])
    } else {
        None
    }
}

/// What `first_named_child` found is the first named child.
pub proof fn lemma_found_named(n: SyntaxNode, c: SyntaxNode)
    requires
        exists|i: int| first_named_at(n, i) && c == #[trigger] n.children@[i],
    ensures
        first_named(n) == Some(c),
{
    let i = choose|i: int| first_named_at(n, i) && c == #[trigger] n.children@[i];
    let j = choose|i: int| first_named_at(n, i);
    if i < j { assert(!n.children@[i].named); }
    if j < i { assert(!n.children@[j].named); }
}

/// Where `first_named_child` found nothing, `n` has no named child.
pub proof fn lemma_no_named(n: SyntaxNode)
    requires
        forall|i: int| 0 <= i < n.children@.len() ==> !(#[trigger] n.children@[i].named),
    ensures
        first_named(n) is None,
{
}

/// No node under `n`, `n` itself included, is a comment.
pub open spec fn comment_free(n: SyntaxNode) -> bool
    decreases n, 1nat,
{
    n.kind@ != "comment"@ && children_comment_free(n, n.children@.len() as int)
}

/// None of the first `k` children of `n` holds a comment.
pub open spec fn children_comment_free(n: SyntaxNode, k: int) -> bool
    decreases n, 0nat, k,
{
    if k <= 0 || k > n.children@.len() {
        true
    } else {
        comment_free(n.children@[k - 1]) && children_comment_free(n, k - 1)
    }
}

/// A node without comments has children without comments.
pub proof fn lemma_comment_free_child(n: SyntaxNode, k: int, i: int)
    requires
        0 <= i < k <= n.children@.len(),
        children_comment_free(n, k),
    ensures
        comment_free(n.children@[i]),
    decreases k,
{
    if i < k - 1 {
        lemma_comment_free_child(n, k - 1, i);
    }
}

/// The named nodes of `s`, in order.
pub open spec fn named_of(s: Seq<SyntaxNode>) -> Seq<SyntaxNode>
    decreases s.len(),
{
    if s.len() == 0 {
        s
    } else if s.last().named {
        named_of(s.drop_last()).push(s.last())
    } else {
        named_of(s.drop_last())
    }
}

/// Each of the named nodes of `s` is a named node of `s`.
pub proof fn lemma_named_of_member(s: Seq<SyntaxNode>, x: int)
    requires
        0 <= x < named_of(s).len(),
    ensures
        exists|i: int| 0 <= i < s.len() && #[trigger] s[i] == named_of(s)[x] && s[i].named,
    decreases s.len(),
{
    let d = s.drop_last();
    if s.last().named && x == named_of(d).len() {
        assert(s[s.len() - 1] == named_of(s)[x]);
    } else {
        lemma_named_of_member(d, x);
        let i = choose|i: int| 0 <= i < d.len() && #[trigger] d[i] == named_of(d)[x] && d[i].named;
        assert(s[i] == d[i]);
    }
}

/// Each named node of `s` is among its named nodes.
pub proof fn lemma_named_of_contains(s: Seq<SyntaxNode>, i: int)
    requires
        0 <= i < s.len(),
        s[i].named,
    ensures
        exists|x: int| 0 <= x < named_of(s).len() && named_of(s)[x] == s[i],
    decreases s.len(),
{
    if i == s.len() - 1 {
        assert(named_of(s)[named_of(s).len() - 1] == s[i]);
    } else {
        lemma_named_of_contains(s.drop_last(), i);
        let x = choose|x: int| 0 <= x < named_of(s.drop_last()).len() && named_of(s.drop_last())[x] == s.drop_last()[i];
        assert(named_of(s)[x] == s[i]);
    }
}

/// There are no more named nodes than nodes.
proof fn lemma_named_of_len(s: Seq<SyntaxNode>)
    ensures
        named_of(s).len() <= s.len(),
    decreases s.len(),
{
    if s.len() > 0 {
        lemma_named_of_len(s.drop_last());
    }
}

/// Whether `kind` is one of `kinds`.
pub open spec fn kind_among(kind: Seq<char>, kinds: Seq<&str>) -> bool {
    exists|k: int| 0 <= k < kinds.len() && kind == (#[trigger] kinds[k])@
}

/// The height of a node: 1 for a leaf.
pub open spec fn height(n: SyntaxNode) -> nat
    decreases n, 1nat,
{
    1 + children_height(n, n.children@.len() as int)
}

/// The largest height among the first `k` children of `n`.
pub open spec fn children_height(n: SyntaxNode, k: int) -> nat
    decreases n, 0nat, k,
{
    if k <= 0 || k > n.children@.len() {
        0
    } else {
        let h = height(n.children@[k - 1]);
        let rest = children_height(n, k - 1);
        if h > rest { h } else { rest }
    }
}

proof fn lemma_children_height(n: SyntaxNode, k: int, i: int)
    requires
        0 <= i < k <= n.children@.len(),
    ensures
        height(n.children@[i]) <= children_height(n, k),
    decreases k,
{
    if i < k - 1 {
        lemma_children_height(n, k - 1, i);
    }
}

/// A child is lower than its parent.
pub proof fn lemma_child_lower(n: SyntaxNode, i: int)
    requires
        0 <= i < n.children@.len(),
    ensures
        height(n.children@[i]) < height(n),
{
    lemma_children_height(n, n.children@.len() as int, i);
}

/// Whether `c` is one of the children of `n`.
pub open spec fn is_child_of(c: SyntaxNode, n: SyntaxNode) -> bool {
    exists|i: int| 0 <= i < n.children@.len() && n.children@[i] == c
}

/// Whether two texts are equal.
pub fn str_eq(a: &str, b: &str) -> (r: bool)
    ensures
        r == (a@ == b@),
{
    let ac = chars_of(a);
    let bc = chars_of(b);
    eq_chars(&ac, &bc)
}

impl SyntaxNode {
    /// Whether the node's kind is `kind`.
    pub fn is(&self, kind: &str) -> (r: bool)
        ensures
            r == (self.kind@ == kind@),
    {
        str_eq(self.kind.as_str(), kind)
    }

    /// Whether the node's kind is one of `kinds`.
    pub fn is_any(&self, kinds: &[&str]) -> (r: bool)
        ensures
            r == kind_among(self.kind@, kinds@),
    {
        let mut k: usize = 0;
        while k < kinds.len()
            invariant
                k <= kinds@.len(),
                forall|x: int| 0 <= x < k ==> self.kind@ != #[trigger] kinds@[x]@,
            decreases kinds.len() - k,
        {
            if self.is(kinds[k]) {
                return true;
            }
            k += 1;
        }
        false
    }

    /// Whether the node's kind starts with `prefix`.
    pub fn kind_starts_with(&self, prefix: &str) -> (r: bool)
        ensures
            r == (prefix@.len() <= self.kind@.len() && self.kind@.take(prefix@.len() as int) == prefix@),
    {
        let kc = chars_of(self.kind.as_str());
        let pc = chars_of(prefix);
        if pc.len() > kc.len() {
            return false;
        }
        let head = crate::lexical::copy_range(&kc, 0, pc.len());
        assert(head@ =~= kc@.take(pc@.len() as int));
        eq_chars(&head, &pc)
    }

    /// The first named child whose kind is `kind`.
    pub fn find_child(&self, kind: &str) -> (r: Option<&SyntaxNode>)
        ensures
            r matches Some(c) ==> exists|i: int| first_of_kind_at(*self, i, kind@) && *c == #[trigger] self.children@[i],
            match r {
                Some(c) => is_child_of(*c, *self) && c.named && c.kind@ == kind@,
                None => forall|i: int| 0 <= i < self.children@.len() ==> !(#[trigger] self.children@[i].named
                    && self.children@[i].kind@ == kind@),
            },
    {
        let mut i: usize = 0;
        while i < self.children.len()
            invariant
                i <= self.children@.len(),
                forall|x: int| 0 <= x < i ==> !(#[trigger] self.children@[x].named && self.children@[x].kind@ == kind@),
            decreases self.children.len() - i,
        {
            let c = &self.children[i];
            if c.named && c.is(kind) {
                return Some(c);
            }
            i += 1;
        }
        None
    }

    /// The first named child whose kind is one of `kinds`.
    pub fn find_child_any(&self, kinds: &[&str]) -> (r: Option<&SyntaxNode>)
        ensures
            r matches Some(c) ==> is_child_of(*c, *self) && c.named,
            r matches Some(c) ==> exists|i: int| 0 <= i < self.children@.len() && *c == #[trigger] self.children@[i]
                && kind_among(c.kind@, kinds@)
                && forall|x: int| 0 <= x < i ==> !(#[trigger] self.children@[x].named
                    && kind_among(self.children@[x].kind@, kinds@)),
            r is None ==> forall|i: int| 0 <= i < self.children@.len() ==> !(#[trigger] self.children@[i].named
                && kind_among(self.children@[i].kind@, kinds@)),
    {
        let mut i: usize = 0;
        while i < self.children.len()
            invariant
                i <= self.children@.len(),
                forall|x: int| 0 <= x < i ==> !(#[trigger] self.children@[x].named
                    && kind_among(self.children@[x].kind@, kinds@)),
            decreases self.children.len() - i,
        {
            let c = &self.children[i];
            if c.named && c.is_any(kinds) {
                return Some(c);
            }
            i += 1;
        }
        None
    }

    /// Whether the node has a named child of kind `kind`.
    pub fn has_child(&self, kind: &str) -> (r: bool)
        ensures
            r == (exists|i: int| 0 <= i < self.children@.len() && #[trigger] self.children@[i].named
                && self.children@[i].kind@ == kind@),
    {
        match self.find_child(kind) {
            Some(c) => {
                let ghost i = choose|i: int| 0 <= i < self.children@.len() && self.children@[i] == *c;
                assert(self.children@[i].named && self.children@[i].kind@ == kind@);
                true
            },
            None => false,
        }
    }

    /// The named children, in order.
    pub fn named_children(&self) -> (r: Vec<&SyntaxNode>)
        ensures
            forall|k: int| 0 <= k < r@.len() ==> is_child_of(*#[trigger] r@[k], *self) && r@[k].named,
            r@.map_values(|c: &SyntaxNode| *c) == named_of(self.children@),
    {
        let mut r: Vec<&SyntaxNode> = Vec::new();
        let mut i: usize = 0;
        while i < self.children.len()
            invariant
                i <= self.children@.len(),
                forall|k: int| 0 <= k < r@.len() ==> is_child_of(*#[trigger] r@[k], *self) && r@[k].named,
                r@.map_values(|c: &SyntaxNode| *c) == named_of(self.children@.take(i as int)),
            decreases self.children.len() - i,
        {
            let c = &self.children[i];
            proof {
                assert(self.children@.take(i + 1).drop_last() =~= self.children@.take(i as int));
            }
            if c.named {
                r.push(c);
                assert(r@.map_values(|c: &SyntaxNode| *c) =~= named_of(self.children@.take(i as int)).push(*c));
            }
            i += 1;
        }
        assert(self.children@.take(self.children@.len() as int) =~= self.children@);
        r
    }

    /// The first named child.
    pub fn first_named_child(&self) -> (r: Option<&SyntaxNode>)
        ensures
            r matches Some(c) ==> is_child_of(*c, *self) && c.named,
            r matches Some(c) ==> exists|i: int| first_named_at(*self, i) && *c == #[trigger] self.children@[i],
            r is None ==> forall|i: int| 0 <= i < self.children@.len() ==> !(#[trigger] self.children@[i].named),
    {
        let mut i: usize = 0;
        while i < self.children.len()
            invariant
                i <= self.children@.len(),
                forall|x: int| 0 <= x < i ==> !(#[trigger] self.children@[x].named),
            decreases self.children.len() - i,
        {
            let c = &self.children[i];
            if c.named {
                return Some(c);
            }
            i += 1;
        }
        None
    }

    /// The number of named children.
    pub fn named_child_count(&self) -> (r: usize)
        ensures
            r == named_of(self.children@).len(),
    {
        let mut n: usize = 0;
        let mut i: usize = 0;
        while i < self.children.len()
            invariant
                i <= self.children@.len(),
                n <= i,
                n == named_of(self.children@.take(i as int)).len(),
            decreases self.children.len() - i,
        {
            proof {
                assert(self.children@.take(i + 1).drop_last() =~= self.children@.take(i as int));
                lemma_named_of_len(self.children@.take(i as int));
            }
            if self.children[i].named {
                n += 1;
            }
            i += 1;
        }
        assert(self.children@.take(self.children@.len() as int) =~= self.children@);
        n
    }
}

/// Whether `d` lies below `n` in the tree.
pub open spec fn below(d: SyntaxNode, n: SyntaxNode) -> bool {
    height(d) < height(n)
}

/// Collect the named children of `node` into `items`, descending into those
/// of kind `list_kind`.
fn flatten_list_inner<'n>(node: &'n SyntaxNode, list_kind: &str, items: &mut Vec<&'n SyntaxNode>, Ghost(top): Ghost<SyntaxNode>)
    requires
        height(*node) <= height(top),
        forall|k: int| 0 <= k < old(items)@.len() ==> below(*#[trigger] old(items)@[k], top),
    ensures
        forall|k: int| 0 <= k < final(items)@.len() ==> below(*#[trigger] final(items)@[k], top),
        node_views(final(items)@) == node_views(old(items)@) + flat_items(*node, list_kind@),
    decreases height(*node),
{
    let ghost start = node_views(items@);
    let mut i: usize = 0;
    while i < node.children.len()
        invariant
            i <= node.children@.len(),
            height(*node) <= height(top),
            forall|k: int| 0 <= k < items@.len() ==> below(*#[trigger] items@[k], top),
            node_views(items@) == start + flat_children(*node, list_kind@, i as int),
        decreases node.children.len() - i,
    {
        let child = &node.children[i];
        proof { lemma_child_lower(*node, i as int); }
        let ghost before = node_views(items@);
        let ghost fc = flat_children(*node, list_kind@, i as int);
        assert(*child == node.children@[i as int]);
        if child.named {
            if child.is(list_kind) {
                flatten_list_inner(child, list_kind, items, Ghost(top));
                assert(flat_children(*node, list_kind@, i + 1) == fc + flat_items(*child, list_kind@));
                assert(node_views(items@) =~= start + flat_children(*node, list_kind@, i + 1));
            } else {
                items.push(child);
                assert(flat_children(*node, list_kind@, i + 1) == fc.push(*child));
                assert(node_views(items@) =~= before.push(*child));
                assert(node_views(items@) =~= start + flat_children(*node, list_kind@, i + 1));
            }
        } else {
            assert(flat_children(*node, list_kind@, i + 1) == fc);
        }
        i += 1;
    }
}

/// The nodes behind a list of references.
pub open spec fn node_views(v: Seq<&SyntaxNode>) -> Seq<SyntaxNode> {
    v.map_values(|c: &SyntaxNode| *c)
}

/// The leaf items of the list `n`: its named children, each child of kind
/// `kind` replaced by its own items.
pub open spec fn flat_items(n: SyntaxNode, kind: Seq<char>) -> Seq<SyntaxNode>
    decreases n, 1nat,
{
    flat_children(n, kind, n.children@.len() as int)
}

/// The leaf items under the first `k` children of `n`.
pub open spec fn flat_children(n: SyntaxNode, kind: Seq<char>, k: int) -> Seq<SyntaxNode>
    decreases n, 0nat, k,
{
    if k <= 0 || k > n.children@.len() {
        Seq::empty()
    } else {
        let c = n.children@[k - 1];
        let rest = flat_children(n, kind, k - 1);
        if !c.named {
            rest
        } else if c.kind@ == kind {
            rest + flat_items(c, kind)
        } else {
            rest.push(c)
        }
    }
}

/// Flatten a left-recursive list node (like `target_list` or `expr_list`)
/// into its leaf items: the named descendants reached through nodes of kind
/// `list_kind`.
pub fn flatten_list<'n>(node: &'n SyntaxNode, list_kind: &str) -> (r: Vec<&'n SyntaxNode>)
    ensures
        forall|k: int| 0 <= k < r@.len() ==> below(*#[trigger] r@[k], *node),
        node_views(r@) == flat_items(*node, list_kind@),
{
    let mut items: Vec<&'n SyntaxNode> = Vec::new();
    assert(node_views(items@) =~= Seq::<SyntaxNode>::empty());
    flatten_list_inner(node, list_kind, &mut items, Ghost(*node));
    items
}

} // verus!
