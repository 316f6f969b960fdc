//! Syntax trees as plain values.
//!
//! The parser hands over its nodes in pre-order, each with its depth; from that
//! list a [`SyntaxNode`] is built, which is all that the partitioner reads.
use crate::text;
use vstd::prelude::*;

verus! {

/// A node of a syntax tree: its kind, the bytes and the rows (counted from zero)
/// that it covers, and its children in source order.
pub struct SyntaxNode {
    pub kind: String,
    pub start_byte: u32,
    pub end_byte: u32,
    pub start_row: u32,
    pub end_row: u32,
    pub children: Vec<SyntaxNode>,
}

/// The mathematical counterpart of [`SyntaxNode`].
pub struct SyntaxTree {
    pub kind: Seq<char>,
    pub start_byte: int,
    pub end_byte: int,
    pub start_row: int,
    pub end_row: int,
    pub children: Seq<SyntaxTree>,
}

/// The tree that a node stands for.
pub open spec fn tree(node: SyntaxNode) -> SyntaxTree
    decreases node,
{
    SyntaxTree {
        kind: node.kind@,
        start_byte: node.start_byte as int,
        end_byte: node.end_byte as int,
        start_row: node.start_row as int,
        end_row: node.end_row as int,
        children: trees(node.children@),
    }
}

/// The trees that a list of nodes stands for.
pub open spec fn trees(nodes: Seq<SyntaxNode>) -> Seq<SyntaxTree>
    decreases nodes,
{
    Seq::new(
        nodes.len(),
        |i: int|
            if 0 <= i < nodes.len() {
                tree(nodes[i])
            } else {
                arbitrary()
            },
    )
}

impl SyntaxTree {
    /// First line of the node, counted from one.
    pub open spec fn first_line(self) -> int {
        self.start_row + 1
    }

    /// Last line of the node, counted from one.
    pub open spec fn last_line(self) -> int {
        self.end_row + 1
    }

    /// Bytes that the node covers.
    pub open spec fn size(self) -> int {
        self.end_byte - self.start_byte
    }

    /// The node covers all lines from `start` to `end`.
    pub open spec fn spans(self, start: int, end: int) -> bool {
        self.first_line() <= start && end <= self.last_line()
    }

    /// The node has a line in common with those from `start` to `end`.
    pub open spec fn overlaps(self, start: int, end: int) -> bool {
        start <= self.last_line() && self.first_line() <= end
    }
}

impl SyntaxNode {
    /// First line of the node, counted from one.
    pub fn first_line(&self) -> (r: u64)
        ensures
            r == tree(*self).first_line(),
    {
        self.start_row as u64 + 1
    }

    /// Last line of the node, counted from one.
    pub fn last_line(&self) -> (r: u64)
        ensures
            r == tree(*self).last_line(),
    {
        self.end_row as u64 + 1
    }

    /// Bytes that the node covers.
    pub fn size(&self) -> (r: i64)
        ensures
            r == tree(*self).size(),
    {
        self.end_byte as i64 - self.start_byte as i64
    }

    /// Whether the node covers all lines from `start` to `end`.
    pub fn spans(&self, start: usize, end: usize) -> (r: bool)
        ensures
            r == tree(*self).spans(start as int, end as int),
    {
        self.first_line() <= start as u64 && self.last_line() >= end as u64
    }

    /// Whether the node has a line in common with those from `start` to `end`.
    pub fn overlaps(&self, start: usize, end: usize) -> (r: bool)
        ensures
            r == tree(*self).overlaps(start as int, end as int),
    {
        self.last_line() >= start as u64 && self.first_line() <= end as u64
    }

    /// Whether the node is of the given kind.
    pub fn is_kind(&self, kind: &str) -> (r: bool)
        ensures
            r == (tree(*self).kind == kind@),
    {
        text::same(self.kind.as_str(), kind)
    }
}

/// One node as the parser lists it: kind, depth below the root, bytes and rows.
pub struct NodeRecord {
    pub kind: String,
    pub depth: u32,
    pub start_byte: u32,
    pub end_byte: u32,
    pub start_row: u32,
    pub end_row: u32,
}

/// Kind, depth, first byte, end byte, first row and last row of a listed node.
pub type RecordView = (Seq<char>, int, int, int, int, int);

impl NodeRecord {
    pub open spec fn view(self) -> RecordView {
        (
            self.kind@,
            self.depth as int,
            self.start_byte as int,
            self.end_byte as int,
            self.start_row as int,
            self.end_row as int,
        )
    }
}

/// The plain values of a list of records.
pub open spec fn record_views(records: Seq<NodeRecord>) -> Seq<RecordView> {
    records.map_values(|r: NodeRecord| r.view())
}

/// First position from `j` on of a node that is not deeper than `depth`.
pub open spec fn subtree_end(records: Seq<RecordView>, j: int, depth: int) -> int
    decreases records.len() - j,
{
    if j >= records.len() || records[j].1 <= depth {
        j
    } else {
        subtree_end(records, j + 1, depth)
    }
}

/// The tree whose root stands at position `i` of a pre-order list.
pub open spec fn tree_at(records: Seq<RecordView>, i: int) -> SyntaxTree
    decreases records.len() - i, 0int,
    when 0 <= i < records.len()
{
    let (kind, depth, start_byte, end_byte, start_row, end_row) = records[i];
    SyntaxTree { kind, start_byte, end_byte, start_row, end_row, children: forest(records, i + 1, depth) }
}

/// The trees that stand one after the other from position `j` on, up to the
/// first node that is not deeper than `depth`.
pub open spec fn forest(records: Seq<RecordView>, j: int, depth: int) -> Seq<SyntaxTree>
    decreases records.len() - j, 1int,
    when 0 <= j
{
    if j >= records.len() || records[j].1 <= depth {
        Seq::empty()
    } else {
        proof {
            lemma_subtree_end(records, j + 1, records[j].1);
        }
        seq![tree_at(records, j)] + forest(
            records,
            subtree_end(records, j + 1, records[j].1),
            depth,
        )
    }
}

/// The tree of a whole pre-order list, whose first node is the root.
pub open spec fn tree_of(records: Seq<RecordView>) -> SyntaxTree {
    tree_at(records, 0)
}

pub proof fn lemma_subtree_end(records: Seq<RecordView>, j: int, depth: int)
    requires
        0 <= j <= records.len(),
    ensures
        j <= subtree_end(records, j, depth) <= records.len(),
        forall|k: int| j <= k < subtree_end(records, j, depth) ==> records[k].1 > depth,
    decreases records.len() - j,
{
    if j < records.len() && records[j].1 > depth {
        lemma_subtree_end(records, j + 1, depth);
    }
}

/// Nodes deeper than `depth` may be skipped in the search for the subtree's end.
proof fn lemma_subtree_end_skip(records: Seq<RecordView>, j: int, k: int, depth: int)
    requires
        0 <= j <= k <= records.len(),
        forall|i: int| j <= i < k ==> records[i].1 > depth,
    ensures
        subtree_end(records, j, depth) == subtree_end(records, k, depth),
    decreases k - j,
{
    if j < k {
        lemma_subtree_end_skip(records, j + 1, k, depth);
    }
}

/// Builds the tree whose root is at position `i`; also gives the position after it.
fn build_subtree(records: &Vec<NodeRecord>, i: usize) -> (r: (SyntaxNode, usize))
    requires
        i < records@.len(),
    ensures
        tree(r.0) == tree_at(record_views(records@), i as int),
        r.1 == subtree_end(record_views(records@), i + 1, records@[i as int].depth as int),
        i < r.1 <= records@.len(),
    decreases records@.len() - i,
{
    let ghost views = record_views(records@);
    let n: usize = records.len();
    let depth: u32 = records[i].depth;
    let ghost d: int = depth as int;
    let mut children: Vec<SyntaxNode> = Vec::new();
    let mut j: usize = i + 1;
    assert(trees(children@) + forest(views, j as int, d) =~= forest(views, i + 1, d));
    while j < n && records[j].depth > depth
        invariant
            n == records@.len(),
            i < j <= records@.len(),
            views == record_views(records@),
            depth == records@[i as int].depth,
            d == depth as int,
            trees(children@) + forest(views, j as int, d) == forest(views, i + 1, d),
            subtree_end(views, j as int, d) == subtree_end(views, i + 1, d),
        decreases records@.len() - j,
    {
        let (child, next) = build_subtree(records, j);
        proof {
            let dj = views[j as int].1;
            lemma_subtree_end(views, j + 1, dj);
            lemma_subtree_end_skip(views, j as int, next as int, d);
            assert(trees(children@.push(child)) =~= trees(children@).push(tree(child)));
            assert(trees(children@) + forest(views, j as int, d) =~= trees(children@.push(child))
                + forest(views, next as int, d));
        }
        children.push(child);
        j = next;
    }
    proof {
        assert(trees(children@) + Seq::<SyntaxTree>::empty() =~= trees(children@));
    }
    let r = &records[i];
    let node = SyntaxNode {
        kind: r.kind.clone(),
        start_byte: r.start_byte,
        end_byte: r.end_byte,
        start_row: r.start_row,
        end_row: r.end_row,
        children,
    };
    (node, j)
}

/// Builds the tree of a pre-order list that is not empty.
pub fn build_tree(records: &Vec<NodeRecord>) -> (r: SyntaxNode)
    requires
        records@.len() > 0,
    ensures
        tree(r) == tree_of(record_views(records@)),
{
    build_subtree(records, 0).0
}

/// The nodes of a tree in pre-order, each with its depth; the root has the given one.
pub open spec fn listing(t: SyntaxTree, depth: int) -> Seq<RecordView>
    decreases t, 0int,
{
    seq![(t.kind, depth, t.start_byte, t.end_byte, t.start_row, t.end_row)] + listings(
        t.children,
        0,
        depth + 1,
    )
}

/// The nodes of the trees from position `k` on in pre-order, the roots with the given depth.
pub open spec fn listings(nodes: Seq<SyntaxTree>, k: int, depth: int) -> Seq<RecordView>
    decreases nodes, nodes.len() - k,
{
    if k < 0 || k >= nodes.len() {
        Seq::empty()
    } else {
        listing(nodes[k], depth) + listings(nodes, k + 1, depth)
    }
}

proof fn lemma_listing_depth(t: SyntaxTree, depth: int)
    ensures
        listing(t, depth).len() > 0,
        listing(t, depth)[0].1 == depth,
        forall|i: int| 0 <= i < listing(t, depth).len() ==> (#[trigger] listing(t, depth)[i]).1
            >= depth,
    decreases t, 0int,
{
    lemma_listings_depth(t.children, 0, depth + 1);
    let below = listings(t.children, 0, depth + 1);
    assert forall|i: int| 0 <= i < listing(t, depth).len() implies (
    #[trigger] listing(t, depth)[i]).1 >= depth by {
        if i > 0 {
            assert(listing(t, depth)[i] == below[i - 1]);
        }
    }
}

proof fn lemma_listings_depth(nodes: Seq<SyntaxTree>, k: int, depth: int)
    ensures
        forall|i: int| 0 <= i < listings(nodes, k, depth).len() ==> (#[trigger] listings(
            nodes,
            k,
            depth,
        )[i]).1 >= depth,
        listings(nodes, k, depth).len() > 0 ==> listings(nodes, k, depth)[0].1 == depth,
    decreases nodes, nodes.len() - k,
{
    if 0 <= k < nodes.len() {
        lemma_listing_depth(nodes[k], depth);
        lemma_listings_depth(nodes, k + 1, depth);
        let first = listing(nodes[k], depth);
        let rest = listings(nodes, k + 1, depth);
        let all = listings(nodes, k, depth);
        assert forall|i: int| 0 <= i < all.len() implies (#[trigger] all[i]).1 >= depth by {
            if i < first.len() {
                assert(all[i] == first[i]);
            } else {
                assert(all[i] == rest[i - first.len()]);
            }
        }
    }
}

proof fn lemma_tree_listed(records: Seq<RecordView>, i: int, t: SyntaxTree, depth: int)
    requires
        0 <= i,
        i + listing(t, depth).len() <= records.len(),
        records.subrange(i, i + listing(t, depth).len()) == listing(t, depth),
        i + listing(t, depth).len() < records.len() ==> records[i + listing(t, depth).len()].1
            <= depth,
    ensures
        tree_at(records, i) == t,
        subtree_end(records, i + 1, depth) == i + listing(t, depth).len(),
        records[i].1 == depth,
    decreases t, 0int,
{
    let list = listing(t, depth);
    let below = listings(t.children, 0, depth + 1);
    let end = i + list.len();
    lemma_listing_depth(t, depth);
    assert(records.subrange(i, end)[0] == records[i]);
    let part = records.subrange(i + 1, i + 1 + below.len());
    assert forall|k: int| 0 <= k < below.len() implies #[trigger] part[k] == below[k] by {
        assert(records.subrange(i, end)[k + 1] == list[k + 1]);
    }
    assert(part =~= below);
    lemma_forest_listed(records, i + 1, t.children, 0, depth + 1);
    assert(t.children.skip(0) =~= t.children);
    lemma_listings_depth(t.children, 0, depth + 1);
    assert forall|k: int| i + 1 <= k < end implies records[k].1 > depth by {
        assert(records[k] == records.subrange(i + 1, i + 1 + below.len())[k - i - 1]);
    }
    lemma_subtree_end_skip(records, i + 1, end, depth);
}

proof fn lemma_forest_listed(
    records: Seq<RecordView>,
    j: int,
    nodes: Seq<SyntaxTree>,
    k: int,
    depth: int,
)
    requires
        0 <= j,
        0 <= k <= nodes.len(),
        j + listings(nodes, k, depth).len() <= records.len(),
        records.subrange(j, j + listings(nodes, k, depth).len()) == listings(nodes, k, depth),
        j + listings(nodes, k, depth).len() < records.len() ==> records[j + listings(
            nodes,
            k,
            depth,
        ).len()].1 < depth,
    ensures
        forest(records, j, depth - 1) == nodes.skip(k),
    decreases nodes, nodes.len() - k,
{
    let list = listings(nodes, k, depth);
    let end = j + list.len();
    if k >= nodes.len() {
        assert(nodes.skip(k) =~= Seq::empty());
    } else {
        let first = listing(nodes[k], depth);
        let rest = listings(nodes, k + 1, depth);
        let mid = j + first.len();
        let front = records.subrange(j, mid);
        assert forall|i: int| 0 <= i < first.len() implies #[trigger] front[i] == first[i] by {
            assert(records.subrange(j, end)[i] == list[i]);
        }
        assert(front =~= first);
        let part = records.subrange(mid, mid + rest.len());
        assert forall|i: int| 0 <= i < rest.len() implies #[trigger] part[i] == rest[i] by {
            assert(records.subrange(j, end)[first.len() + i] == list[first.len() + i]);
        }
        assert(part =~= rest);
        lemma_listings_depth(nodes, k + 1, depth);
        if rest.len() > 0 {
            assert(records[mid] == records.subrange(mid, mid + rest.len())[0]);
        }
        lemma_tree_listed(records, j, nodes[k], depth);
        lemma_forest_listed(records, mid, nodes, k + 1, depth);
        assert(nodes.skip(k) =~= seq![nodes[k]] + nodes.skip(k + 1));
    }
}

/// A tree is read back from the list of its nodes in pre-order: every node with its kind, bytes,
/// rows and children, and the children in order.
pub proof fn trees_are_read_back_from_their_list(t: SyntaxTree)
    ensures
        tree_of(listing(t, 0)) == t,
{
    let records = listing(t, 0);
    assert(records.subrange(0, records.len() as int) =~= records);
    lemma_tree_listed(records, 0, t, 0);
}

/// Lines are counted from one, and rows from zero; a node covers lines if none of them lies
/// outside of it, and overlaps them if not all of them do.
pub proof fn lines_of_a_node(t: SyntaxTree, start: int, end: int)
    requires
        t.start_row <= t.end_row,
        start <= end,
    ensures
        t.spans(start, end) <==> forall|line: int|
            start <= line <= end ==> t.start_row < line && #[trigger] (line - 1) <= t.end_row,
        t.overlaps(start, end) <==> exists|line: int|
            start <= line <= end && t.start_row < line && #[trigger] (line - 1) <= t.end_row,
{
    if !t.spans(start, end) {
        assert(start - 1 < t.start_row || end - 1 > t.end_row);
    }
    if t.overlaps(start, end) {
        let line = if start > t.start_row + 1 {
            start
        } else {
            t.start_row + 1
        };
        assert(line - 1 <= t.end_row);
    }
}

}
