//! The search for the line at which an oversized range is divided.
use crate::partitioner::node_analysis;
use crate::partitioner::node_analysis::get_meaningful_children;
use crate::partitioner::types::{SplitOutcome, SplitResult};
use crate::syntax;
use crate::syntax::SyntaxNode;
use crate::syntax::SyntaxTree;
use crate::text;
use vstd::prelude::*;

verus! {

/// Kinds whose direct children define boundaries.
pub open spec fn split_scope_kind(kind: Seq<char>) -> bool {
    ||| kind == "program"@
    ||| kind == "source_file"@
    ||| kind == "class_body"@
    ||| kind == "declaration_list"@
    ||| kind == "object_type"@
    ||| kind == "interface_body"@
    ||| kind == "statement_block"@
    ||| kind == "switch_body"@
    ||| kind == "object"@
    ||| kind == "jsx_element"@
    ||| kind == "jsx_fragment"@
}

/// Kinds that are passed through on the way to nested scopes.
pub open spec fn conduit_kind(kind: Seq<char>) -> bool {
    ||| kind == "export_statement"@
    ||| kind == "class_declaration"@
    ||| kind == "abstract_class_declaration"@
    ||| kind == "interface_declaration"@
    ||| kind == "type_alias_declaration"@
    ||| kind == "enum_declaration"@
    ||| kind == "function_declaration"@
    ||| kind == "generator_function_declaration"@
    ||| kind == "method_definition"@
    ||| kind == "arrow_function"@
    ||| kind == "function_expression"@
    ||| kind == "if_statement"@
    ||| kind == "try_statement"@
    ||| kind == "catch_clause"@
    ||| kind == "else_clause"@
    ||| kind == "for_statement"@
    ||| kind == "for_in_statement"@
    ||| kind == "for_of_statement"@
    ||| kind == "while_statement"@
    ||| kind == "do_statement"@
    ||| kind == "switch_statement"@
    ||| kind == "switch_case"@
    ||| kind == "return_statement"@
    ||| kind == "throw_statement"@
    ||| kind == "expression_statement"@
    ||| kind == "lexical_declaration"@
    ||| kind == "variable_declarator"@
    ||| kind == "await_expression"@
    ||| kind == "new_expression"@
    ||| kind == "arguments"@
    ||| kind == "call_expression"@
    ||| kind == "member_expression"@
    ||| kind == "as_expression"@
    ||| kind == "pair"@
    ||| kind == "jsx_expression"@
}

/// Whether the direct children of a node of this kind define boundaries.
pub fn is_split_scope(kind: &str) -> (r: bool)
    ensures
        r == split_scope_kind(kind@),
{
    text::same(kind, "program") || text::same(kind, "source_file") || text::same(kind, "class_body")
        || text::same(kind, "declaration_list") || text::same(kind, "object_type") || text::same(
        kind,
        "interface_body",
    ) || text::same(kind, "statement_block") || text::same(kind, "switch_body") || text::same(
        kind,
        "object",
    ) || text::same(kind, "jsx_element") || text::same(kind, "jsx_fragment")
}

/// Whether a node of this kind is passed through on the way to nested scopes.
pub fn is_transparent_conduit(kind: &str) -> (r: bool)
    ensures
        r == conduit_kind(kind@),
{
    text::same(kind, "export_statement") || text::same(kind, "class_declaration") || text::same(
        kind,
        "abstract_class_declaration",
    ) || text::same(kind, "interface_declaration") || text::same(kind, "type_alias_declaration")
        || text::same(kind, "enum_declaration") || text::same(kind, "function_declaration")
        || text::same(kind, "generator_function_declaration") || text::same(
        kind,
        "method_definition",
    ) || text::same(kind, "arrow_function") || text::same(kind, "function_expression")
        || text::same(kind, "if_statement") || text::same(kind, "try_statement") || text::same(
        kind,
        "catch_clause",
    ) || text::same(kind, "else_clause") || text::same(kind, "for_statement") || text::same(
        kind,
        "for_in_statement",
    ) || text::same(kind, "for_of_statement") || text::same(kind, "while_statement") || text::same(
        kind,
        "do_statement",
    ) || text::same(kind, "switch_statement") || text::same(kind, "switch_case") || text::same(
        kind,
        "return_statement",
    ) || text::same(kind, "throw_statement") || text::same(kind, "expression_statement")
        || text::same(kind, "lexical_declaration") || text::same(kind, "variable_declarator")
        || text::same(kind, "await_expression") || text::same(kind, "new_expression") || text::same(
        kind,
        "arguments",
    ) || text::same(kind, "call_expression") || text::same(kind, "member_expression") || text::same(
        kind,
        "as_expression",
    ) || text::same(kind, "pair") || text::same(kind, "jsx_expression")
}

/// Estimated bytes before a boundary after line `split`, when the bytes of the lines
/// from `start` to `end` were spread evenly.
pub open spec fn first_size(size: int, split: int, start: int, end: int) -> int {
    (size * (split - start + 1)) / (end - start + 1)
}

/// Both parts are estimated to have at least `min` bytes.
pub open spec fn viable(size: int, split: int, start: int, end: int, min: int) -> bool {
    &&& first_size(size, split, start, end) >= min
    &&& size - first_size(size, split, start, end) >= min
}

/// Distance between two numbers.
pub open spec fn distance(a: int, b: int) -> int {
    if a >= b {
        a - b
    } else {
        b - a
    }
}

/// How far the first part of a split is from half the size.
pub open spec fn imbalance(size: int, split: int, start: int, end: int) -> int {
    distance(first_size(size, split, start, end), size / 2)
}

/// Among the boundaries with two parts of at least `min` bytes, the first of those
/// that are closest to the middle.
pub open spec fn usable_split(
    candidates: Seq<int>,
    start: int,
    end: int,
    size: int,
    min: int,
) -> Option<int>
    decreases candidates.len(),
{
    if candidates.len() == 0 {
        None
    } else {
        let before = usable_split(candidates.drop_last(), start, end, size, min);
        let last = candidates.last();
        if !viable(size, last, start, end, min) {
            before
        } else {
            match before {
                Some(b) if imbalance(size, b, start, end) <= imbalance(size, last, start, end) =>
                    Some(b),
                _ => Some(last),
            }
        }
    }
}

/// How bad a boundary is: its distance from the ideal, and a penalty for parts
/// with few bytes.
pub open spec fn split_badness(
    split: int,
    start: int,
    end: int,
    size: int,
    ideal: int,
) -> int {
    let first = first_size(size, split, start, end);
    let second = size - first;
    let penalty: int = if first < 500 || second < 500 {
        10000
    } else if first < 1000 || second < 1000 {
        5000
    } else {
        0
    };
    distance(first, ideal) + penalty
}

/// The first of the least bad boundaries of `best` and then the candidates.
pub open spec fn least_bad(
    best: Option<int>,
    candidates: Seq<int>,
    start: int,
    end: int,
    size: int,
) -> Option<int>
    decreases candidates.len(),
{
    if candidates.len() == 0 {
        best
    } else {
        let last = candidates.last();
        match least_bad(best, candidates.drop_last(), start, end, size) {
            Some(b) if split_badness(b, start, end, size, size / 2) <= split_badness(
                last,
                start,
                end,
                size,
                size / 2,
            ) => Some(b),
            _ => Some(last),
        }
    }
}

proof fn lemma_first_size(size: int, split: int, start: int, end: int)
    requires
        0 <= size,
        start <= split <= end,
    ensures
        0 <= first_size(size, split, start, end) <= size,
{
    let before = split - start + 1;
    let total = end - start + 1;
    assert(0 <= (size * before) / total <= size) by (nonlinear_arith)
        requires
            0 <= size,
            0 < before <= total,
    ;
}

/// Estimated bytes before a boundary after line `split`.
fn estimate_first_size(size: usize, split: usize, start: usize, end: usize) -> (r: usize)
    requires
        start <= split <= end,
    ensures
        r == first_size(size as int, split as int, start as int, end as int),
        r <= size,
{
    let before: u128 = (split - start) as u128 + 1;
    let total: u128 = (end - start) as u128 + 1;
    proof {
        lemma_first_size(size as int, split as int, start as int, end as int);
        assert(size * before <= 0xffff_ffff_ffff_ffff * 0x1_0000_0000_0000_0000) by (nonlinear_arith)
            requires
                0 <= size <= 0xffff_ffff_ffff_ffff,
                0 < before <= 0x1_0000_0000_0000_0000,
        ;
    }
    ((size as u128 * before) / total) as usize
}

fn abs_diff(a: usize, b: usize) -> (r: usize)
    ensures
        r == distance(a as int, b as int),
{
    if a >= b {
        a - b
    } else {
        b - a
    }
}

/// The lines of a list of boundaries.
pub open spec fn ints(v: Seq<usize>) -> Seq<int> {
    v.map_values(|x: usize| x as int)
}

/// An optional line as a number.
pub open spec fn int_opt(x: Option<usize>) -> Option<int> {
    match x {
        Some(v) => Some(v as int),
        None => None,
    }
}

/// All boundaries lie in the range.
pub open spec fn all_within(candidates: Seq<usize>, start: usize, end: usize) -> bool {
    forall|i: int|
        0 <= i < candidates.len() ==> start <= #[trigger] candidates[i] && candidates[i] <= end
}

/// Picks the boundary closest to the middle among those with two parts of at least
/// `min_chunk_size` bytes.
pub fn find_usable_split(
    candidates: &[usize],
    start_line: usize,
    end_line: usize,
    chunk_size: usize,
    _target_size: usize,
    min_chunk_size: usize,
) -> (r: Option<usize>)
    requires
        all_within(candidates@, start_line, end_line),
    ensures
        int_opt(r) == usable_split(
            ints(candidates@),
            start_line as int,
            end_line as int,
            chunk_size as int,
            min_chunk_size as int,
        ),
        r matches Some(line) ==> candidates@.contains(line),
{
    let ghost (s, e, size, min) = (
        start_line as int,
        end_line as int,
        chunk_size as int,
        min_chunk_size as int,
    );
    let ideal: usize = chunk_size / 2;
    let mut best: Option<usize> = None;
    let mut best_distance: usize = 0;
    let n: usize = candidates.len();
    for i in 0..n
        invariant
            n == candidates@.len(),
            ideal == chunk_size / 2,
            s == start_line as int,
            e == end_line as int,
            size == chunk_size as int,
            min == min_chunk_size as int,
            all_within(candidates@, start_line, end_line),
            int_opt(best) == usable_split(ints(candidates@.take(i as int)), s, e, size, min),
            best matches Some(line) ==> best_distance == imbalance(size, line as int, s, e)
                && candidates@.contains(line),
    {
        let split: usize = candidates[i];
        proof {
            let seen = ints(candidates@.take(i + 1));
            assert(seen.drop_last() =~= ints(candidates@.take(i as int)));
            assert(seen.last() == split);
        }
        let first: usize = estimate_first_size(chunk_size, split, start_line, end_line);
        let second: usize = chunk_size - first;
        if first >= min_chunk_size && second >= min_chunk_size {
            let d: usize = abs_diff(first, ideal);
            if best.is_none() || d < best_distance {
                best = Some(split);
                best_distance = d;
            }
        }
    }
    assert(candidates@.take(n as int) =~= candidates@);
    best
}

/// How bad a boundary is (see [`split_badness`]).
pub fn compute_split_badness(
    split_line: usize,
    start_line: usize,
    end_line: usize,
    chunk_size: usize,
    ideal_first_size: usize,
) -> (r: usize)
    requires
        start_line <= split_line <= end_line,
        split_badness(
            split_line as int,
            start_line as int,
            end_line as int,
            chunk_size as int,
            ideal_first_size as int,
        ) <= usize::MAX,
    ensures
        r == split_badness(
            split_line as int,
            start_line as int,
            end_line as int,
            chunk_size as int,
            ideal_first_size as int,
        ),
{
    let first: usize = estimate_first_size(chunk_size, split_line, start_line, end_line);
    let second: usize = chunk_size - first;
    let penalty: usize = if first < 500 || second < 500 {
        10000
    } else if first < 1000 || second < 1000 {
        5000
    } else {
        0
    };
    abs_diff(first, ideal_first_size) + penalty
}

/// Extends the search for the least bad boundary by the boundaries of one scope.
fn find_least_bad(
    best: Option<usize>,
    candidates: &[usize],
    start_line: usize,
    end_line: usize,
    chunk_size: usize,
) -> (r: Option<usize>)
    requires
        all_within(candidates@, start_line, end_line),
        best matches Some(line) ==> start_line <= line <= end_line,
    ensures
        int_opt(r) == least_bad(
            int_opt(best),
            ints(candidates@),
            start_line as int,
            end_line as int,
            chunk_size as int,
        ),
        r matches Some(line) ==> best == Some(line) || candidates@.contains(line),
{
    let ghost (s, e, size) = (start_line as int, end_line as int, chunk_size as int);
    let ideal: usize = chunk_size / 2;
    let mut found: Option<usize> = best;
    let n: usize = candidates.len();
    for i in 0..n
        invariant
            n == candidates@.len(),
            ideal == chunk_size / 2,
            s == start_line as int,
            e == end_line as int,
            size == chunk_size as int,
            all_within(candidates@, start_line, end_line),
            found matches Some(line) ==> start_line <= line <= end_line,
            int_opt(found) == least_bad(
                int_opt(best),
                ints(candidates@.take(i as int)),
                s,
                e,
                size,
            ),
            found matches Some(line) ==> best == Some(line) || candidates@.contains(line),
    {
        let split: usize = candidates[i];
        proof {
            let seen = ints(candidates@.take(i + 1));
            assert(seen.drop_last() =~= ints(candidates@.take(i as int)));
            assert(seen.last() == split);
            lemma_badness_fits(split as int, s, e, size);
            if let Some(b) = found {
                lemma_badness_fits(b as int, s, e, size);
            }
        }
        let badness: usize = compute_split_badness(split, start_line, end_line, chunk_size, ideal);
        let better = match found {
            Some(b) => badness < compute_split_badness(b, start_line, end_line, chunk_size, ideal),
            None => true,
        };
        if better {
            found = Some(split);
        }
    }
    assert(candidates@.take(n as int) =~= candidates@);
    found
}

proof fn lemma_badness_fits(split: int, start: int, end: int, size: int)
    requires
        start <= split <= end,
        0 <= size <= usize::MAX,
    ensures
        0 <= split_badness(split, start, end, size, size / 2) <= usize::MAX,
{
    lemma_first_size(size, split, start, end);
}

/// The children of a scope next to which a range may be divided and that have a line
/// in common with the lines from `start` to `end`.
pub open spec fn overlapping_children(
    scope: SyntaxTree,
    source: Seq<u8>,
    start: int,
    end: int,
) -> Seq<SyntaxTree> {
    node_analysis::meaningful_children(scope, scope.children.len() as int, source).filter(
        |child: SyntaxTree| child.overlaps(start, end),
    )
}

/// The boundaries that a scope proposes for the lines from `start` to `end`: after
/// each overlapping child but the last, where both sides keep a line.
pub open spec fn scope_candidates(
    scope: SyntaxTree,
    source: Seq<u8>,
    start: int,
    end: int,
) -> Seq<int> {
    let overlapping = overlapping_children(scope, source, start, end);
    if overlapping.len() < 2 {
        Seq::empty()
    } else {
        overlapping.drop_last().map_values(|child: SyntaxTree| child.last_line()).filter(
            |line: int| start <= line < end,
        )
    }
}

/// Collects the boundaries that a scope proposes (see [`scope_candidates`]).
pub fn get_scope_candidates(
    scope: &SyntaxNode,
    source: &[u8],
    chunk_start: usize,
    chunk_end: usize,
) -> (r: Vec<usize>)
    ensures
        ints(r@) == scope_candidates(
            syntax::tree(*scope),
            source@,
            chunk_start as int,
            chunk_end as int,
        ),
        forall|i: int|
            0 <= i < r@.len() ==> chunk_start <= #[trigger] r@[i] && r@[i] < chunk_end,
{
    let ghost (s, e) = (chunk_start as int, chunk_end as int);
    let ghost overlaps = |child: SyntaxTree| child.overlaps(s, e);
    let ghost inside = |line: int| s <= line < e;
    let ghost line_of = |child: SyntaxTree| child.last_line();
    let children = get_meaningful_children(scope, source);
    let ghost all = node_analysis::borrowed_trees(children@);
    let mut overlapping: Vec<&SyntaxNode> = Vec::new();
    let n: usize = children.len();
    assert(all.take(0) =~= Seq::empty());
    reveal(Seq::filter);
    for i in 0..n
        invariant
            n == children@.len(),
            all == node_analysis::borrowed_trees(children@),
            overlaps == (|child: SyntaxTree| child.overlaps(s, e)),
            s == chunk_start as int,
            e == chunk_end as int,
            node_analysis::borrowed_trees(overlapping@) == all.take(i as int).filter(overlaps),
    {
        reveal(Seq::filter);
        let child = children[i];
        proof {
            assert(all.take(i + 1).drop_last() =~= all.take(i as int));
            assert(all.take(i + 1).last() == syntax::tree(*child));
        }
        if child.overlaps(chunk_start, chunk_end) {
            assert(node_analysis::borrowed_trees(overlapping@.push(child))
                =~= node_analysis::borrowed_trees(overlapping@).push(syntax::tree(*child)));
            overlapping.push(child);
        }
    }
    assert(all.take(n as int) =~= all);
    let ghost found = node_analysis::borrowed_trees(overlapping@);
    assert(found == overlapping_children(syntax::tree(*scope), source@, s, e));
    let m: usize = overlapping.len();
    let mut out: Vec<usize> = Vec::new();
    if m < 2 {
        assert(ints(out@) =~= Seq::empty());
        return out;
    }
    let ghost lines = found.drop_last().map_values(line_of);
    assert(ints(out@) =~= lines.take(0).filter(inside));
    for i in 0..m - 1
        invariant
            m == overlapping@.len(),
            m >= 2,
            found == node_analysis::borrowed_trees(overlapping@),
            lines == found.drop_last().map_values(line_of),
            line_of == (|child: SyntaxTree| child.last_line()),
            inside == (|line: int| s <= line < e),
            s == chunk_start as int,
            e == chunk_end as int,
            ints(out@) == lines.take(i as int).filter(inside),
            forall|i: int|
                0 <= i < out@.len() ==> chunk_start <= #[trigger] out@[i] && out@[i] < chunk_end,
    {
        reveal(Seq::filter);
        let line: u64 = overlapping[i].last_line();
        proof {
            assert(found[i as int] == syntax::tree(*overlapping@[i as int]));
            assert(lines.take(i + 1).drop_last() =~= lines.take(i as int));
            assert(lines.take(i + 1).last() == line);
        }
        if line >= chunk_start as u64 && line < chunk_end as u64 {
            assert(ints(out@.push(line as usize)) =~= ints(out@).push(line as int));
            out.push(line as usize);
        }
    }
    assert(lines.take(m - 1) =~= lines);
    out
}

/// Number of nodes of a tree.
pub open spec fn weight(node: SyntaxTree) -> nat
    decreases node, 0int,
{
    1 + forest_weight(node.children, node.children.len() as int)
}

/// Number of nodes of the first `n` trees of a list.
pub open spec fn forest_weight(nodes: Seq<SyntaxTree>, n: int) -> nat
    decreases nodes, n,
{
    if n <= 0 || n > nodes.len() {
        0
    } else {
        forest_weight(nodes, n - 1) + weight(nodes[n - 1])
    }
}

proof fn lemma_forest_weight(nodes: Seq<SyntaxTree>, n: int, i: int)
    requires
        0 <= i < n <= nodes.len(),
    ensures
        weight(nodes[i]) <= forest_weight(nodes, n),
    decreases n,
{
    if i < n - 1 {
        lemma_forest_weight(nodes, n - 1, i);
    }
}

proof fn lemma_child_weight(node: SyntaxTree, i: int)
    requires
        0 <= i < node.children.len(),
    ensures
        weight(node.children[i]) < weight(node),
{
    lemma_forest_weight(node.children, node.children.len() as int, i);
}

/// A scope proposes a boundary with two parts of at least `min` bytes.
pub open spec fn has_viable_candidate(
    scope: SyntaxTree,
    source: Seq<u8>,
    start: int,
    end: int,
    size: int,
    min: int,
) -> bool {
    exists|i: int|
        0 <= i < scope_candidates(scope, source, start, end).len() && viable(
            size,
            #[trigger] scope_candidates(scope, source, start, end)[i],
            start,
            end,
            min,
        )
}

/// The node is a scope or leads to scopes, and has a line in common with the range.
pub open spec fn worth_entering(node: SyntaxTree, start: int, end: int) -> bool {
    node.overlaps(start, end) && (split_scope_kind(node.kind) || conduit_kind(node.kind))
}

/// In pre-order, the first scope at or below `node` with a viable boundary; only
/// scopes and conduits are entered.
pub open spec fn viable_scope(
    node: SyntaxTree,
    source: Seq<u8>,
    start: int,
    end: int,
    size: int,
    min: int,
) -> Option<SyntaxTree>
    decreases node, 0int,
{
    if !node.overlaps(start, end) {
        None
    } else if split_scope_kind(node.kind) && has_viable_candidate(
        node,
        source,
        start,
        end,
        size,
        min,
    ) {
        Some(node)
    } else {
        viable_scope_among(node.children, 0, source, start, end, size, min)
    }
}

/// The first scope with a viable boundary at or below the nodes from `k` on.
pub open spec fn viable_scope_among(
    nodes: Seq<SyntaxTree>,
    k: int,
    source: Seq<u8>,
    start: int,
    end: int,
    size: int,
    min: int,
) -> Option<SyntaxTree>
    decreases nodes, nodes.len() - k,
{
    if k < 0 || k >= nodes.len() {
        None
    } else {
        let found = if worth_entering(nodes[k], start, end) {
            viable_scope(nodes[k], source, start, end, size, min)
        } else {
            None
        };
        match found {
            Some(scope) => Some(scope),
            None => viable_scope_among(nodes, k + 1, source, start, end, size, min),
        }
    }
}

/// How much speaks for entering a child: scopes come first, then the number of
/// lines in common.
pub open spec fn descent_score(node: SyntaxTree, start: int, end: int) -> int {
    let from = if node.first_line() >= start {
        node.first_line()
    } else {
        start
    };
    let to = if node.last_line() <= end {
        node.last_line()
    } else {
        end
    };
    (if split_scope_kind(node.kind) {
        1000int
    } else {
        0
    }) + (to - from)
}

/// Position of the first child with the highest score among the first `n`.
pub open spec fn preferred_child(
    nodes: Seq<SyntaxTree>,
    n: int,
    start: int,
    end: int,
) -> Option<int>
    decreases n,
{
    if n <= 0 {
        None
    } else {
        let before = preferred_child(nodes, n - 1, start, end);
        if !worth_entering(nodes[n - 1], start, end) {
            before
        } else {
            match before {
                Some(b) if descent_score(nodes[b], start, end) >= descent_score(
                    nodes[n - 1],
                    start,
                    end,
                ) => Some(b),
                _ => Some(n - 1),
            }
        }
    }
}

/// The scope that the search goes on with after `scope`: the first one with a viable
/// boundary at or below its preferred child.
pub open spec fn nested_scope(
    scope: SyntaxTree,
    source: Seq<u8>,
    start: int,
    end: int,
    size: int,
    min: int,
) -> Option<SyntaxTree> {
    match preferred_child(scope.children, scope.children.len() as int, start, end) {
        Some(i) => viable_scope(scope.children[i], source, start, end, size, min),
        None => None,
    }
}

proof fn lemma_preferred_child(nodes: Seq<SyntaxTree>, n: int, start: int, end: int)
    requires
        0 <= n <= nodes.len(),
    ensures
        preferred_child(nodes, n, start, end) matches Some(i) ==> 0 <= i < n && worth_entering(
            nodes[i],
            start,
            end,
        ),
    decreases n,
{
    if n > 0 {
        lemma_preferred_child(nodes, n - 1, start, end);
    }
}

proof fn lemma_viable_scope_weight(
    node: SyntaxTree,
    source: Seq<u8>,
    start: int,
    end: int,
    size: int,
    min: int,
)
    ensures
        viable_scope(node, source, start, end, size, min) matches Some(scope) ==> weight(scope)
            <= weight(node) && scope_candidates(scope, source, start, end).len() > 0,
    decreases node, 0int,
{
    if node.overlaps(start, end) && !(split_scope_kind(node.kind) && has_viable_candidate(
        node,
        source,
        start,
        end,
        size,
        min,
    )) {
        lemma_viable_scope_among_weight(node, 0, source, start, end, size, min);
    }
}

proof fn lemma_viable_scope_among_weight(
    node: SyntaxTree,
    k: int,
    source: Seq<u8>,
    start: int,
    end: int,
    size: int,
    min: int,
)
    requires
        0 <= k,
    ensures
        viable_scope_among(node.children, k, source, start, end, size, min) matches Some(scope)
            ==> weight(scope) < weight(node) && scope_candidates(scope, source, start, end).len()
            > 0,
    decreases node.children, node.children.len() - k,
{
    if k < node.children.len() {
        lemma_viable_scope_weight(node.children[k], source, start, end, size, min);
        lemma_viable_scope_among_weight(node, k + 1, source, start, end, size, min);
        lemma_child_weight(node, k);
    }
}

pub proof fn lemma_nested_scope(
    scope: SyntaxTree,
    source: Seq<u8>,
    start: int,
    end: int,
    size: int,
    min: int,
)
    ensures
        nested_scope(scope, source, start, end, size, min) matches Some(inner) ==> weight(inner)
            < weight(scope) && scope_candidates(inner, source, start, end).len() > 0,
{
    let n = scope.children.len() as int;
    lemma_preferred_child(scope.children, n, start, end);
    if let Some(i) = preferred_child(scope.children, n, start, end) {
        lemma_viable_scope_weight(scope.children[i], source, start, end, size, min);
        lemma_child_weight(scope, i);
    }
}

/// Whether a scope proposes a boundary with two parts of at least `min` bytes.
fn scope_is_viable(
    scope: &SyntaxNode,
    start_line: usize,
    end_line: usize,
    chunk_size: usize,
    min_chunk_size: usize,
    source: &[u8],
) -> (r: bool)
    ensures
        r == has_viable_candidate(
            syntax::tree(*scope),
            source@,
            start_line as int,
            end_line as int,
            chunk_size as int,
            min_chunk_size as int,
        ),
{
    let candidates = get_scope_candidates(scope, source, start_line, end_line);
    let ghost cands = scope_candidates(
        syntax::tree(*scope),
        source@,
        start_line as int,
        end_line as int,
    );
    let n: usize = candidates.len();
    for i in 0..n
        invariant
            n == candidates@.len(),
            ints(candidates@) == cands,
            cands == scope_candidates(
                syntax::tree(*scope),
                source@,
                start_line as int,
                end_line as int,
            ),
            forall|i: int|
                0 <= i < candidates@.len() ==> start_line <= #[trigger] candidates@[i]
                    && candidates@[i] < end_line,
            forall|j: int|
                0 <= j < i ==> !viable(
                    chunk_size as int,
                    #[trigger] cands[j],
                    start_line as int,
                    end_line as int,
                    min_chunk_size as int,
                ),
    {
        let split: usize = candidates[i];
        assert(cands[i as int] == split);
        let first: usize = estimate_first_size(chunk_size, split, start_line, end_line);
        if first >= min_chunk_size && chunk_size - first >= min_chunk_size {
            return true;
        }
    }
    assert(cands.len() == n);
    false
}

/// The first scope with a viable boundary at or below a node (see [`viable_scope`]).
pub fn find_deepest_split_scope<'a>(
    node: &'a SyntaxNode,
    start_line: usize,
    end_line: usize,
    chunk_size: usize,
    min_chunk_size: usize,
    source: &[u8],
) -> (r: Option<&'a SyntaxNode>)
    ensures
        node_analysis::tree_opt(r) == viable_scope(
            syntax::tree(*node),
            source@,
            start_line as int,
            end_line as int,
            chunk_size as int,
            min_chunk_size as int,
        ),
    decreases node,
{
    let ghost (s, e, size, min) = (
        start_line as int,
        end_line as int,
        chunk_size as int,
        min_chunk_size as int,
    );
    if !node.overlaps(start_line, end_line) {
        return None;
    }
    if is_split_scope(node.kind.as_str()) && scope_is_viable(
        node,
        start_line,
        end_line,
        chunk_size,
        min_chunk_size,
        source,
    ) {
        return Some(node);
    }
    let ghost children = syntax::tree(*node).children;
    let n: usize = node.children.len();
    for k in 0..n
        invariant
            n == node.children@.len(),
            children == syntax::trees(node.children@),
            s == start_line as int,
            e == end_line as int,
            size == chunk_size as int,
            min == min_chunk_size as int,
            viable_scope_among(children, k as int, source@, s, e, size, min) == viable_scope(
                syntax::tree(*node),
                source@,
                s,
                e,
                size,
                min,
            ),
    {
        let child = &node.children[k];
        assert(children[k as int] == syntax::tree(*child));
        if child.overlaps(start_line, end_line) && (is_transparent_conduit(child.kind.as_str())
            || is_split_scope(child.kind.as_str())) {
            let deeper = find_deepest_split_scope(
                child,
                start_line,
                end_line,
                chunk_size,
                min_chunk_size,
                source,
            );
            if deeper.is_some() {
                return deeper;
            }
        }
    }
    None
}

/// How much speaks for entering a child that has a line in common with the range.
fn score_descent(node: &SyntaxNode, start_line: usize, end_line: usize) -> (r: i64)
    requires
        syntax::tree(*node).overlaps(start_line as int, end_line as int),
    ensures
        r == descent_score(syntax::tree(*node), start_line as int, end_line as int),
{
    let from: u64 = if node.first_line() >= start_line as u64 {
        node.first_line()
    } else {
        start_line as u64
    };
    let to: u64 = if node.last_line() <= end_line as u64 {
        node.last_line()
    } else {
        end_line as u64
    };
    let base: i64 = if is_split_scope(node.kind.as_str()) {
        1000
    } else {
        0
    };
    base + (to as i64 - from as i64)
}

/// The scope that the search goes on with after `node` (see [`nested_scope`]).
pub fn find_nested_split_scope<'a>(
    node: &'a SyntaxNode,
    start_line: usize,
    end_line: usize,
    chunk_size: usize,
    min_chunk_size: usize,
    source: &[u8],
) -> (r: Option<&'a SyntaxNode>)
    ensures
        node_analysis::tree_opt(r) == nested_scope(
            syntax::tree(*node),
            source@,
            start_line as int,
            end_line as int,
            chunk_size as int,
            min_chunk_size as int,
        ),
{
    let ghost (s, e) = (start_line as int, end_line as int);
    let ghost children = syntax::tree(*node).children;
    let n: usize = node.children.len();
    let mut best: Option<usize> = None;
    for k in 0..n
        invariant
            n == node.children@.len(),
            children == syntax::trees(node.children@),
            s == start_line as int,
            e == end_line as int,
            int_opt(best) == preferred_child(children, k as int, s, e),
            best matches Some(b) ==> b < k && worth_entering(children[b as int], s, e),
    {
        let child = &node.children[k];
        assert(children[k as int] == syntax::tree(*child));
        if child.overlaps(start_line, end_line) && (is_split_scope(child.kind.as_str())
            || is_transparent_conduit(child.kind.as_str())) {
            let better = match best {
                Some(b) => {
                    let other = &node.children[b];
                    assert(children[b as int] == syntax::tree(*other));
                    score_descent(child, start_line, end_line) > score_descent(
                        other,
                        start_line,
                        end_line,
                    )
                },
                None => true,
            };
            if better {
                best = Some(k);
            }
        }
    }
    match best {
        Some(b) => {
            let child = &node.children[b];
            assert(children[b as int] == syntax::tree(*child));
            find_deepest_split_scope(
                child,
                start_line,
                end_line,
                chunk_size,
                min_chunk_size,
                source,
            )
        },
        None => None,
    }
}

/// Position of the first node from `k` on that covers the lines from `start` to `end`.
pub open spec fn first_spanning(nodes: Seq<SyntaxTree>, k: int, start: int, end: int) -> Option<int>
    decreases nodes.len() - k,
{
    if k < 0 || k >= nodes.len() {
        None
    } else if nodes[k].spans(start, end) {
        Some(k)
    } else {
        first_spanning(nodes, k + 1, start, end)
    }
}

proof fn lemma_first_spanning(nodes: Seq<SyntaxTree>, k: int, start: int, end: int)
    requires
        0 <= k,
    ensures
        first_spanning(nodes, k, start, end) matches Some(i) ==> k <= i < nodes.len()
            && nodes[i].spans(start, end),
    decreases nodes.len() - k,
{
    if k < nodes.len() && !nodes[k].spans(start, end) {
        lemma_first_spanning(nodes, k + 1, start, end);
    }
}

/// The child of a node that is no scope in which the search for the scope around the
/// lines from `start` to `end` goes on, if there is one: of a conduit the first that
/// covers the lines, else the only meaningful child, if it covers them.
pub open spec fn way_down(
    node: SyntaxTree,
    source: Seq<u8>,
    start: int,
    end: int,
) -> Option<SyntaxTree> {
    let all = node_analysis::meaningful_children(node, node.children.len() as int, source);
    let spanning = first_spanning(node.children, 0, start, end);
    if conduit_kind(node.kind) && spanning is Some {
        Some(node.children[spanning->0])
    } else if all.len() == 1 && all[0].spans(start, end) {
        Some(all[0])
    } else {
        None
    }
}

proof fn lemma_meaningful_children(node: SyntaxTree, n: int, source: Seq<u8>, i: int)
    requires
        0 <= n <= node.children.len(),
        0 <= i < node_analysis::meaningful_children(node, n, source).len(),
    ensures
        exists|k: int|
            0 <= k < n && node_analysis::meaningful_children(node, n, source)[i]
                == node.children[k],
    decreases n,
{
    if n > 0 {
        let before = node_analysis::meaningful_children(node, n - 1, source);
        if i < before.len() {
            lemma_meaningful_children(node, n - 1, source, i);
            let k = choose|k: int| 0 <= k < n - 1 && before[i] == node.children[k];
            assert(0 <= k < n && before[i] == node.children[k]);
        } else {
            assert(node_analysis::meaningful_children(node, n, source)[i] == node.children[n - 1]);
        }
    }
}

pub proof fn lemma_way_down(node: SyntaxTree, source: Seq<u8>, start: int, end: int)
    ensures
        way_down(node, source, start, end) matches Some(child) ==> exists|k: int|
            0 <= k < node.children.len() && child == node.children[k],
{
    let n = node.children.len() as int;
    lemma_first_spanning(node.children, 0, start, end);
    if node_analysis::meaningful_children(node, n, source).len() == 1 {
        lemma_meaningful_children(node, n, source, 0);
    }
}

/// The shallowest scope around the lines from `start` to `end`, or the last node on
/// the way to it.
pub open spec fn shallowest_scope(
    node: SyntaxTree,
    source: Seq<u8>,
    start: int,
    end: int,
) -> SyntaxTree
    decreases node,
{
    if !node.spans(start, end) || split_scope_kind(node.kind) {
        node
    } else {
        proof {
            lemma_way_down(node, source, start, end);
        }
        match way_down(node, source, start, end) {
            Some(child) => shallowest_scope(child, source, start, end),
            None => node,
        }
    }
}

/// The shallowest scope around a range of lines (see [`shallowest_scope`]).
pub fn find_shallowest_split_scope<'a>(
    node: &'a SyntaxNode,
    start_line: usize,
    end_line: usize,
    source: &[u8],
) -> (r: &'a SyntaxNode)
    ensures
        syntax::tree(*r) == shallowest_scope(
            syntax::tree(*node),
            source@,
            start_line as int,
            end_line as int,
        ),
    decreases node,
{
    let ghost (s, e) = (start_line as int, end_line as int);
    let ghost children = syntax::tree(*node).children;
    if !node.spans(start_line, end_line) {
        return node;
    }
    if is_split_scope(node.kind.as_str()) {
        return node;
    }
    if is_transparent_conduit(node.kind.as_str()) {
        let n: usize = node.children.len();
        for k in 0..n
            invariant
                n == node.children@.len(),
                children == syntax::tree(*node).children,
                s == start_line as int,
                e == end_line as int,
                first_spanning(children, k as int, s, e) == first_spanning(children, 0, s, e),
                conduit_kind(syntax::tree(*node).kind),
                !split_scope_kind(syntax::tree(*node).kind),
                syntax::tree(*node).spans(s, e),
        {
            let child = &node.children[k];
            assert(children[k as int] == syntax::tree(*child));
            if child.spans(start_line, end_line) {
                return find_shallowest_split_scope(child, start_line, end_line, source);
            }
        }
        assert(first_spanning(children, n as int, s, e) is None);
    }
    let meaningful = get_meaningful_children(node, source);
    if meaningful.len() == 1 {
        let child = meaningful[0];
        assert(syntax::tree(*child) == node_analysis::meaningful_children(
            syntax::tree(*node),
            node.children@.len() as int,
            source@,
        )[0]);
        if child.spans(start_line, end_line) {
            return find_shallowest_split_scope(child, start_line, end_line, source);
        }
    }
    node
}

/// What is done when no scope has a usable boundary: the least bad boundary, if any
/// scope proposed one, else the middle line, if both sides keep a line.
pub open spec fn last_resort(
    least: Option<int>,
    start: int,
    end: int,
    size: int,
    min: int,
) -> SplitOutcome {
    match least {
        Some(line) => if viable(size, line, start, end, min) {
            SplitOutcome::Split(line)
        } else {
            SplitOutcome::DegradedSplit(line)
        },
        None => {
            let middle = start + (end - start) / 2;
            if start < middle < end {
                SplitOutcome::Fallback(middle)
            } else {
                SplitOutcome::CannotSplit
            }
        },
    }
}

/// The search from `scope` inwards; `least` is the least bad boundary of the scopes
/// around it.
pub open spec fn split_from(
    scope: SyntaxTree,
    least: Option<int>,
    source: Seq<u8>,
    start: int,
    end: int,
    size: int,
    min: int,
) -> SplitOutcome
    decreases weight(scope),
{
    let candidates = scope_candidates(scope, source, start, end);
    match usable_split(candidates, start, end, size, min) {
        Some(line) => SplitOutcome::Split(line),
        None => {
            let worst = least_bad(least, candidates, start, end, size);
            proof {
                lemma_nested_scope(scope, source, start, end, size, min);
            }
            match nested_scope(scope, source, start, end, size, min) {
                Some(inner) => split_from(inner, worst, source, start, end, size, min),
                None => last_resort(worst, start, end, size, min),
            }
        },
    }
}

/// Where the lines from `start` to `end`, which have `size` bytes, are divided.
pub open spec fn best_split(
    root: SyntaxTree,
    source: Seq<u8>,
    start: int,
    end: int,
    size: int,
    min: int,
) -> SplitOutcome {
    split_from(shallowest_scope(root, source, start, end), None, source, start, end, size, min)
}

/// Finds where an oversized range of lines is divided: at the boundary closest to the
/// middle of the shallowest scope that has a usable one, else at the least bad
/// boundary of all scopes on the way in, else in the middle.
pub fn find_best_split(
    root: &SyntaxNode,
    start_line: usize,
    end_line: usize,
    chunk_size: usize,
    target_size: usize,
    min_chunk_size: usize,
    source: &[u8],
) -> (r: SplitResult)
    requires
        start_line <= end_line,
    ensures
        r@ == best_split(
            syntax::tree(*root),
            source@,
            start_line as int,
            end_line as int,
            chunk_size as int,
            min_chunk_size as int,
        ),
{
    let ghost (s, e, size, min) = (
        start_line as int,
        end_line as int,
        chunk_size as int,
        min_chunk_size as int,
    );
    let ghost goal = best_split(syntax::tree(*root), source@, s, e, size, min);
    let mut scope = find_shallowest_split_scope(root, start_line, end_line, source);
    let mut least: Option<usize> = None;
    loop
        invariant
            start_line <= end_line,
            s == start_line as int,
            e == end_line as int,
            size == chunk_size as int,
            min == min_chunk_size as int,
            least matches Some(line) ==> start_line <= line < end_line,
            split_from(syntax::tree(*scope), int_opt(least), source@, s, e, size, min) == goal,
            goal == best_split(syntax::tree(*root), source@, s, e, size, min),
        decreases weight(syntax::tree(*scope)),
    {
        let candidates = get_scope_candidates(scope, source, start_line, end_line);
        if let Some(line) = find_usable_split(
            candidates.as_slice(),
            start_line,
            end_line,
            chunk_size,
            target_size,
            min_chunk_size,
        ) {
            return SplitResult::Split(line);
        }
        least = find_least_bad(least, candidates.as_slice(), start_line, end_line, chunk_size);
        proof {
            lemma_nested_scope(syntax::tree(*scope), source@, s, e, size, min);
        }
        match find_nested_split_scope(
            scope,
            start_line,
            end_line,
            chunk_size,
            min_chunk_size,
            source,
        ) {
            Some(inner) => {
                scope = inner;
            },
            None => {
                return match least {
                    Some(line) => {
                        let first: usize = estimate_first_size(
                            chunk_size,
                            line,
                            start_line,
                            end_line,
                        );
                        if first < min_chunk_size || chunk_size - first < min_chunk_size {
                            SplitResult::DegradedSplit(line)
                        } else {
                            SplitResult::Split(line)
                        }
                    },
                    None => {
                        let middle: usize = start_line + (end_line - start_line) / 2;
                        if middle > start_line && middle < end_line {
                            SplitResult::Fallback(middle)
                        } else {
                            SplitResult::CannotSplit
                        }
                    },
                };
            },
        }
    }
}

/// A usable boundary is one of the candidates, has two parts of at least `min` bytes,
/// and no other such candidate is closer to the middle, nor an earlier one as close;
/// there is one exactly where some candidate has two such parts.
pub proof fn usable_split_is_closest_to_middle(
    candidates: Seq<int>,
    start: int,
    end: int,
    size: int,
    min: int,
)
    ensures
        match usable_split(candidates, start, end, size, min) {
            None => forall|j: int|
                0 <= j < candidates.len() ==> !viable(
                    size,
                    #[trigger] candidates[j],
                    start,
                    end,
                    min,
                ),
            Some(line) => exists|i: int|
                {
                    &&& 0 <= i < candidates.len()
                    &&& #[trigger] candidates[i] == line
                    &&& viable(size, line, start, end, min)
                    &&& forall|j: int|
                        0 <= j < candidates.len() && viable(
                            size,
                            #[trigger] candidates[j],
                            start,
                            end,
                            min,
                        ) ==> imbalance(size, line, start, end) <= imbalance(
                            size,
                            candidates[j],
                            start,
                            end,
                        )
                    &&& forall|j: int|
                        0 <= j < i && viable(size, #[trigger] candidates[j], start, end, min)
                            ==> imbalance(size, line, start, end) < imbalance(
                            size,
                            candidates[j],
                            start,
                            end,
                        )
                },
        },
    decreases candidates.len(),
{
    if candidates.len() > 0 {
        let shorter = candidates.drop_last();
        let n = candidates.len() as int;
        usable_split_is_closest_to_middle(shorter, start, end, size, min);
        assert forall|j: int| 0 <= j < n - 1 implies #[trigger] candidates[j] == shorter[j] by {}
        assert(forall|j: int| 0 <= j < n - 1 ==> #[trigger] shorter[j] == candidates[j]);
        match usable_split(candidates, start, end, size, min) {
            Some(line) => {
                if usable_split(shorter, start, end, size, min) == Some(line) {
                    let i = choose|i: int|
                        {
                            &&& 0 <= i < shorter.len()
                            &&& #[trigger] shorter[i] == line
                            &&& viable(size, line, start, end, min)
                            &&& forall|j: int|
                                0 <= j < shorter.len() && viable(
                                    size,
                                    #[trigger] shorter[j],
                                    start,
                                    end,
                                    min,
                                ) ==> imbalance(size, line, start, end) <= imbalance(
                                    size,
                                    shorter[j],
                                    start,
                                    end,
                                )
                            &&& forall|j: int|
                                0 <= j < i && viable(size, #[trigger] shorter[j], start, end, min)
                                    ==> imbalance(size, line, start, end) < imbalance(
                                    size,
                                    shorter[j],
                                    start,
                                    end,
                                )
                        };
                    assert(candidates[i] == line);
                } else {
                    assert(candidates[n - 1] == line);
                }
            },
            None => {},
        }
    }
}

proof fn lemma_usable_split_member(
    candidates: Seq<int>,
    start: int,
    end: int,
    size: int,
    min: int,
)
    ensures
        usable_split(candidates, start, end, size, min) matches Some(line) ==> candidates.contains(
            line,
        ) && viable(size, line, start, end, min),
{
    usable_split_is_closest_to_middle(candidates, start, end, size, min);
}

proof fn lemma_least_bad_member(
    best: Option<int>,
    candidates: Seq<int>,
    start: int,
    end: int,
    size: int,
)
    ensures
        best is Some || candidates.len() > 0 <==> least_bad(best, candidates, start, end, size)
            is Some,
        least_bad(best, candidates, start, end, size) matches Some(line) ==> best == Some(line)
            || candidates.contains(line),
    decreases candidates.len(),
{
    if candidates.len() > 0 {
        lemma_least_bad_member(best, candidates.drop_last(), start, end, size);
        assert(candidates.contains(candidates.last()));
        assert forall|x: int| candidates.drop_last().contains(x) implies candidates.contains(x) by {
            let i = choose|i: int|
                0 <= i < candidates.drop_last().len() && candidates.drop_last()[i] == x;
            assert(candidates[i] == x);
        }
    }
}

proof fn lemma_candidates_inside(scope: SyntaxTree, source: Seq<u8>, start: int, end: int)
    ensures
        forall|line: int| #[trigger]
            scope_candidates(scope, source, start, end).contains(line) ==> start <= line < end,
{
    let overlapping = overlapping_children(scope, source, start, end);
    if overlapping.len() >= 2 {
        let lines = overlapping.drop_last().map_values(|child: SyntaxTree| child.last_line());
        let inside = |line: int| start <= line < end;
        broadcast use vstd::seq_lib::group_filter_ensures;

        assert forall|line: int| #[trigger]
            scope_candidates(scope, source, start, end).contains(line) implies start <= line
            < end by {
            let i = choose|i: int|
                0 <= i < lines.filter(inside).len() && lines.filter(inside)[i] == line;
            assert(inside(lines.filter(inside)[i]));
        }
    }
}

/// What the search from a scope inwards gives, whatever scopes are around it.
proof fn lemma_split_from(
    scope: SyntaxTree,
    least: Option<int>,
    source: Seq<u8>,
    start: int,
    end: int,
    size: int,
    min: int,
)
    requires
        least matches Some(line) ==> start <= line < end,
    ensures
        match split_from(scope, least, source, start, end, size, min) {
            SplitOutcome::Split(line) => start <= line < end && viable(size, line, start, end, min),
            SplitOutcome::DegradedSplit(line) => start <= line < end && !viable(
                size,
                line,
                start,
                end,
                min,
            ),
            SplitOutcome::Fallback(line) => start < line < end && least is None
                && scope_candidates(scope, source, start, end).len() == 0 && nested_scope(
                scope,
                source,
                start,
                end,
                size,
                min,
            ) is None,
            SplitOutcome::CannotSplit => end - start < 2 && least is None && scope_candidates(
                scope,
                source,
                start,
                end,
            ).len() == 0,
        },
    decreases weight(scope),
{
    let candidates = scope_candidates(scope, source, start, end);
    lemma_candidates_inside(scope, source, start, end);
    lemma_usable_split_member(candidates, start, end, size, min);
    lemma_least_bad_member(least, candidates, start, end, size);
    lemma_nested_scope(scope, source, start, end, size, min);
    if usable_split(candidates, start, end, size, min) is None {
        let worst = least_bad(least, candidates, start, end, size);
        match nested_scope(scope, source, start, end, size, min) {
            Some(inner) => {
                lemma_split_from(inner, worst, source, start, end, size, min);
            },
            None => {},
        }
    }
}

/// A boundary always leaves a line on both sides. A good boundary has two parts of at
/// least `min` bytes by estimate, a degraded one has not. The middle line is taken only
/// where the syntax tree proposes nothing, neither in the scope around the lines nor
/// further in; and only ranges of at most two lines cannot be divided.
pub proof fn best_split_outcomes(
    root: SyntaxTree,
    source: Seq<u8>,
    start: int,
    end: int,
    size: int,
    min: int,
)
    ensures
        match best_split(root, source, start, end, size, min) {
            SplitOutcome::Split(line) => start <= line < end && viable(size, line, start, end, min),
            SplitOutcome::DegradedSplit(line) => start <= line < end && !viable(
                size,
                line,
                start,
                end,
                min,
            ),
            SplitOutcome::Fallback(line) => {
                let scope = shallowest_scope(root, source, start, end);
                &&& start < line < end
                &&& scope_candidates(scope, source, start, end).len() == 0
                &&& nested_scope(scope, source, start, end, size, min) is None
            },
            SplitOutcome::CannotSplit => end - start < 2,
        },
{
    lemma_split_from(
        shallowest_scope(root, source, start, end),
        None,
        source,
        start,
        end,
        size,
        min,
    );
}

}
