//! What the search for boundaries promises of a syntax tree: next to which nodes a
//! range may be divided, and when it is divided along the syntax.
use crate::partitioner::node_analysis;
use crate::partitioner::split_search;
use crate::partitioner::types::SplitOutcome;
use crate::syntax::SyntaxTree;
use vstd::prelude::*;

verus! {

proof fn lemma_children_prefix(node: SyntaxTree, source: Seq<u8>, j: int, n: int)
    requires
        0 <= j <= n,
    ensures
        node_analysis::meaningful_children(node, j, source).is_prefix_of(
            node_analysis::meaningful_children(node, n, source),
        ),
    decreases n - j,
{
    if j < n {
        lemma_children_prefix(node, source, j, n - 1);
        let shorter = node_analysis::meaningful_children(node, n - 1, source);
        let longer = node_analysis::meaningful_children(node, n, source);
        assert(shorter.is_prefix_of(longer));
        let first = node_analysis::meaningful_children(node, j, source);
        assert(first =~= longer.subrange(0, first.len() as int)) by {
            assert(first =~= shorter.subrange(0, first.len() as int));
        }
    }
}

proof fn lemma_children_contain(node: SyntaxTree, source: Seq<u8>, i: int, n: int)
    requires
        0 <= i < n,
        node_analysis::meaningful(node.children[i], node.children, i, source),
    ensures
        node_analysis::meaningful_children(node, n, source).contains(node.children[i]),
{
    let before = node_analysis::meaningful_children(node, i, source);
    let after = node_analysis::meaningful_children(node, i + 1, source);
    assert(after[before.len() as int] == node.children[i]);
    lemma_children_prefix(node, source, i + 1, n);
    let all = node_analysis::meaningful_children(node, n, source);
    assert(after =~= all.subrange(0, after.len() as int));
    assert(all[before.len() as int] == node.children[i]);
}

/// Two children next to which a range may be divided and that have a line in common
/// with it propose the boundary between them.
proof fn lemma_boundary(
    scope: SyntaxTree,
    source: Seq<u8>,
    start: int,
    end: int,
    i: int,
    j: int,
)
    requires
        0 <= i < j < scope.children.len(),
        node_analysis::meaningful(scope.children[i], scope.children, i, source),
        node_analysis::meaningful(scope.children[j], scope.children, j, source),
        scope.children[i].overlaps(start, end),
        scope.children[j].overlaps(start, end),
        start <= scope.children[i].last_line() < end,
    ensures
        split_search::scope_candidates(scope, source, start, end).contains(
            scope.children[i].last_line(),
        ),
{
    let n = scope.children.len() as int;
    let hit = |child: SyntaxTree| child.overlaps(start, end);
    let before = node_analysis::meaningful_children(scope, j, source);
    let upto = node_analysis::meaningful_children(scope, j + 1, source);
    let all = node_analysis::meaningful_children(scope, n, source);
    let (a, b) = (scope.children[i], scope.children[j]);
    lemma_children_contain(scope, source, i, j);
    lemma_children_prefix(scope, source, j + 1, n);
    let rest = all.skip(upto.len() as int);
    assert(upto == before.push(b));
    assert(upto =~= all.subrange(0, upto.len() as int));
    assert(all =~= upto + rest);
    assert(all =~= before + (seq![b] + rest));
    Seq::filter_distributes_over_add(before, seq![b] + rest, hit);
    Seq::filter_distributes_over_add(seq![b], rest, hit);
    assert(seq![b].filter(hit) =~= seq![b]) by {
        reveal(Seq::filter);
        assert(seq![b].drop_last() =~= Seq::empty());
    }
    let overlapping = split_search::overlapping_children(scope, source, start, end);
    assert(overlapping =~= before.filter(hit) + (seq![b] + rest.filter(hit)));
    let p = choose|p: int| 0 <= p < before.len() && before[p] == a;
    before.lemma_filter_contains(hit, p);
    let q = choose|q: int| 0 <= q < before.filter(hit).len() && before.filter(hit)[q] == a;
    assert(overlapping.drop_last()[q] == a);
    let lines = overlapping.drop_last().map_values(|child: SyntaxTree| child.last_line());
    assert(lines[q] == a.last_line());
    lines.lemma_filter_contains(|line: int| start <= line < end, q);
}

/// A function, class, interface, type alias, enum, export, method, case or element is
/// a boundary whatever its size and whatever comes before it: in every scope, each of
/// them that has a line in common with the range and is followed by another one
/// that has proposes its last line, where lines are left on both sides.
pub proof fn declarations_are_boundaries(
    scope: SyntaxTree,
    source: Seq<u8>,
    start: int,
    end: int,
    i: int,
    j: int,
)
    requires
        0 <= i < j < scope.children.len(),
        forall|k: int|
            k == i || k == j ==> {
                let child = #[trigger] scope.children[k];
                &&& child.kind == "function_declaration"@ || child.kind == "class_declaration"@
                    || child.kind == "interface_declaration"@ || child.kind
                    == "type_alias_declaration"@ || child.kind == "enum_declaration"@ || child.kind
                    == "export_statement"@ || child.kind == "method_definition"@ || child.kind
                    == "switch_case"@ || child.kind == "jsx_element"@
                &&& start <= child.end_row + 1
                &&& child.start_row + 1 <= end
            },
        start <= scope.children[i].end_row + 1 < end,
    ensures
        split_search::scope_candidates(scope, source, start, end).contains(
            scope.children[i].end_row + 1,
        ),
{
    lemma_boundary(scope, source, start, end, i, j);
}

/// The closest of the usable boundaries of a scope, in plain numbers: among the lines
/// that leave an estimated `min` bytes on both sides.
proof fn lemma_closest(scope: SyntaxTree, source: Seq<u8>, start: int, end: int, size: int, min: int)
    requires
        split_search::has_viable_candidate(scope, source, start, end, size, min),
    ensures
        split_search::usable_split(
            split_search::scope_candidates(scope, source, start, end),
            start,
            end,
            size,
            min,
        ) matches Some(line) && split_search::scope_candidates(scope, source, start, end).contains(
            line,
        ) && {
            let first = size * (line - start + 1) / (end - start + 1);
            &&& first >= min
            &&& size - first >= min
            &&& forall|other: int| #[trigger]
                split_search::scope_candidates(scope, source, start, end).contains(other) ==> {
                    let rival = size * (other - start + 1) / (end - start + 1);
                    rival >= min && size - rival >= min ==> {
                        ||| rival - size / 2 >= first - size / 2 && rival - size / 2 >= size / 2
                            - first
                        ||| size / 2 - rival >= first - size / 2 && size / 2 - rival >= size / 2
                            - first
                    }
                }
        },
{
    let candidates = split_search::scope_candidates(scope, source, start, end);
    split_search::usable_split_is_closest_to_middle(candidates, start, end, size, min);
    let line = split_search::usable_split(candidates, start, end, size, min)->0;
    assert forall|other: int| #[trigger] candidates.contains(other) implies {
        let first = size * (line - start + 1) / (end - start + 1);
        let rival = size * (other - start + 1) / (end - start + 1);
        rival >= min && size - rival >= min ==> {
            ||| rival - size / 2 >= first - size / 2 && rival - size / 2 >= size / 2 - first
            ||| size / 2 - rival >= first - size / 2 && size / 2 - rival >= size / 2 - first
        }
    } by {
        let j = choose|j: int| 0 <= j < candidates.len() && candidates[j] == other;
        assert(candidates[j] == other);
    }
}

proof fn lemma_viable(
    scope: SyntaxTree,
    source: Seq<u8>,
    start: int,
    end: int,
    size: int,
    min: int,
    line: int,
)
    requires
        split_search::scope_candidates(scope, source, start, end).contains(line),
        size * (line - start + 1) / (end - start + 1) >= min,
        size - size * (line - start + 1) / (end - start + 1) >= min,
    ensures
        split_search::has_viable_candidate(scope, source, start, end, size, min),
{
    let candidates = split_search::scope_candidates(scope, source, start, end);
    let i = choose|i: int| 0 <= i < candidates.len() && candidates[i] == line;
    assert(split_search::viable(size, candidates[i], start, end, min));
}

/// A file whose range has a boundary between two of its own declarations that leaves
/// the least size on both sides is divided between declarations: at the one of these
/// boundaries whose estimated first part is closest to half of the range. The nodes
/// further in have no say.
pub proof fn files_are_divided_between_declarations(
    root: SyntaxTree,
    source: Seq<u8>,
    start: int,
    end: int,
    size: int,
    min: int,
    line: int,
)
    requires
        root.kind == "program"@,
        split_search::scope_candidates(root, source, start, end).contains(line),
        size * (line - start + 1) / (end - start + 1) >= min,
        size - size * (line - start + 1) / (end - start + 1) >= min,
    ensures
        split_search::best_split(root, source, start, end, size, min) matches SplitOutcome::Split(
            chosen,
        ) && split_search::scope_candidates(root, source, start, end).contains(chosen) && {
            let first = size * (chosen - start + 1) / (end - start + 1);
            let rival = size * (line - start + 1) / (end - start + 1);
            &&& first >= min
            &&& size - first >= min
            &&& {
                ||| rival - size / 2 >= first - size / 2 && rival - size / 2 >= size / 2 - first
                ||| size / 2 - rival >= first - size / 2 && size / 2 - rival >= size / 2 - first
            }
        },
{
    lemma_viable(root, source, start, end, size, min, line);
    lemma_closest(root, source, start, end, size, min);
    assert(split_search::shallowest_scope(root, source, start, end) == root);
}

/// The kinds that these laws name are told apart by their lengths and some letters.
pub(crate) proof fn lemma_kinds()
    ensures
        "program"@.len() == 7,
        "program"@[0] == 'p',
        "program"@[4] == 'r',
        "source_file"@.len() == 11,
        "source_file"@[0] == 's',
        "source_file"@[4] == 'c',
        "source_file"@[7] == 'f',
        "class_body"@.len() == 10,
        "declaration_list"@.len() == 16,
        "declaration_list"@[0] == 'd',
        "declaration_list"@[4] == 'a',
        "declaration_list"@[7] == 't',
        "object_type"@.len() == 11,
        "object_type"@[0] == 'o',
        "object_type"@[4] == 'c',
        "object_type"@[7] == 't',
        "interface_body"@.len() == 14,
        "interface_body"@[0] == 'i',
        "interface_body"@[4] == 'r',
        "interface_body"@[7] == 'c',
        "statement_block"@.len() == 15,
        "statement_block"@[0] == 's',
        "statement_block"@[4] == 'e',
        "statement_block"@[7] == 'n',
        "switch_body"@.len() == 11,
        "switch_body"@[0] == 's',
        "switch_body"@[4] == 'c',
        "switch_body"@[7] == 'b',
        "object"@.len() == 6,
        "jsx_element"@.len() == 11,
        "jsx_element"@[0] == 'j',
        "jsx_element"@[4] == 'e',
        "jsx_element"@[7] == 'm',
        "jsx_fragment"@.len() == 12,
        "jsx_fragment"@[0] == 'j',
        "jsx_fragment"@[4] == 'f',
        "jsx_fragment"@[7] == 'g',
        "export_statement"@.len() == 16,
        "export_statement"@[0] == 'e',
        "export_statement"@[4] == 'r',
        "export_statement"@[7] == 's',
        "class_declaration"@.len() == 17,
        "class_declaration"@[0] == 'c',
        "class_declaration"@[4] == 's',
        "class_declaration"@[7] == 'e',
        "abstract_class_declaration"@.len() == 26,
        "interface_declaration"@.len() == 21,
        "type_alias_declaration"@.len() == 22,
        "enum_declaration"@.len() == 16,
        "enum_declaration"@[0] == 'e',
        "enum_declaration"@[4] == '_',
        "enum_declaration"@[7] == 'c',
        "function_declaration"@.len() == 20,
        "function_declaration"@[0] == 'f',
        "function_declaration"@[4] == 't',
        "function_declaration"@[7] == 'n',
        "generator_function_declaration"@.len() == 30,
        "method_definition"@.len() == 17,
        "method_definition"@[0] == 'm',
        "method_definition"@[4] == 'o',
        "method_definition"@[7] == 'd',
        "arrow_function"@.len() == 14,
        "arrow_function"@[0] == 'a',
        "arrow_function"@[4] == 'w',
        "arrow_function"@[7] == 'u',
        "function_expression"@.len() == 19,
        "function_expression"@[0] == 'f',
        "function_expression"@[4] == 't',
        "function_expression"@[7] == 'n',
        "if_statement"@.len() == 12,
        "if_statement"@[0] == 'i',
        "if_statement"@[4] == 't',
        "if_statement"@[7] == 'e',
        "try_statement"@.len() == 13,
        "try_statement"@[0] == 't',
        "try_statement"@[4] == 's',
        "try_statement"@[7] == 't',
        "catch_clause"@.len() == 12,
        "catch_clause"@[0] == 'c',
        "catch_clause"@[4] == 'h',
        "catch_clause"@[7] == 'l',
        "else_clause"@.len() == 11,
        "else_clause"@[0] == 'e',
        "else_clause"@[4] == '_',
        "else_clause"@[7] == 'a',
        "for_statement"@.len() == 13,
        "for_statement"@[0] == 'f',
        "for_statement"@[4] == 's',
        "for_statement"@[7] == 't',
        "for_in_statement"@.len() == 16,
        "for_in_statement"@[0] == 'f',
        "for_in_statement"@[4] == 'i',
        "for_in_statement"@[7] == 's',
        "for_of_statement"@.len() == 16,
        "for_of_statement"@[0] == 'f',
        "for_of_statement"@[4] == 'o',
        "for_of_statement"@[7] == 's',
        "while_statement"@.len() == 15,
        "while_statement"@[0] == 'w',
        "while_statement"@[4] == 'e',
        "while_statement"@[7] == 't',
        "do_statement"@.len() == 12,
        "do_statement"@[0] == 'd',
        "do_statement"@[4] == 't',
        "do_statement"@[7] == 'e',
        "switch_statement"@.len() == 16,
        "switch_statement"@[0] == 's',
        "switch_statement"@[4] == 'c',
        "switch_statement"@[7] == 's',
        "switch_case"@.len() == 11,
        "switch_case"@[0] == 's',
        "switch_case"@[4] == 'c',
        "switch_case"@[7] == 'c',
        "return_statement"@.len() == 16,
        "return_statement"@[0] == 'r',
        "return_statement"@[4] == 'r',
        "return_statement"@[7] == 's',
        "throw_statement"@.len() == 15,
        "throw_statement"@[0] == 't',
        "throw_statement"@[4] == 'w',
        "throw_statement"@[7] == 't',
        "expression_statement"@.len() == 20,
        "expression_statement"@[0] == 'e',
        "expression_statement"@[4] == 'e',
        "expression_statement"@[7] == 'i',
        "lexical_declaration"@.len() == 19,
        "lexical_declaration"@[0] == 'l',
        "lexical_declaration"@[4] == 'c',
        "lexical_declaration"@[7] == '_',
        "variable_declarator"@.len() == 19,
        "variable_declarator"@[0] == 'v',
        "variable_declarator"@[4] == 'a',
        "variable_declarator"@[7] == 'e',
        "await_expression"@.len() == 16,
        "await_expression"@[0] == 'a',
        "await_expression"@[4] == 't',
        "await_expression"@[7] == 'x',
        "new_expression"@.len() == 14,
        "new_expression"@[0] == 'n',
        "new_expression"@[4] == 'e',
        "new_expression"@[7] == 'r',
        "arguments"@.len() == 9,
        "arguments"@[0] == 'a',
        "arguments"@[4] == 'm',
        "arguments"@[7] == 't',
        "call_expression"@.len() == 15,
        "call_expression"@[0] == 'c',
        "call_expression"@[4] == '_',
        "call_expression"@[7] == 'p',
        "member_expression"@.len() == 17,
        "member_expression"@[0] == 'm',
        "member_expression"@[4] == 'e',
        "member_expression"@[7] == 'e',
        "as_expression"@.len() == 13,
        "as_expression"@[0] == 'a',
        "as_expression"@[4] == 'x',
        "as_expression"@[7] == 'e',
        "pair"@.len() == 4,
        "jsx_expression"@.len() == 14,
        "jsx_expression"@[0] == 'j',
        "jsx_expression"@[4] == 'e',
        "jsx_expression"@[7] == 'r',
        "public_field_definition"@.len() == 23,
        "property_declaration"@.len() == 20,
        "property_declaration"@[0] == 'p',
        "property_declaration"@[4] == 'e',
        "property_declaration"@[7] == 'y',
        "property_signature"@.len() == 18,
        "variable_declaration"@.len() == 20,
        "variable_declaration"@[0] == 'v',
        "variable_declaration"@[4] == 'a',
        "variable_declaration"@[7] == 'e',
        "comment"@.len() == 7,
        "comment"@[0] == 'c',
        "comment"@[4] == 'e',
        "import_statement"@.len() == 16,
        "import_statement"@[0] == 'i',
        "import_statement"@[4] == 'r',
        "import_statement"@[7] == 's',
        "class_heritage"@.len() == 14,
        "class_heritage"@[0] == 'c',
        "class_heritage"@[4] == 's',
        "class_heritage"@[7] == 'e',
        "type_parameters"@.len() == 15,
        "type_parameters"@[0] == 't',
        "type_parameters"@[4] == '_',
        "type_parameters"@[7] == 'r',
        "decorator"@.len() == 9,
        "decorator"@[0] == 'd',
        "decorator"@[4] == 'r',
        "decorator"@[7] == 'o',
{
    reveal_strlit("program");
    reveal_strlit("source_file");
    reveal_strlit("class_body");
    reveal_strlit("declaration_list");
    reveal_strlit("object_type");
    reveal_strlit("interface_body");
    reveal_strlit("statement_block");
    reveal_strlit("switch_body");
    reveal_strlit("object");
    reveal_strlit("jsx_element");
    reveal_strlit("jsx_fragment");
    reveal_strlit("export_statement");
    reveal_strlit("class_declaration");
    reveal_strlit("abstract_class_declaration");
    reveal_strlit("interface_declaration");
    reveal_strlit("type_alias_declaration");
    reveal_strlit("enum_declaration");
    reveal_strlit("function_declaration");
    reveal_strlit("generator_function_declaration");
    reveal_strlit("method_definition");
    reveal_strlit("arrow_function");
    reveal_strlit("function_expression");
    reveal_strlit("if_statement");
    reveal_strlit("try_statement");
    reveal_strlit("catch_clause");
    reveal_strlit("else_clause");
    reveal_strlit("for_statement");
    reveal_strlit("for_in_statement");
    reveal_strlit("for_of_statement");
    reveal_strlit("while_statement");
    reveal_strlit("do_statement");
    reveal_strlit("switch_statement");
    reveal_strlit("switch_case");
    reveal_strlit("return_statement");
    reveal_strlit("throw_statement");
    reveal_strlit("expression_statement");
    reveal_strlit("lexical_declaration");
    reveal_strlit("variable_declarator");
    reveal_strlit("await_expression");
    reveal_strlit("new_expression");
    reveal_strlit("arguments");
    reveal_strlit("call_expression");
    reveal_strlit("member_expression");
    reveal_strlit("as_expression");
    reveal_strlit("pair");
    reveal_strlit("jsx_expression");
    reveal_strlit("public_field_definition");
    reveal_strlit("property_declaration");
    reveal_strlit("property_signature");
    reveal_strlit("variable_declaration");
    reveal_strlit("comment");
    reveal_strlit("import_statement");
    reveal_strlit("class_heritage");
    reveal_strlit("type_parameters");
    reveal_strlit("decorator");
}

/// A node without children has no boundary.
proof fn lemma_leaf(node: SyntaxTree, source: Seq<u8>, start: int, end: int, size: int, min: int)
    requires
        node.children.len() == 0,
    ensures
        split_search::viable_scope(node, source, start, end, size, min) is None,
{
    let hit = |child: SyntaxTree| child.overlaps(start, end);
    assert(node_analysis::meaningful_children(node, 0, source) =~= Seq::empty());
    assert(Seq::<SyntaxTree>::empty().filter(hit).len() == 0) by {
        Seq::<SyntaxTree>::empty().lemma_filter_len(hit);
    }
    assert(split_search::overlapping_children(node, source, start, end).len() == 0);
    assert(split_search::viable_scope_among(node.children, 0, source, start, end, size, min)
        is None);
}

/// The first scope with a viable boundary among the children from `k` on is the one
/// that the child at `at` leads to, when no child before it leads to any.
proof fn lemma_first_scope(
    nodes: Seq<SyntaxTree>,
    k: int,
    at: int,
    source: Seq<u8>,
    start: int,
    end: int,
    size: int,
    min: int,
)
    requires
        0 <= k <= at < nodes.len(),
        split_search::worth_entering(nodes[at], start, end),
        split_search::viable_scope(nodes[at], source, start, end, size, min) is Some,
        forall|i: int|
            k <= i < at && split_search::worth_entering(#[trigger] nodes[i], start, end)
                ==> split_search::viable_scope(nodes[i], source, start, end, size, min) is None,
    ensures
        split_search::viable_scope_among(nodes, k, source, start, end, size, min)
            == split_search::viable_scope(nodes[at], source, start, end, size, min),
    decreases at - k,
{
    if k < at {
        lemma_first_scope(nodes, k + 1, at, source, start, end, size, min);
    }
}

/// What stands before the child at `at` of a node and has a line in common with the
/// range are keywords, names and the like, which have no nodes below them, or
/// decorators, type parameters and what a class extends.
pub open spec fn only_header_before(node: SyntaxTree, at: int, start: int, end: int) -> bool {
    forall|i: int|
        0 <= i < at ==> {
            ||| (#[trigger] node.children[i]).children.len() == 0
            ||| node.children[i].kind == "decorator"@
            ||| node.children[i].kind == "type_parameters"@
            ||| node.children[i].kind == "class_heritage"@
            ||| node.children[i].end_row + 1 < start
            ||| end < node.children[i].start_row + 1
        }
}

/// The way into a node leads on into its child.
proof fn lemma_step(
    node: SyntaxTree,
    at: int,
    source: Seq<u8>,
    start: int,
    end: int,
    size: int,
    min: int,
)
    requires
        0 <= at < node.children.len(),
        only_header_before(node, at, start, end),
        node.overlaps(start, end),
        !split_search::split_scope_kind(node.kind),
        split_search::worth_entering(node.children[at], start, end),
        split_search::viable_scope(node.children[at], source, start, end, size, min) is Some,
    ensures
        split_search::viable_scope(node, source, start, end, size, min)
            == split_search::viable_scope(node.children[at], source, start, end, size, min),
{
    assert forall|i: int|
        0 <= i < at && split_search::worth_entering(
            #[trigger] node.children[i],
            start,
            end,
        ) implies split_search::viable_scope(node.children[i], source, start, end, size, min)
        is None by {
        lemma_kinds();
        if node.children[i].children.len() == 0 {
            lemma_leaf(node.children[i], source, start, end, size, min);
        }
    }
    lemma_first_scope(node.children, 0, at, source, start, end, size, min);
}

/// Comments are no boundaries.
proof fn lemma_comment_divides_nothing(node: SyntaxTree, siblings: Seq<SyntaxTree>, k: int, source: Seq<u8>)
    requires
        node.kind == "comment"@,
    ensures
        !node_analysis::meaningful(node, siblings, k, source),
{
    lemma_kinds();
}

/// Imports are no boundaries.
proof fn lemma_import_divides_nothing(node: SyntaxTree, siblings: Seq<SyntaxTree>, k: int, source: Seq<u8>)
    requires
        node.kind == "import_statement"@,
    ensures
        !node_analysis::meaningful(node, siblings, k, source),
{
    lemma_kinds();
}

/// Single characters are no boundaries.
proof fn lemma_token_divides_nothing(
    node: SyntaxTree,
    siblings: Seq<SyntaxTree>,
    k: int,
    source: Seq<u8>,
)
    requires
        node.kind.len() == 1,
    ensures
        !node_analysis::meaningful(node, siblings, k, source),
{
    lemma_kinds();
}

proof fn lemma_child_at(node: SyntaxTree, n: int, source: Seq<u8>, child: SyntaxTree)
    requires
        0 <= n <= node.children.len(),
        node_analysis::meaningful_children(node, n, source).contains(child),
    ensures
        exists|k: int|
            0 <= k < n && #[trigger] node.children[k] == child && node_analysis::meaningful(
                child,
                node.children,
                k,
                source,
            ),
    decreases n,
{
    let all = node_analysis::meaningful_children(node, n, source);
    let i = choose|i: int| 0 <= i < all.len() && all[i] == child;
    if n > 0 {
        let before = node_analysis::meaningful_children(node, n - 1, source);
        if i < before.len() {
            assert(before[i] == child);
            lemma_child_at(node, n - 1, source, child);
        } else {
            assert(node.children[n - 1] == child);
        }
    }
}

/// A boundary that a scope proposes is the last line of one of its children next to
/// which a range may be divided.
proof fn lemma_candidate_at(scope: SyntaxTree, source: Seq<u8>, start: int, end: int, line: int)
    requires
        split_search::scope_candidates(scope, source, start, end).contains(line),
    ensures
        start <= line < end,
        exists|k: int|
            0 <= k < scope.children.len() && line == (#[trigger] scope.children[k]).end_row + 1
                && node_analysis::meaningful(scope.children[k], scope.children, k, source),
{
    let hit = |child: SyntaxTree| child.overlaps(start, end);
    let inside = |line: int| start <= line < end;
    let n = scope.children.len() as int;
    let all = node_analysis::meaningful_children(scope, n, source);
    let overlapping = split_search::overlapping_children(scope, source, start, end);
    let lines = overlapping.drop_last().map_values(|child: SyntaxTree| child.last_line());
    let kept = lines.filter(inside);
    let i = choose|i: int| 0 <= i < kept.len() && kept[i] == line;
    lines.lemma_filter_pred(inside, i);
    lines.lemma_filter_contains_rev(inside, line);
    let j = choose|j: int| 0 <= j < lines.len() && lines[j] == line;
    let child = overlapping.drop_last()[j];
    assert(overlapping[j] == child);
    all.lemma_filter_contains_rev(hit, child);
    lemma_child_at(scope, n, source, child);
}

/// At most the child at `at` counts, when no other one that has a line in common
/// with the range is a boundary.
proof fn lemma_one_overlapping(
    scope: SyntaxTree,
    source: Seq<u8>,
    start: int,
    end: int,
    at: int,
    n: int,
)
    requires
        0 <= n <= scope.children.len(),
        forall|k: int|
            0 <= k < scope.children.len() && k != at && (#[trigger] scope.children[k]).overlaps(
                start,
                end,
            ) ==> !node_analysis::meaningful(scope.children[k], scope.children, k, source),
    ensures
        node_analysis::meaningful_children(scope, n, source).filter(
            |child: SyntaxTree| child.overlaps(start, end),
        ).len() <= (if at < n {
            1int
        } else {
            0
        }),
    decreases n,
{
    let hit = |child: SyntaxTree| child.overlaps(start, end);
    reveal(Seq::filter);
    if n > 0 {
        lemma_one_overlapping(scope, source, start, end, at, n - 1);
        let before = node_analysis::meaningful_children(scope, n - 1, source);
        let child = scope.children[n - 1];
        let all = node_analysis::meaningful_children(scope, n, source);
        if node_analysis::meaningful(child, scope.children, n - 1, source) {
            assert(all.drop_last() =~= before);
            assert(all.last() == child);
        }
    }
}

/// The preferred child is the only one that can be entered.
proof fn lemma_only_way(nodes: Seq<SyntaxTree>, n: int, at: int, start: int, end: int)
    requires
        0 <= at < nodes.len(),
        0 <= n <= nodes.len(),
        split_search::worth_entering(nodes[at], start, end),
        forall|k: int|
            0 <= k < nodes.len() && k != at ==> !split_search::worth_entering(
                #[trigger] nodes[k],
                start,
                end,
            ),
    ensures
        split_search::preferred_child(nodes, n, start, end) == (if at < n {
            Some(at)
        } else {
            None
        }),
    decreases n,
{
    if n > 0 {
        lemma_only_way(nodes, n - 1, at, start, end);
    }
}

/// A class with methods is divided between them. When all that a range shares with
/// the file, next to comments and imports, is one class, exported or not, and the
/// boundary after some method of it leaves the least size on both sides, the range is
/// divided after a child of the class body, with the least size on both sides, and
/// never in the middle; after a method, where the body holds nothing else but
/// comments and punctuation.
pub proof fn classes_are_divided_between_methods(
    root: SyntaxTree,
    source: Seq<u8>,
    start: int,
    end: int,
    size: int,
    min: int,
    at: int,
    class_at: int,
    class: SyntaxTree,
    body_at: int,
    i: int,
    j: int,
)
    requires
        root.kind == "program"@,
        0 <= at < root.children.len(),
        forall|k: int|
            0 <= k < root.children.len() && k != at ==> {
                let other = #[trigger] root.children[k];
                ||| other.kind == "comment"@
                ||| other.kind == "import_statement"@
                ||| other.end_row + 1 < start
                ||| end < other.start_row + 1
            },
        start <= root.children[at].end_row + 1,
        root.children[at].start_row + 1 <= end,
        ({
            ||| root.children[at] == class
            ||| {
                &&& root.children[at].kind == "export_statement"@
                &&& 0 <= class_at < root.children[at].children.len()
                &&& root.children[at].children[class_at] == class
                &&& only_header_before(root.children[at], class_at, start, end)
            }
        }),
        class.kind == "class_declaration"@,
        start <= class.end_row + 1,
        class.start_row + 1 <= end,
        0 <= body_at < class.children.len(),
        class.children[body_at].kind == "class_body"@,
        only_header_before(class, body_at, start, end),
        start <= class.children[body_at].end_row + 1,
        class.children[body_at].start_row + 1 <= end,
        0 <= i < j < class.children[body_at].children.len(),
        forall|k: int|
            k == i || k == j ==> {
                let child = #[trigger] class.children[body_at].children[k];
                &&& child.kind == "method_definition"@
                &&& start <= child.end_row + 1
                &&& child.start_row + 1 <= end
            },
        ({
            let line = class.children[body_at].children[i].end_row + 1;
            &&& start <= line < end
            &&& size * (line - start + 1) / (end - start + 1) >= min
            &&& size - size * (line - start + 1) / (end - start + 1) >= min
        }),
    ensures
        split_search::best_split(root, source, start, end, size, min) matches SplitOutcome::Split(
            chosen,
        ) && {
            let first = size * (chosen - start + 1) / (end - start + 1);
            let members = class.children[body_at].children;
            &&& first >= min
            &&& size - first >= min
            &&& exists|k: int|
                {
                    &&& 0 <= k < members.len()
                    &&& chosen == (#[trigger] members[k]).end_row + 1
                    &&& (forall|m: int|
                        0 <= m < members.len() ==> (#[trigger] members[m]).kind
                            == "method_definition"@ || members[m].kind == "comment"@
                            || members[m].kind.len() == 1) ==> members[k].kind
                        == "method_definition"@
                }
        },
{
    let body = class.children[body_at];
    let top = root.children[at];
    let line = body.children[i].end_row + 1;
    assert(body.children[i].kind == "method_definition"@);
    assert(body.children[j].kind == "method_definition"@);
    declarations_are_boundaries(body, source, start, end, i, j);
    lemma_viable(body, source, start, end, size, min, line);
    lemma_closest(body, source, start, end, size, min);
    assert(split_search::viable_scope(body, source, start, end, size, min) == Some(body));
    lemma_kinds();
    lemma_step(class, body_at, source, start, end, size, min);
    if top != class {
        lemma_step(top, class_at, source, start, end, size, min);
    }
    assert(split_search::viable_scope(top, source, start, end, size, min) == Some(body));
    let n = root.children.len() as int;
    assert forall|k: int|
        0 <= k < root.children.len() && k != at && (#[trigger] root.children[k]).overlaps(
            start,
            end,
        ) implies !node_analysis::meaningful(root.children[k], root.children, k, source) by {
        if root.children[k].kind == "comment"@ {
            lemma_comment_divides_nothing(root.children[k], root.children, k, source);
        } else {
            lemma_import_divides_nothing(root.children[k], root.children, k, source);
        }
    }
    lemma_one_overlapping(root, source, start, end, at, n);
    lemma_only_way(root.children, n, at, start, end);
    let candidates = split_search::scope_candidates(root, source, start, end);
    assert(candidates.len() == 0);
    assert(split_search::shallowest_scope(root, source, start, end) == root);
    assert(split_search::nested_scope(root, source, start, end, size, min) == Some(body));
    let worst = split_search::least_bad(None, candidates, start, end, size);
    let inner = split_search::split_from(body, worst, source, start, end, size, min);
    assert(split_search::split_from(root, None, source, start, end, size, min) == inner) by {
        split_search::lemma_nested_scope(root, source, start, end, size, min);
    }
    let chosen = inner->Split_0;
    lemma_candidate_at(body, source, start, end, chosen);
    let k = choose|k: int|
        0 <= k < body.children.len() && chosen == (#[trigger] body.children[k]).end_row + 1
            && node_analysis::meaningful(body.children[k], body.children, k, source);
    if body.children[k].kind == "comment"@ {
        lemma_comment_divides_nothing(body.children[k], body.children, k, source);
    } else if body.children[k].kind.len() == 1 {
        lemma_token_divides_nothing(body.children[k], body.children, k, source);
    }
    assert(chosen == body.children[k].end_row + 1);
}

/// Of the kinds with a size, each node counts as a boundary exactly from its size on:
/// fields from 51 bytes, properties of types from 101 and of objects from 201, both
/// with their comments, conditions from 401, loops from 301, and statements from 501.
/// An object property or a statement also counts when it has functions, objects,
/// arrays or elements in it, and a variable when its text begins with a keyword.
pub proof fn other_nodes_need_a_size(
    node: SyntaxTree,
    siblings: Seq<SyntaxTree>,
    k: int,
    source: Seq<u8>,
)
    ensures
        node.kind == "public_field_definition"@ || node.kind == "property_declaration"@ ==> (
        node_analysis::meaningful(node, siblings, k, source) <==> node.end_byte - node.start_byte
            > 50),
        node.kind == "property_signature"@ ==> (node_analysis::meaningful(
            node,
            siblings,
            k,
            source,
        ) <==> node_analysis::effective_size(node, siblings, k, source) > 100),
        node.kind == "pair"@ ==> (node_analysis::meaningful(node, siblings, k, source) <==> (
        node_analysis::effective_size(node, siblings, k, source) > 200
            || node_analysis::complex_pair(node))),
        node.kind == "lexical_declaration"@ || node.kind == "variable_declaration"@ ==> (
        node_analysis::meaningful(node, siblings, k, source) <==> (node_analysis::begins_with(
            node,
            source,
            "const"@,
        ) || node_analysis::begins_with(node, source, "let"@) || node_analysis::begins_with(
            node,
            source,
            "var"@,
        ))),
        node.kind == "expression_statement"@ ==> (node_analysis::meaningful(
            node,
            siblings,
            k,
            source,
        ) <==> (node.end_byte - node.start_byte > 500 || node_analysis::contains_complex(node))),
        node.kind == "if_statement"@ ==> (node_analysis::meaningful(node, siblings, k, source)
            <==> node.end_byte - node.start_byte > 400),
        node.kind == "for_statement"@ || node.kind == "for_in_statement"@ || node.kind
            == "for_of_statement"@ ==> (node_analysis::meaningful(node, siblings, k, source)
            <==> node.end_byte - node.start_byte > 300),
{
    lemma_kinds();
}

/// Only the kinds named here are ever boundaries.
pub proof fn no_other_kinds_divide(
    node: SyntaxTree,
    siblings: Seq<SyntaxTree>,
    k: int,
    source: Seq<u8>,
)
    requires
        node.kind != "function_declaration"@,
        node.kind != "class_declaration"@,
        node.kind != "interface_declaration"@,
        node.kind != "type_alias_declaration"@,
        node.kind != "enum_declaration"@,
        node.kind != "export_statement"@,
        node.kind != "method_definition"@,
        node.kind != "switch_case"@,
        node.kind != "jsx_element"@,
        node.kind != "public_field_definition"@,
        node.kind != "property_declaration"@,
        node.kind != "pair"@,
        node.kind != "property_signature"@,
        node.kind != "lexical_declaration"@,
        node.kind != "variable_declaration"@,
        node.kind != "expression_statement"@,
        node.kind != "if_statement"@,
        node.kind != "for_statement"@,
        node.kind != "for_in_statement"@,
        node.kind != "for_of_statement"@,
    ensures
        !node_analysis::meaningful(node, siblings, k, source),
{
}

/// The node that a path leads to: at each step the child at the next position.
pub open spec fn descendant(node: SyntaxTree, path: Seq<int>) -> Option<SyntaxTree>
    decreases path.len(),
{
    if path.len() == 0 {
        Some(node)
    } else if 0 <= path[0] < node.children.len() {
        descendant(node.children[path[0]], path.skip(1))
    } else {
        None
    }
}

/// The path leads to a function, an object, an array or an element.
pub open spec fn leads_to_complex(node: SyntaxTree, path: Seq<int>) -> bool {
    &&& path.len() > 0
    &&& descendant(node, path) matches Some(found) && (found.kind == "arrow_function"@ || found.kind
        == "function_expression"@ || found.kind == "function_declaration"@ || found.kind
        == "object"@ || found.kind == "array"@ || found.kind == "jsx_element"@ || found.kind
        == "jsx_self_closing_element"@)
}

/// A function, an object, an array or an element is seen at whatever depth it stands
/// below a node; and nothing else is taken for one.
pub proof fn complex_nodes_are_seen_at_any_depth(node: SyntaxTree)
    ensures
        node_analysis::contains_complex(node) <==> exists|path: Seq<int>| #[trigger]
            leads_to_complex(node, path),
    decreases node,
{
    if node_analysis::contains_complex(node) {
        let i = choose|i: int|
            0 <= i < node.children.len() && (node_analysis::complex_kind(
                (#[trigger] node.children[i]).kind,
            ) || node_analysis::contains_complex(node.children[i]));
        if node_analysis::complex_kind(node.children[i].kind) {
            let path = seq![i];
            assert(path.skip(1).len() == 0);
            assert(descendant(node.children[i], path.skip(1)) == Some(node.children[i]));
            assert(leads_to_complex(node, path));
        } else {
            complex_nodes_are_seen_at_any_depth(node.children[i]);
            let rest = choose|rest: Seq<int>| #[trigger] leads_to_complex(node.children[i], rest);
            let path = seq![i] + rest;
            assert(path.skip(1) =~= rest);
            assert(leads_to_complex(node, path));
        }
    }
    assert forall|path: Seq<int>| #[trigger]
        leads_to_complex(node, path) implies node_analysis::contains_complex(node) by {
        let i = path[0];
        let rest = path.skip(1);
        let child = node.children[i];
        if rest.len() > 0 {
            complex_nodes_are_seen_at_any_depth(child);
            assert(leads_to_complex(child, rest));
            assert(node_analysis::contains_complex(child));
        } else {
            assert(descendant(child, rest) == Some(child));
            assert(node_analysis::complex_kind(child.kind));
        }
    }
}

/// The comments right before a node count toward its size: those from position `first`
/// on, when they are comments only, no empty line stands between any of them or
/// before the node, and the run cannot be continued upwards.
pub proof fn comments_count_toward_the_node(
    node: SyntaxTree,
    siblings: Seq<SyntaxTree>,
    k: int,
    source: Seq<u8>,
    first: int,
)
    requires
        0 <= first <= k <= siblings.len(),
        forall|i: int|
            first <= i < k ==> (#[trigger] siblings[i]).kind == "comment"@
                && !node_analysis::blank_line_between(
                source,
                siblings[i].end_byte,
                if i + 1 < k {
                    siblings[i + 1].start_byte
                } else {
                    node.start_byte
                },
            ),
        first > 0 ==> siblings[first - 1].kind != "comment"@ || node_analysis::blank_line_between(
            source,
            siblings[first - 1].end_byte,
            if first < k {
                siblings[first].start_byte
            } else {
                node.start_byte
            },
        ),
    ensures
        node_analysis::effective_size(node, siblings, k, source) == node.end_byte - (if first < k {
            siblings[first].start_byte
        } else {
            node.start_byte
        }),
{
    lemma_attached(siblings, k, node.start_byte, source, first);
}

proof fn lemma_attached(
    siblings: Seq<SyntaxTree>,
    k: int,
    start: int,
    source: Seq<u8>,
    first: int,
)
    requires
        0 <= first <= k <= siblings.len(),
        forall|i: int|
            first <= i < k ==> (#[trigger] siblings[i]).kind == "comment"@
                && !node_analysis::blank_line_between(
                source,
                siblings[i].end_byte,
                if i + 1 < k {
                    siblings[i + 1].start_byte
                } else {
                    start
                },
            ),
        first > 0 ==> siblings[first - 1].kind != "comment"@ || node_analysis::blank_line_between(
            source,
            siblings[first - 1].end_byte,
            if first < k {
                siblings[first].start_byte
            } else {
                start
            },
        ),
    ensures
        node_analysis::attached_start(siblings, k, start, source) == (if first < k {
            siblings[first].start_byte
        } else {
            start
        }),
    decreases k,
{
    if first < k {
        assert(siblings[k - 1].kind == "comment"@);
        lemma_attached(siblings, k - 1, siblings[k - 1].start_byte, source, first);
    }
}

/// The nodes of a path each stand below the one before.
pub open spec fn nested(path: Seq<SyntaxTree>) -> bool {
    forall|i: int|
        0 < i < path.len() ==> path[i - 1].children.contains(#[trigger] path[i])
}

/// A scope proposes a line that leaves an estimated `min` bytes on both sides.
pub open spec fn offers_boundary(
    scope: SyntaxTree,
    source: Seq<u8>,
    start: int,
    end: int,
    size: int,
    min: int,
) -> bool {
    exists|found: int|
        {
            &&& #[trigger] split_search::scope_candidates(scope, source, start, end).contains(found)
            &&& size * (found - start + 1) / (end - start + 1) >= min
            &&& size - size * (found - start + 1) / (end - start + 1) >= min
        }
}

/// A viable boundary is found behind every wrapper: when each node of a path stands
/// below the one before, has a line in common with the range and is of one of these
/// kinds, and the last is a scope with a boundary that leaves the least size on
/// both sides, the search from the first node finds a scope with such a boundary.
pub proof fn boundaries_are_found_behind_wrappers(
    path: Seq<SyntaxTree>,
    source: Seq<u8>,
    start: int,
    end: int,
    size: int,
    min: int,
    line: int,
)
    requires
        path.len() > 0,
        nested(path),
        forall|i: int|
            0 <= i < path.len() ==> start <= (#[trigger] path[i]).end_row + 1 && path[i].start_row
                + 1 <= end,
        forall|i: int|
            0 < i < path.len() ==> {
                let kind = (#[trigger] path[i]).kind;
                ||| kind == "program"@
                ||| kind == "source_file"@
                ||| kind == "class_body"@
                ||| kind == "declaration_list"@
                ||| kind == "object_type"@
                ||| kind == "interface_body"@
                ||| kind == "statement_block"@
                ||| kind == "switch_body"@
                ||| kind == "object"@
                ||| kind == "jsx_element"@
                ||| kind == "jsx_fragment"@
                ||| kind == "export_statement"@
                ||| kind == "class_declaration"@
                ||| kind == "abstract_class_declaration"@
                ||| kind == "interface_declaration"@
                ||| kind == "type_alias_declaration"@
                ||| kind == "enum_declaration"@
                ||| kind == "function_declaration"@
                ||| kind == "generator_function_declaration"@
                ||| kind == "method_definition"@
                ||| kind == "arrow_function"@
                ||| kind == "function_expression"@
                ||| kind == "if_statement"@
                ||| kind == "try_statement"@
                ||| kind == "catch_clause"@
                ||| kind == "else_clause"@
                ||| kind == "for_statement"@
                ||| kind == "for_in_statement"@
                ||| kind == "for_of_statement"@
                ||| kind == "while_statement"@
                ||| kind == "do_statement"@
                ||| kind == "switch_statement"@
                ||| kind == "switch_case"@
                ||| kind == "return_statement"@
                ||| kind == "throw_statement"@
                ||| kind == "expression_statement"@
                ||| kind == "lexical_declaration"@
                ||| kind == "variable_declarator"@
                ||| kind == "await_expression"@
                ||| kind == "new_expression"@
                ||| kind == "arguments"@
                ||| kind == "call_expression"@
                ||| kind == "member_expression"@
                ||| kind == "as_expression"@
                ||| kind == "pair"@
                ||| kind == "jsx_expression"@
            },
        ({
            let kind = path.last().kind;
            ||| kind == "program"@
            ||| kind == "source_file"@
            ||| kind == "class_body"@
            ||| kind == "declaration_list"@
            ||| kind == "object_type"@
            ||| kind == "interface_body"@
            ||| kind == "statement_block"@
            ||| kind == "switch_body"@
            ||| kind == "object"@
            ||| kind == "jsx_element"@
            ||| kind == "jsx_fragment"@
        }),
        split_search::scope_candidates(path.last(), source, start, end).contains(line),
        size * (line - start + 1) / (end - start + 1) >= min,
        size - size * (line - start + 1) / (end - start + 1) >= min,
    ensures
        split_search::viable_scope(path[0], source, start, end, size, min) matches Some(scope)
            && offers_boundary(scope, source, start, end, size, min),
    decreases path.len(),
{
    lemma_found_scope(path[0], source, start, end, size, min);
    if path.len() == 1 {
        lemma_viable(path[0], source, start, end, size, min, line);
    } else {
        let rest = path.skip(1);
        assert(rest.last() == path.last());
        assert forall|i: int| 0 <= i < rest.len() implies #[trigger] rest[i] == path[i + 1] by {}
        assert(nested(rest)) by {
            assert forall|i: int| 0 < i < rest.len() implies rest[i - 1].children.contains(
                #[trigger] rest[i],
            ) by {
                assert(path[i + 1 - 1].children.contains(path[i + 1]));
            }
        }
        boundaries_are_found_behind_wrappers(rest, source, start, end, size, min, line);
        assert(path[1 - 1].children.contains(path[1]));
        let children = path[0].children;
        let at = choose|at: int| 0 <= at < children.len() && children[at] == path[1];
        lemma_some_scope(children, 0, at, source, start, end, size, min);
    }
}

proof fn lemma_some_scope(
    nodes: Seq<SyntaxTree>,
    k: int,
    at: int,
    source: Seq<u8>,
    start: int,
    end: int,
    size: int,
    min: int,
)
    requires
        0 <= k <= at < nodes.len(),
        split_search::worth_entering(nodes[at], start, end),
        split_search::viable_scope(nodes[at], source, start, end, size, min) is Some,
    ensures
        split_search::viable_scope_among(nodes, k, source, start, end, size, min) is Some,
    decreases at - k,
{
    if k < at {
        lemma_some_scope(nodes, k + 1, at, source, start, end, size, min);
    }
}

proof fn lemma_found_scope(
    node: SyntaxTree,
    source: Seq<u8>,
    start: int,
    end: int,
    size: int,
    min: int,
)
    ensures
        split_search::viable_scope(node, source, start, end, size, min) matches Some(scope)
            ==> offers_boundary(scope, source, start, end, size, min),
    decreases node, 0int,
{
    if node.overlaps(start, end) {
        if split_search::split_scope_kind(node.kind) && split_search::has_viable_candidate(
            node,
            source,
            start,
            end,
            size,
            min,
        ) {
            let candidates = split_search::scope_candidates(node, source, start, end);
            let i = choose|i: int|
                0 <= i < candidates.len() && split_search::viable(
                    size,
                    #[trigger] candidates[i],
                    start,
                    end,
                    min,
                );
            let found = candidates[i];
            assert(candidates.contains(found));
            assert(offers_boundary(node, source, start, end, size, min));
        } else {
            lemma_found_among(node.children, 0, source, start, end, size, min);
        }
    }
}

proof fn lemma_found_among(
    nodes: Seq<SyntaxTree>,
    k: int,
    source: Seq<u8>,
    start: int,
    end: int,
    size: int,
    min: int,
)
    requires
        0 <= k,
    ensures
        split_search::viable_scope_among(nodes, k, source, start, end, size, min) matches Some(
            scope,
        ) ==> offers_boundary(scope, source, start, end, size, min),
    decreases nodes, nodes.len() - k,
{
    if k < nodes.len() {
        lemma_found_scope(nodes[k], source, start, end, size, min);
        lemma_found_among(nodes, k + 1, source, start, end, size, min);
    }
}

/// Nothing is found below a node whose children are all of other kinds: strings,
/// arrays, parameters and the like are not looked into.
pub proof fn other_kinds_are_not_entered(
    node: SyntaxTree,
    source: Seq<u8>,
    start: int,
    end: int,
    size: int,
    min: int,
)
    requires
        forall|i: int|
            0 <= i < node.children.len() ==> {
                let kind = (#[trigger] node.children[i]).kind;
                &&& kind != "program"@
                &&& kind != "source_file"@
                &&& kind != "class_body"@
                &&& kind != "declaration_list"@
                &&& kind != "object_type"@
                &&& kind != "interface_body"@
                &&& kind != "statement_block"@
                &&& kind != "switch_body"@
                &&& kind != "object"@
                &&& kind != "jsx_element"@
                &&& kind != "jsx_fragment"@
                &&& kind != "export_statement"@
                &&& kind != "class_declaration"@
                &&& kind != "abstract_class_declaration"@
                &&& kind != "interface_declaration"@
                &&& kind != "type_alias_declaration"@
                &&& kind != "enum_declaration"@
                &&& kind != "function_declaration"@
                &&& kind != "generator_function_declaration"@
                &&& kind != "method_definition"@
                &&& kind != "arrow_function"@
                &&& kind != "function_expression"@
                &&& kind != "if_statement"@
                &&& kind != "try_statement"@
                &&& kind != "catch_clause"@
                &&& kind != "else_clause"@
                &&& kind != "for_statement"@
                &&& kind != "for_in_statement"@
                &&& kind != "for_of_statement"@
                &&& kind != "while_statement"@
                &&& kind != "do_statement"@
                &&& kind != "switch_statement"@
                &&& kind != "switch_case"@
                &&& kind != "return_statement"@
                &&& kind != "throw_statement"@
                &&& kind != "expression_statement"@
                &&& kind != "lexical_declaration"@
                &&& kind != "variable_declarator"@
                &&& kind != "await_expression"@
                &&& kind != "new_expression"@
                &&& kind != "arguments"@
                &&& kind != "call_expression"@
                &&& kind != "member_expression"@
                &&& kind != "as_expression"@
                &&& kind != "pair"@
                &&& kind != "jsx_expression"@
            },
    ensures
        split_search::viable_scope(node, source, start, end, size, min) matches Some(scope)
            ==> scope == node,
{
    lemma_nothing_among(node.children, 0, source, start, end, size, min);
}

proof fn lemma_nothing_among(
    nodes: Seq<SyntaxTree>,
    k: int,
    source: Seq<u8>,
    start: int,
    end: int,
    size: int,
    min: int,
)
    requires
        0 <= k,
        forall|i: int|
            0 <= i < nodes.len() ==> !split_search::worth_entering(#[trigger] nodes[i], start, end),
    ensures
        split_search::viable_scope_among(nodes, k, source, start, end, size, min) is None,
    decreases nodes.len() - k,
{
    if k < nodes.len() {
        lemma_nothing_among(nodes, k + 1, source, start, end, size, min);
    }
}

/// The lines that a node has in common with a range, less one.
pub open spec fn shared(node: SyntaxTree, start: int, end: int) -> int {
    (if node.end_row + 1 < end {
        node.end_row + 1
    } else {
        end
    }) - (if node.start_row + 1 > start {
        node.start_row + 1
    } else {
        start
    })
}

/// Among two children that can be entered and of which both are scopes or neither is
/// one, the search goes on in the one that has more lines in common with the range, and
/// in the first of two that have as many; a scope goes before another node as long as
/// that has not more than a thousand lines more.
pub proof fn widest_child_is_entered(
    nodes: Seq<SyntaxTree>,
    n: int,
    start: int,
    end: int,
    p: int,
    k: int,
)
    requires
        0 <= k < n <= nodes.len(),
        split_search::preferred_child(nodes, n, start, end) == Some(p),
        split_search::worth_entering(nodes[k], start, end),
    ensures
        0 <= p < n,
        split_search::worth_entering(nodes[p], start, end),
        split_search::split_scope_kind(nodes[p].kind) == split_search::split_scope_kind(
            nodes[k].kind,
        ) ==> shared(nodes[p], start, end) >= shared(nodes[k], start, end),
        split_search::split_scope_kind(nodes[p].kind) == split_search::split_scope_kind(
            nodes[k].kind,
        ) && k < p ==> shared(nodes[p], start, end) > shared(nodes[k], start, end),
        split_search::split_scope_kind(nodes[p].kind) && !split_search::split_scope_kind(
            nodes[k].kind,
        ) ==> shared(nodes[p], start, end) + 1000 >= shared(nodes[k], start, end),
        !split_search::split_scope_kind(nodes[p].kind) && split_search::split_scope_kind(
            nodes[k].kind,
        ) ==> shared(nodes[p], start, end) >= shared(nodes[k], start, end) + 1000,
    decreases n,
{
    lemma_score(nodes, n, start, end, p, k);
}

proof fn lemma_score(
    nodes: Seq<SyntaxTree>,
    n: int,
    start: int,
    end: int,
    p: int,
    k: int,
)
    requires
        0 <= k < n <= nodes.len(),
        split_search::worth_entering(nodes[k], start, end),
    ensures
        split_search::preferred_child(nodes, n, start, end) is Some,
        split_search::preferred_child(nodes, n, start, end) == Some(p) ==> {
            &&& 0 <= p < n
            &&& split_search::worth_entering(nodes[p], start, end)
            &&& split_search::descent_score(nodes[p], start, end) >= split_search::descent_score(
                nodes[k],
                start,
                end,
            )
            &&& k < p ==> split_search::descent_score(nodes[p], start, end)
                > split_search::descent_score(nodes[k], start, end)
        },
    decreases n,
{
    let before = split_search::preferred_child(nodes, n - 1, start, end);
    if k < n - 1 {
        lemma_score(nodes, n - 1, start, end, p, k);
        if let Some(b) = before {
            lemma_score(nodes, n - 1, start, end, b, k);
        }
    } else if let Some(b) = before {
        lemma_preferred_in(nodes, n - 1, start, end);
    }
}

proof fn lemma_preferred_in(nodes: Seq<SyntaxTree>, n: int, start: int, end: int)
    requires
        0 <= n <= nodes.len(),
    ensures
        split_search::preferred_child(nodes, n, start, end) matches Some(b) ==> 0 <= b < n
            && split_search::worth_entering(nodes[b], start, end),
    decreases n,
{
    if n > 0 {
        lemma_preferred_in(nodes, n - 1, start, end);
    }
}

/// How far a boundary's estimated first part is from half of the range, and 10000 more
/// where a part has fewer than 500 bytes, else 5000 more where one has fewer than 1000.
pub open spec fn drawback(size: int, line: int, start: int, end: int) -> int {
    let first = size * (line - start + 1) / (end - start + 1);
    let off = if first > size / 2 {
        first - size / 2
    } else {
        size / 2 - first
    };
    if first < 500 || size - first < 500 {
        off + 10000
    } else if first < 1000 || size - first < 1000 {
        off + 5000
    } else {
        off
    }
}

/// A boundary has a smaller drawback than the one that was kept before, if any was, and than all
/// candidates before it.
pub open spec fn first_with_drawback(
    best: Option<int>,
    candidates: Seq<int>,
    start: int,
    end: int,
    size: int,
    i: int,
) -> bool {
    &&& 0 <= i < candidates.len()
    &&& best matches Some(b) ==> drawback(size, candidates[i], start, end) < drawback(
        size,
        b,
        start,
        end,
    )
    &&& forall|j: int|
        0 <= j < i ==> drawback(size, candidates[i], start, end) < drawback(
            size,
            #[trigger] candidates[j],
            start,
            end,
        )
}

/// Of the boundaries that are not good enough the one with the smallest drawback is
/// kept, the earliest of several.
pub proof fn least_bad_boundary_is_kept(
    best: Option<int>,
    candidates: Seq<int>,
    start: int,
    end: int,
    size: int,
)
    ensures
        split_search::least_bad(best, candidates, start, end, size) matches Some(line) ==> {
            &&& best == Some(line) || exists|i: int|
                #[trigger] first_with_drawback(best, candidates, start, end, size, i)
                    && candidates[i] == line
            &&& best matches Some(b) ==> drawback(size, line, start, end) <= drawback(
                size,
                b,
                start,
                end,
            )
            &&& forall|i: int|
                0 <= i < candidates.len() ==> drawback(size, line, start, end) <= drawback(
                    size,
                    #[trigger] candidates[i],
                    start,
                    end,
                )
        },
        split_search::least_bad(best, candidates, start, end, size) is None ==> best is None
            && candidates.len() == 0,
    decreases candidates.len(),
{
    if candidates.len() > 0 {
        let shorter = candidates.drop_last();
        let n = candidates.len() as int;
        least_bad_boundary_is_kept(best, shorter, start, end, size);
        let before = split_search::least_bad(best, shorter, start, end, size);
        let line = split_search::least_bad(best, candidates, start, end, size)->0;
        assert forall|i: int| 0 <= i < n implies drawback(size, line, start, end) <= drawback(
            size,
            #[trigger] candidates[i],
            start,
            end,
        ) by {
            if i < n - 1 {
                assert(shorter[i] == candidates[i]);
            }
        }
        if before == Some(line) {
            if best != Some(line) {
                let i = choose|i: int|
                    #[trigger] first_with_drawback(best, shorter, start, end, size, i)
                        && shorter[i] == line;
                assert forall|j: int| 0 <= j < i implies drawback(
                    size,
                    candidates[i],
                    start,
                    end,
                ) < drawback(size, #[trigger] candidates[j], start, end) by {
                    assert(shorter[j] == candidates[j]);
                }
                assert(first_with_drawback(best, candidates, start, end, size, i));
            }
        } else {
            assert(candidates[n - 1] == line);
            assert forall|j: int| 0 <= j < n - 1 implies drawback(
                size,
                candidates[n - 1],
                start,
                end,
            ) < drawback(size, #[trigger] candidates[j], start, end) by {
                assert(shorter[j] == candidates[j]);
            }
            assert(first_with_drawback(best, candidates, start, end, size, n - 1));
        }
    }
}

/// A range is divided in the middle exactly there.
pub proof fn fallback_is_the_middle_line(
    root: SyntaxTree,
    source: Seq<u8>,
    start: int,
    end: int,
    size: int,
    min: int,
)
    ensures
        split_search::best_split(root, source, start, end, size, min)
            matches SplitOutcome::Fallback(line) ==> line == start + (end - start) / 2,
{
    lemma_middle(
        split_search::shallowest_scope(root, source, start, end),
        None,
        source,
        start,
        end,
        size,
        min,
    );
}

proof fn lemma_middle(
    scope: SyntaxTree,
    least: Option<int>,
    source: Seq<u8>,
    start: int,
    end: int,
    size: int,
    min: int,
)
    ensures
        split_search::split_from(scope, least, source, start, end, size, min)
            matches SplitOutcome::Fallback(line) ==> line == start + (end - start) / 2,
    decreases split_search::weight(scope),
{
    let candidates = split_search::scope_candidates(scope, source, start, end);
    let worst = split_search::least_bad(least, candidates, start, end, size);
    split_search::lemma_nested_scope(scope, source, start, end, size, min);
    if let Some(inner) = split_search::nested_scope(scope, source, start, end, size, min) {
        lemma_middle(inner, worst, source, start, end, size, min);
    }
}

/// A file that proposes boundaries of which none is good enough, and that has nothing further in,
/// is divided at the one with the smallest drawback, and is marked for it; never in the middle.
pub proof fn files_without_good_boundaries(
    root: SyntaxTree,
    source: Seq<u8>,
    start: int,
    end: int,
    size: int,
    min: int,
)
    requires
        root.kind == "program"@,
        split_search::scope_candidates(root, source, start, end).len() > 0,
        forall|line: int| #[trigger]
            split_search::scope_candidates(root, source, start, end).contains(line) ==> size * (line
                - start + 1) / (end - start + 1) < min || size - size * (line - start + 1) / (end
                - start + 1) < min,
        split_search::nested_scope(root, source, start, end, size, min) is None,
    ensures
        split_search::best_split(root, source, start, end, size, min)
            matches SplitOutcome::DegradedSplit(chosen) && split_search::scope_candidates(
            root,
            source,
            start,
            end,
        ).contains(chosen) && forall|line: int| #[trigger]
            split_search::scope_candidates(root, source, start, end).contains(line) ==> drawback(
                size,
                chosen,
                start,
                end,
            ) <= drawback(size, line, start, end),
{
    let candidates = split_search::scope_candidates(root, source, start, end);
    split_search::usable_split_is_closest_to_middle(candidates, start, end, size, min);
    least_bad_boundary_is_kept(None, candidates, start, end, size);
    assert(split_search::shallowest_scope(root, source, start, end) == root);
    let none: Option<int> = None;
    let chosen = split_search::least_bad(none, candidates, start, end, size)->0;
    let i = choose|i: int|
        #[trigger] first_with_drawback(none, candidates, start, end, size, i) && candidates[i]
            == chosen;
    assert(candidates.contains(candidates[i]));
    if let Some(line) = split_search::usable_split(candidates, start, end, size, min) {
        let k = choose|k: int| 0 <= k < candidates.len() && candidates[k] == line;
        assert(candidates.contains(line));
    }
    assert forall|line: int| #[trigger] candidates.contains(line) implies drawback(
        size,
        chosen,
        start,
        end,
    ) <= drawback(size, line, start, end) by {
        let k = choose|k: int| 0 <= k < candidates.len() && candidates[k] == line;
        assert(candidates[k] == line);
    }
}

proof fn lemma_pair_at(
    scope: SyntaxTree,
    source: Seq<u8>,
    start: int,
    end: int,
    n: int,
    p: int,
)
    requires
        0 <= n <= scope.children.len(),
        0 <= p < node_analysis::meaningful_children(scope, n, source).filter(
            |child: SyntaxTree| child.overlaps(start, end),
        ).len() - 1,
    ensures
        exists|i: int, j: int|
            {
                &&& 0 <= i < j < n
                &&& #[trigger] scope.children[i] == node_analysis::meaningful_children(
                    scope,
                    n,
                    source,
                ).filter(|child: SyntaxTree| child.overlaps(start, end))[p]
                &&& scope.children[i].overlaps(start, end)
                &&& (#[trigger] scope.children[j]).overlaps(start, end)
            },
    decreases n,
{
    let hit = |child: SyntaxTree| child.overlaps(start, end);
    reveal(Seq::filter);
    if n > 0 {
        let before = node_analysis::meaningful_children(scope, n - 1, source);
        let all = node_analysis::meaningful_children(scope, n, source);
        let child = scope.children[n - 1];
        let kept = before.filter(hit);
        if node_analysis::meaningful(child, scope.children, n - 1, source) {
            assert(all.drop_last() =~= before);
            assert(all.last() == child);
        }
        if p < kept.len() - 1 {
            lemma_pair_at(scope, source, start, end, n - 1, p);
            let (i, j) = choose|i: int, j: int|
                {
                    &&& 0 <= i < j < n - 1
                    &&& #[trigger] scope.children[i] == kept[p]
                    &&& scope.children[i].overlaps(start, end)
                    &&& (#[trigger] scope.children[j]).overlaps(start, end)
                };
            assert(all.filter(hit)[p] == kept[p]);
            assert(scope.children[i] == kept[p] && scope.children[j].overlaps(start, end));
        } else {
            assert(all.filter(hit) == kept.push(child));
            assert(p == kept.len() - 1);
            before.lemma_filter_pred(hit, p);
            before.lemma_filter_contains_rev(hit, kept[p]);
            lemma_child_at(scope, n - 1, source, kept[p]);
            let i = choose|i: int|
                0 <= i < n - 1 && #[trigger] scope.children[i] == kept[p]
                    && node_analysis::meaningful(kept[p], scope.children, i, source);
            assert(scope.children[n - 1] == child && child.overlaps(start, end));
            assert(scope.children[i] == all.filter(hit)[p]);
        }
    }
}

/// A boundary always stands between two children of the scope that have a line in common with
/// the range: it is the last line of the earlier one, and lies in the range, but not at its end.
pub proof fn boundaries_stand_between_children(
    scope: SyntaxTree,
    source: Seq<u8>,
    start: int,
    end: int,
    line: int,
)
    requires
        split_search::scope_candidates(scope, source, start, end).contains(line),
    ensures
        start <= line < end,
        exists|i: int, j: int|
            {
                &&& 0 <= i < j < scope.children.len()
                &&& line == (#[trigger] scope.children[i]).end_row + 1
                &&& start <= scope.children[i].end_row + 1
                &&& scope.children[i].start_row + 1 <= end
                &&& start <= (#[trigger] scope.children[j]).end_row + 1
                &&& scope.children[j].start_row + 1 <= end
            },
{
    lemma_candidate_at(scope, source, start, end, line);
    let inside = |line: int| start <= line < end;
    let n = scope.children.len() as int;
    let overlapping = split_search::overlapping_children(scope, source, start, end);
    let lines = overlapping.drop_last().map_values(|child: SyntaxTree| child.last_line());
    lines.lemma_filter_contains_rev(inside, line);
    let p = choose|p: int| 0 <= p < lines.len() && lines[p] == line;
    assert(overlapping.drop_last()[p] == overlapping[p]);
    lemma_pair_at(scope, source, start, end, n, p);
    let (i, j) = choose|i: int, j: int|
        {
            &&& 0 <= i < j < n
            &&& #[trigger] scope.children[i] == overlapping[p]
            &&& scope.children[i].overlaps(start, end)
            &&& (#[trigger] scope.children[j]).overlaps(start, end)
        };
    assert(line == scope.children[i].end_row + 1);
    assert(scope.children[j].overlaps(start, end));
}

/// There is an empty line between two places exactly if two line feeds follow each other there, or
/// two pairs of a carriage return and a line feed.
pub proof fn empty_lines_are_two_line_ends(source: Seq<u8>, start: int, end: int)
    requires
        0 <= start <= end <= source.len(),
    ensures
        node_analysis::blank_line_between(source, start, end) <==> exists|i: int|
            start <= i < end && {
                ||| i + 1 < end && #[trigger] source[i] == 10 && source[i + 1] == 10
                ||| i + 3 < end && source[i] == 13 && source[i + 1] == 10 && source[i + 2] == 13
                    && source[i + 3] == 10
            },
{
    let between = node_analysis::source_slice(source, start, end);
    assert forall|i: int| 0 <= i < between.len() implies #[trigger] between[i] == source[start
        + i] by {}
    if node_analysis::blank_line_between(source, start, end) {
        if exists|i: int|
            0 <= i && i + 1 < between.len() && #[trigger] between[i] == 10 && between[i + 1]
                == 10 {
            let i = choose|i: int|
                0 <= i && i + 1 < between.len() && #[trigger] between[i] == 10 && between[i + 1]
                    == 10;
            assert(source[start + i] == 10 && source[start + i + 1] == 10);
        } else {
            let i = choose|i: int|
                0 <= i && i + 3 < between.len() && #[trigger] between[i] == 13 && between[i + 1]
                    == 10 && between[i + 2] == 13 && between[i + 3] == 10;
            assert(source[start + i] == 13 && source[start + i + 1] == 10);
            assert(source[start + i + 2] == 13 && source[start + i + 3] == 10);
        }
    }
    if exists|i: int|
        start <= i < end && {
            ||| i + 1 < end && #[trigger] source[i] == 10 && source[i + 1] == 10
            ||| i + 3 < end && source[i] == 13 && source[i + 1] == 10 && source[i + 2] == 13
                && source[i + 3] == 10
        } {
        let i = choose|i: int|
            start <= i < end && {
                ||| i + 1 < end && #[trigger] source[i] == 10 && source[i + 1] == 10
                ||| i + 3 < end && source[i] == 13 && source[i + 1] == 10 && source[i + 2] == 13
                    && source[i + 3] == 10
            };
        let k = i - start;
        assert(between[k] == source[i]);
        if i + 1 < end {
            assert(between[k + 1] == source[i + 1]);
        }
        if i + 3 < end {
            assert(between[k + 2] == source[i + 2] && between[k + 3] == source[i + 3]);
        }
    }
}

/// A property counts as complex if one of its children is a function, an object, an array or an
/// element, or has one below it and is in parentheses or a cast.
pub proof fn properties_with_complex_values(node: SyntaxTree, i: int)
    requires
        0 <= i < node.children.len(),
    ensures
        ({
            let kind = node.children[i].kind;
            ||| kind == "arrow_function"@
            ||| kind == "function_expression"@
            ||| kind == "function_declaration"@
            ||| kind == "object"@
            ||| kind == "array"@
            ||| kind == "jsx_element"@
            ||| kind == "jsx_self_closing_element"@
            ||| (kind == "parenthesized_expression"@ || kind == "as_expression"@) && exists|
                path: Seq<int>,
            | #[trigger]
                leads_to_complex(node.children[i], path)
        }) ==> node_analysis::complex_pair(node),
{
    complex_nodes_are_seen_at_any_depth(node.children[i]);
    let child = node.children[i];
}

/// A variable is a boundary whose text begins with the letters of `const`, `let` or `var`.
pub proof fn variables_begin_with_a_keyword(
    node: SyntaxTree,
    siblings: Seq<SyntaxTree>,
    k: int,
    source: Seq<u8>,
)
    requires
        node.kind == "lexical_declaration"@ || node.kind == "variable_declaration"@,
        0 <= node.start_byte <= node.end_byte <= source.len(),
    ensures
        ({
            let text = source.subrange(node.start_byte, node.end_byte);
            ||| text.len() >= 5 && text.take(5) == seq![99u8, 111, 110, 115, 116]
            ||| text.len() >= 3 && text.take(3) == seq![108u8, 101, 116]
            ||| text.len() >= 3 && text.take(3) == seq![118u8, 97, 114]
        }) <==> node_analysis::meaningful(node, siblings, k, source),
{
    other_nodes_need_a_size(node, siblings, k, source);
    reveal_strlit("const");
    reveal_strlit("let");
    reveal_strlit("var");
    vstd::utf8::is_ascii_chars_encode_utf8("const"@);
    vstd::utf8::is_ascii_chars_encode_utf8("let"@);
    vstd::utf8::is_ascii_chars_encode_utf8("var"@);
    let text = source.subrange(node.start_byte, node.end_byte);
    let a = vstd::utf8::encode_utf8("const"@);
    let b = vstd::utf8::encode_utf8("let"@);
    let c = vstd::utf8::encode_utf8("var"@);
    assert(a =~= seq![99u8, 111, 110, 115, 116]);
    assert(b =~= seq![108u8, 101, 116]);
    assert(c =~= seq![118u8, 97, 114]);
    assert(text.len() >= 5 ==> text.subrange(0, 5) =~= text.take(5));
    assert(text.len() >= 3 ==> text.subrange(0, 3) =~= text.take(3));
}

/// A file none of whose own boundaries is good enough is divided at one further in, wherever the
/// search there finds a scope: at a boundary of that scope that leaves the least size on both sides.
pub proof fn boundaries_further_in_are_used(
    root: SyntaxTree,
    source: Seq<u8>,
    start: int,
    end: int,
    size: int,
    min: int,
)
    requires
        root.kind == "program"@,
        forall|line: int| #[trigger]
            split_search::scope_candidates(root, source, start, end).contains(line) ==> size * (line
                - start + 1) / (end - start + 1) < min || size - size * (line - start + 1) / (end
                - start + 1) < min,
        split_search::nested_scope(root, source, start, end, size, min) is Some,
    ensures
        ({
            let inner = split_search::nested_scope(root, source, start, end, size, min)->0;
            split_search::best_split(root, source, start, end, size, min) matches SplitOutcome::Split(
                line,
            ) && split_search::scope_candidates(inner, source, start, end).contains(line) && size
                * (line - start + 1) / (end - start + 1) >= min && size - size * (line - start + 1)
                / (end - start + 1) >= min
        }),
{
    let inner = split_search::nested_scope(root, source, start, end, size, min)->0;
    let own = split_search::scope_candidates(root, source, start, end);
    let further = split_search::scope_candidates(inner, source, start, end);
    split_search::usable_split_is_closest_to_middle(own, start, end, size, min);
    split_search::usable_split_is_closest_to_middle(further, start, end, size, min);
    assert(split_search::shallowest_scope(root, source, start, end) == root);
    if let Some(line) = split_search::usable_split(own, start, end, size, min) {
        assert(own.contains(line));
    }
    let none: Option<int> = None;
    let worst = split_search::least_bad(none, own, start, end, size);
    let at = split_search::preferred_child(
        root.children,
        root.children.len() as int,
        start,
        end,
    )->0;
    lemma_found_scope(root.children[at], source, start, end, size, min);
    assert(offers_boundary(inner, source, start, end, size, min));
    split_search::lemma_nested_scope(root, source, start, end, size, min);
    assert(split_search::split_from(root, none, source, start, end, size, min)
        == split_search::split_from(inner, worst, source, start, end, size, min));
    let line = split_search::usable_split(further, start, end, size, min)->0;
    assert(further.contains(line));
}

/// A node is no scope but leads to scopes, and its child at a position is the first that covers the
/// range.
pub open spec fn leads_down(
    node: SyntaxTree,
    at: int,
    child: SyntaxTree,
    start: int,
    end: int,
) -> bool {
    &&& split_search::conduit_kind(node.kind)
    &&& !split_search::split_scope_kind(node.kind)
    &&& 0 <= at < node.children.len()
    &&& node.children[at] == child
    &&& forall|k: int|
        0 <= k < at ==> !((#[trigger] node.children[k]).start_row + 1 <= start && end
            <= node.children[k].end_row + 1)
}

/// The search for the scope around a range goes through wrappers that cover it: where each node of
/// a path covers the range, is the first child of the one before to do so, and is no scope but one
/// of those that lead to scopes, and the last is a scope, the search from the first ends at the last.
pub proof fn scopes_are_found_below_wrappers(
    path: Seq<SyntaxTree>,
    positions: Seq<int>,
    source: Seq<u8>,
    start: int,
    end: int,
)
    requires
        path.len() > 0,
        positions.len() == path.len() - 1,
        forall|i: int|
            0 <= i < path.len() ==> (#[trigger] path[i]).start_row + 1 <= start && end
                <= path[i].end_row + 1,
        forall|i: int|
            0 <= i < positions.len() ==> leads_down(
                path[i],
                #[trigger] positions[i],
                path[i + 1],
                start,
                end,
            ),
        split_search::split_scope_kind(path.last().kind),
    ensures
        split_search::shallowest_scope(path[0], source, start, end) == path.last(),
    decreases path.len(),
{
    if path.len() > 1 {
        let rest = path.skip(1);
        let behind = positions.skip(1);
        assert(rest.last() == path.last());
        assert forall|i: int| 0 <= i < rest.len() implies (#[trigger] rest[i]).start_row + 1
            <= start && end <= rest[i].end_row + 1 by {
            assert(rest[i] == path[i + 1]);
        }
        assert forall|i: int| 0 <= i < behind.len() implies leads_down(
            rest[i],
            #[trigger] behind[i],
            rest[i + 1],
            start,
            end,
        ) by {
            assert(behind[i] == positions[i + 1]);
            assert(rest[i] == path[i + 1] && rest[i + 1] == path[i + 2]);
        }
        scopes_are_found_below_wrappers(rest, behind, source, start, end);
        let at = positions[0];
        assert(leads_down(path[0], at, path[1], start, end));
        lemma_first_spanning_at(path[0].children, 0, at, start, end);
        assert(rest[0] == path[1]);
        split_search::lemma_way_down(path[0], source, start, end);
    }
}

proof fn lemma_first_spanning_at(
    nodes: Seq<SyntaxTree>,
    k: int,
    at: int,
    start: int,
    end: int,
)
    requires
        0 <= k <= at < nodes.len(),
        nodes[at].spans(start, end),
        forall|i: int| 0 <= i < at ==> !(#[trigger] nodes[i]).spans(start, end),
    ensures
        split_search::first_spanning(nodes, k, start, end) == Some(at),
    decreases at - k,
{
    if k < at {
        lemma_first_spanning_at(nodes, k + 1, at, start, end);
    }
}

}
