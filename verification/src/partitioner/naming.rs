//! What chunks of code are called: the type and the name of the declaration around them.
use crate::partitioner::boundaries;
use crate::partitioner::node_analysis;
use crate::syntax::SyntaxTree;
use crate::text;
use vstd::prelude::*;

verus! {

/// The type of a chunk tells what declares it; methods count as functions, and what is
/// no declaration is code.
pub proof fn declarations_have_their_type(node: SyntaxTree)
    ensures
        node.kind == "function_declaration"@ ==> node_analysis::chunk_type(node) == "function"@,
        node.kind == "class_declaration"@ ==> node_analysis::chunk_type(node) == "class"@,
        node.kind == "interface_declaration"@ ==> node_analysis::chunk_type(node) == "interface"@,
        node.kind == "type_alias_declaration"@ ==> node_analysis::chunk_type(node) == "type"@,
        node.kind == "enum_declaration"@ ==> node_analysis::chunk_type(node) == "enum"@,
        node.kind == "lexical_declaration"@ ==> node_analysis::chunk_type(node) == "variable"@,
        node.kind == "variable_declaration"@ ==> node_analysis::chunk_type(node) == "variable"@,
        node.kind == "method_definition"@ ==> node_analysis::chunk_type(node) == "function"@,
        node.kind == "public_field_definition"@ ==> node_analysis::chunk_type(node) == "field"@,
        node.kind == "property_declaration"@ ==> node_analysis::chunk_type(node) == "field"@,
        node.kind == "switch_case"@ ==> node_analysis::chunk_type(node) == "code"@,
        node.kind == "jsx_element"@ ==> node_analysis::chunk_type(node) == "code"@,
        node.kind == "pair"@ ==> node_analysis::chunk_type(node) == "code"@,
        node.kind == "property_signature"@ ==> node_analysis::chunk_type(node) == "code"@,
        node.kind == "expression_statement"@ ==> node_analysis::chunk_type(node) == "code"@,
        node.kind == "if_statement"@ ==> node_analysis::chunk_type(node) == "code"@,
        node.kind == "for_statement"@ ==> node_analysis::chunk_type(node) == "code"@,
        node.kind == "for_in_statement"@ ==> node_analysis::chunk_type(node) == "code"@,
        node.kind == "for_of_statement"@ ==> node_analysis::chunk_type(node) == "code"@,
{
    boundaries::lemma_kinds();
}

/// An export has the type of the first declaration among its children, and is code without
/// one.
pub proof fn exports_have_the_type_of_their_declaration(node: SyntaxTree, k: int)
    requires
        node.kind == "export_statement"@,
        0 <= k <= node.children.len(),
        forall|i: int|
            0 <= i < k ==> {
                let kind = (#[trigger] node.children[i]).kind;
                &&& kind != "function_declaration"@
                &&& kind != "class_declaration"@
                &&& kind != "interface_declaration"@
                &&& kind != "type_alias_declaration"@
                &&& kind != "enum_declaration"@
                &&& kind != "lexical_declaration"@
                &&& kind != "variable_declaration"@
            },
    ensures
        k == node.children.len() ==> node_analysis::chunk_type(node) == "code"@,
        k < node.children.len() ==> {
            let kind = node.children[k].kind;
            &&& kind == "function_declaration"@ ==> node_analysis::chunk_type(node) == "function"@
            &&& kind == "class_declaration"@ ==> node_analysis::chunk_type(node) == "class"@
            &&& kind == "interface_declaration"@ ==> node_analysis::chunk_type(node) == "interface"@
            &&& kind == "type_alias_declaration"@ ==> node_analysis::chunk_type(node) == "type"@
            &&& kind == "enum_declaration"@ ==> node_analysis::chunk_type(node) == "enum"@
            &&& kind == "lexical_declaration"@ ==> node_analysis::chunk_type(node) == "variable"@
            &&& kind == "variable_declaration"@ ==> node_analysis::chunk_type(node) == "variable"@
        },
{
    boundaries::lemma_kinds();
    lemma_exported_type(node.children, 0, k);
}

proof fn lemma_exported_type(children: Seq<SyntaxTree>, i: int, k: int)
    requires
        0 <= i <= k <= children.len(),
        forall|j: int|
            i <= j < k ==> node_analysis::declared_type((#[trigger] children[j]).kind) is None,
    ensures
        node_analysis::exported_type(children, i) == node_analysis::exported_type(children, k),
    decreases k - i,
{
    if i < k {
        lemma_exported_type(children, i + 1, k);
    }
}

/// A node is called by the first identifier among its children, and has no name without one.
pub proof fn declarations_are_called_by_their_identifier(
    node: SyntaxTree,
    source: Seq<u8>,
    k: int,
)
    requires
        node.kind != "export_statement"@,
        0 <= k <= node.children.len(),
        forall|i: int|
            0 <= i < k ==> (#[trigger] node.children[i]).kind != "identifier"@
                && node.children[i].kind != "property_identifier"@ && node.children[i].kind
                != "type_identifier"@,
    ensures
        k == node.children.len() ==> node_analysis::symbol_name(node, source) is None,
        k < node.children.len() && (node.children[k].kind == "identifier"@ || node.children[k].kind
            == "property_identifier"@ || node.children[k].kind == "type_identifier"@) && 0
            <= node.children[k].start_byte <= node.children[k].end_byte <= source.len()
            ==> node_analysis::symbol_name(node, source) == Some(
            text::lossy_utf8(
                source.subrange(node.children[k].start_byte, node.children[k].end_byte),
            ),
        ),
{
    lemma_first_identifier(node.children, source, 0, k);
}

proof fn lemma_first_identifier(children: Seq<SyntaxTree>, source: Seq<u8>, i: int, k: int)
    requires
        0 <= i <= k <= children.len(),
        forall|j: int|
            i <= j < k ==> (#[trigger] children[j]).kind != "identifier"@ && children[j].kind
                != "property_identifier"@ && children[j].kind != "type_identifier"@,
    ensures
        node_analysis::first_identifier(children, i, source) == node_analysis::first_identifier(
            children,
            k,
            source,
        ),
    decreases k - i,
{
    if i < k {
        lemma_first_identifier(children, source, i + 1, k);
    }
}

/// An export is called as the first of its children that has a name.
pub proof fn exports_are_called_as_what_they_export(node: SyntaxTree, source: Seq<u8>, k: int)
    requires
        node.kind == "export_statement"@,
        0 <= k < node.children.len(),
        node_analysis::symbol_name(node.children[k], source) is Some,
        forall|i: int|
            0 <= i < k ==> node_analysis::symbol_name(#[trigger] node.children[i], source) is None,
    ensures
        node_analysis::symbol_name(node, source) == node_analysis::symbol_name(
            node.children[k],
            source,
        ),
{
    lemma_exported_symbol(node.children, source, 0, k);
}

proof fn lemma_exported_symbol(children: Seq<SyntaxTree>, source: Seq<u8>, i: int, k: int)
    requires
        0 <= i <= k < children.len(),
        node_analysis::symbol_name(children[k], source) is Some,
        forall|j: int|
            i <= j < k ==> node_analysis::symbol_name(#[trigger] children[j], source) is None,
    ensures
        node_analysis::exported_symbol(children, i, source) == node_analysis::symbol_name(
            children[k],
            source,
        ),
    decreases k - i,
{
    if i < k {
        lemma_exported_symbol(children, source, i + 1, k);
    }
}

/// All nodes on a path down from a node cover the lines from `start` to `end`.
pub open spec fn covered(node: SyntaxTree, path: Seq<int>, start: int, end: int) -> bool
    decreases path.len(),
{
    &&& node.start_row + 1 <= start
    &&& end <= node.end_row + 1
    &&& path.len() > 0 ==> 0 <= path[0] < node.children.len() && covered(
        node.children[path[0]],
        path.skip(1),
        start,
        end,
    )
}

/// A chunk is called after no declaration that is wider than another one around its lines:
/// whatever function, class, interface, type, enum, export, method, case or element covers
/// the lines, at any depth, the node that gives the name covers them too and has no more rows.
pub proof fn chunks_are_called_after_the_narrowest_declaration(
    root: SyntaxTree,
    source: Seq<u8>,
    start: int,
    end: int,
    path: Seq<int>,
)
    requires
        covered(root, path, start, end),
        boundaries::descendant(root, path) matches Some(found) && (found.kind
            == "function_declaration"@ || found.kind == "class_declaration"@ || found.kind
            == "interface_declaration"@ || found.kind == "type_alias_declaration"@ || found.kind
            == "enum_declaration"@ || found.kind == "export_statement"@ || found.kind
            == "method_definition"@ || found.kind == "switch_case"@ || found.kind
            == "jsx_element"@),
    ensures
        node_analysis::naming_node(root, source, start, end) matches Some(chosen) && {
            let found = boundaries::descendant(root, path)->0;
            &&& chosen.start_row + 1 <= start
            &&& end <= chosen.end_row + 1
            &&& chosen.end_row - chosen.start_row <= found.end_row - found.start_row
            &&& node_analysis::chunk_metadata(root, source, start, end) == (
                node_analysis::chunk_type(chosen),
                node_analysis::symbol_name(chosen, source),
            )
        },
{
    let all = node_analysis::enclosing(root, Seq::empty(), 0, source, start, end);
    let found = boundaries::descendant(root, path)->0;
    lemma_enclosing_has(root, Seq::empty(), 0, source, start, end, path);
    let i = choose|i: int| 0 <= i < all.len() && all[i] == found;
    lemma_narrowed(all, i);
    let chosen = node_analysis::narrowed(None, all)->0;
    let j = choose|j: int| 0 <= j < all.len() && all[j] == chosen;
    lemma_enclosing_covers(root, Seq::empty(), 0, source, start, end, j);
}

proof fn lemma_enclosing_has(
    node: SyntaxTree,
    siblings: Seq<SyntaxTree>,
    k: int,
    source: Seq<u8>,
    start: int,
    end: int,
    path: Seq<int>,
)
    requires
        covered(node, path, start, end),
        boundaries::descendant(node, path) matches Some(found)
            && node_analysis::declaration_kind(found.kind),
    ensures
        node_analysis::enclosing(node, siblings, k, source, start, end).contains(
            boundaries::descendant(node, path)->0,
        ),
    decreases path.len(),
{
    let all = node_analysis::enclosing(node, siblings, k, source, start, end);
    let n = node.children.len() as int;
    if path.len() == 0 {
        assert(all[0] == node);
    } else {
        let child = node.children[path[0]];
        let found = boundaries::descendant(node, path)->0;
        lemma_enclosing_has(child, node.children, path[0], source, start, end, path.skip(1));
        lemma_among_has(node.children, n, path[0], source, start, end, found);
        let below = node_analysis::enclosing_among(node.children, n, source, start, end);
        let i = choose|i: int| 0 <= i < below.len() && below[i] == found;
        assert(all[all.len() - below.len() + i] == found);
    }
}

proof fn lemma_among_has(
    siblings: Seq<SyntaxTree>,
    n: int,
    k: int,
    source: Seq<u8>,
    start: int,
    end: int,
    found: SyntaxTree,
)
    requires
        0 <= k < n <= siblings.len(),
        node_analysis::enclosing(siblings[k], siblings, k, source, start, end).contains(found),
    ensures
        node_analysis::enclosing_among(siblings, n, source, start, end).contains(found),
    decreases n,
{
    let all = node_analysis::enclosing_among(siblings, n, source, start, end);
    let before = node_analysis::enclosing_among(siblings, n - 1, source, start, end);
    let last = node_analysis::enclosing(siblings[n - 1], siblings, n - 1, source, start, end);
    if k < n - 1 {
        lemma_among_has(siblings, n - 1, k, source, start, end, found);
        let i = choose|i: int| 0 <= i < before.len() && before[i] == found;
        assert(all[i] == found);
    } else {
        let i = choose|i: int| 0 <= i < last.len() && last[i] == found;
        assert(all[before.len() + i] == found);
    }
}

proof fn lemma_enclosing_covers(
    node: SyntaxTree,
    siblings: Seq<SyntaxTree>,
    k: int,
    source: Seq<u8>,
    start: int,
    end: int,
    i: int,
)
    requires
        0 <= i < node_analysis::enclosing(node, siblings, k, source, start, end).len(),
    ensures
        node_analysis::enclosing(node, siblings, k, source, start, end)[i].spans(start, end),
    decreases node, 0int,
{
    let all = node_analysis::enclosing(node, siblings, k, source, start, end);
    let n = node.children.len() as int;
    let below = node_analysis::enclosing_among(node.children, n, source, start, end);
    let front = all.len() - below.len();
    if i >= front {
        lemma_among_covers(node.children, n, source, start, end, i - front);
        assert(all[i] == below[i - front]);
    }
}

proof fn lemma_among_covers(
    siblings: Seq<SyntaxTree>,
    n: int,
    source: Seq<u8>,
    start: int,
    end: int,
    i: int,
)
    requires
        0 <= i < node_analysis::enclosing_among(siblings, n, source, start, end).len(),
    ensures
        node_analysis::enclosing_among(siblings, n, source, start, end)[i].spans(start, end),
    decreases siblings, n,
{
    let before = node_analysis::enclosing_among(siblings, n - 1, source, start, end);
    if i < before.len() {
        lemma_among_covers(siblings, n - 1, source, start, end, i);
    } else {
        lemma_enclosing_covers(
            siblings[n - 1],
            siblings,
            n - 1,
            source,
            start,
            end,
            i - before.len(),
        );
    }
}

proof fn lemma_narrowed(nodes: Seq<SyntaxTree>, i: int)
    requires
        0 <= i < nodes.len(),
    ensures
        node_analysis::narrowed(None, nodes) matches Some(chosen) && nodes.contains(chosen)
            && chosen.end_row - chosen.start_row <= nodes[i].end_row - nodes[i].start_row,
    decreases nodes.len(),
{
    let shorter = nodes.drop_last();
    assert(nodes.contains(nodes.last()));
    if shorter.len() > 0 {
        lemma_narrowed(
            shorter,
            if i < shorter.len() {
                i
            } else {
                0
            },
        );
        let before = node_analysis::narrowed(None, shorter)->0;
        let j = choose|j: int| 0 <= j < shorter.len() && shorter[j] == before;
        assert(nodes[j] == before);
        if i < shorter.len() {
            assert(shorter[i] == nodes[i]);
        }
    } else {
        assert(node_analysis::narrowed(None, shorter) is None);
    }
}

/// Lines that lie in one declaration of a file, and in no node below it, are called after
/// that declaration.
pub proof fn lines_of_a_declaration_are_called_after_it(
    root: SyntaxTree,
    source: Seq<u8>,
    start: int,
    end: int,
    at: int,
)
    requires
        root.kind == "program"@,
        root.start_row + 1 <= start,
        end <= root.end_row + 1,
        0 <= at < root.children.len(),
        root.children[at].start_row + 1 <= start,
        end <= root.children[at].end_row + 1,
        ({
            let kind = root.children[at].kind;
            ||| kind == "function_declaration"@
            ||| kind == "class_declaration"@
            ||| kind == "interface_declaration"@
            ||| kind == "type_alias_declaration"@
            ||| kind == "enum_declaration"@
            ||| kind == "export_statement"@
        }),
        forall|i: int|
            0 <= i < root.children.len() && i != at ==> start < (
            #[trigger] root.children[i]).start_row + 1 || root.children[i].end_row + 1 < end,
        forall|i: int|
            0 <= i < root.children[at].children.len() ==> start < (
            #[trigger] root.children[at].children[i]).start_row + 1
                || root.children[at].children[i].end_row + 1 < end,
    ensures
        node_analysis::chunk_metadata(root, source, start, end) == (
            node_analysis::chunk_type(root.children[at]),
            node_analysis::symbol_name(root.children[at], source),
        ),
{
    let node = root.children[at];
    boundaries::lemma_kinds();
    lemma_none_among(node.children, node.children.len() as int, source, start, end);
    let own = node_analysis::enclosing(node, root.children, at, source, start, end);
    assert(own =~= seq![node]);
    lemma_one_among(root.children, root.children.len() as int, at, source, start, end);
    let all = node_analysis::enclosing(root, Seq::empty(), 0, source, start, end);
    assert(all =~= seq![node]);
    assert(all.drop_last() =~= Seq::empty());
    assert(node_analysis::narrowed(None, all.drop_last()) is None);
}

proof fn lemma_none_among(siblings: Seq<SyntaxTree>, n: int, source: Seq<u8>, start: int, end: int)
    requires
        0 <= n <= siblings.len(),
        forall|i: int| 0 <= i < siblings.len() ==> !(#[trigger] siblings[i]).spans(start, end),
    ensures
        node_analysis::enclosing_among(siblings, n, source, start, end) == Seq::<
            SyntaxTree,
        >::empty(),
    decreases n,
{
    if n > 0 {
        lemma_none_among(siblings, n - 1, source, start, end);
        assert(!siblings[n - 1].spans(start, end));
        let before = node_analysis::enclosing_among(siblings, n - 1, source, start, end);
        let last = node_analysis::enclosing(siblings[n - 1], siblings, n - 1, source, start, end);
        assert(last =~= Seq::empty());
        assert(before + last =~= Seq::empty());
    }
}

proof fn lemma_one_among(
    siblings: Seq<SyntaxTree>,
    n: int,
    at: int,
    source: Seq<u8>,
    start: int,
    end: int,
)
    requires
        0 <= n <= siblings.len(),
        0 <= at < siblings.len(),
        forall|i: int|
            0 <= i < siblings.len() && i != at ==> !(#[trigger] siblings[i]).spans(start, end),
    ensures
        node_analysis::enclosing_among(siblings, n, source, start, end) == if at < n {
            node_analysis::enclosing(siblings[at], siblings, at, source, start, end)
        } else {
            Seq::empty()
        },
    decreases n,
{
    if n > 0 {
        lemma_one_among(siblings, n - 1, at, source, start, end);
        let before = node_analysis::enclosing_among(siblings, n - 1, source, start, end);
        let last = node_analysis::enclosing(siblings[n - 1], siblings, n - 1, source, start, end);
        if at != n - 1 {
            assert(!siblings[n - 1].spans(start, end));
            assert(before + last =~= before);
        } else {
            assert(before + last =~= last);
        }
    }
}

/// The imports of a file end with the first run of import statements: that of the children
/// from `first` to `last`, when none before it is one and none follows directly.
pub proof fn imports_end_with_their_first_run(children: Seq<SyntaxTree>, first: int, last: int)
    requires
        0 <= first <= last < children.len(),
        forall|i: int| 0 <= i < first ==> (#[trigger] children[i]).kind != "import_statement"@,
        forall|i: int|
            first <= i <= last ==> (#[trigger] children[i]).kind == "import_statement"@
                && children[i].end_row >= 0,
        last + 1 < children.len() ==> children[last + 1].kind != "import_statement"@,
    ensures
        node_analysis::imports_end(children, 0, 0) == children[last].end_row + 1,
{
    lemma_before_imports(children, 0, first);
    assert(children[first].kind == "import_statement"@);
    lemma_in_imports(children, first + 1, last, children[first].last_line());
}

/// A file without import statements has no lines of imports.
pub proof fn files_without_imports(children: Seq<SyntaxTree>)
    requires
        forall|i: int|
            0 <= i < children.len() ==> (#[trigger] children[i]).kind != "import_statement"@,
    ensures
        node_analysis::imports_end(children, 0, 0) == 0,
{
    lemma_before_imports(children, 0, children.len() as int);
}

proof fn lemma_before_imports(children: Seq<SyntaxTree>, k: int, first: int)
    requires
        0 <= k <= first <= children.len(),
        forall|i: int| k <= i < first ==> (#[trigger] children[i]).kind != "import_statement"@,
    ensures
        node_analysis::imports_end(children, k, 0) == node_analysis::imports_end(
            children,
            first,
            0,
        ),
    decreases first - k,
{
    if k < first {
        lemma_before_imports(children, k + 1, first);
    }
}

proof fn lemma_in_imports(children: Seq<SyntaxTree>, k: int, last: int, line: int)
    requires
        0 < k <= last + 1 <= children.len(),
        forall|i: int|
            k - 1 <= i <= last ==> (#[trigger] children[i]).kind == "import_statement"@
                && children[i].end_row >= 0,
        last + 1 < children.len() ==> children[last + 1].kind != "import_statement"@,
        line == children[k - 1].last_line(),
    ensures
        node_analysis::imports_end(children, k, line) == children[last].end_row + 1,
    decreases last + 1 - k,
{
    assert(children[k - 1].end_row >= 0);
    if k <= last {
        assert(children[k].kind == "import_statement"@);
        lemma_in_imports(children, k + 1, last, children[k].last_line());
    }
}

/// Among nodes with the same number of rows the first one gives the name: an export goes before
/// what it exports.
pub proof fn first_of_the_narrowest_gives_the_name(nodes: Seq<SyntaxTree>)
    requires
        nodes.len() > 0,
    ensures
        node_analysis::narrowed(None, nodes) matches Some(chosen) && exists|p: int|
            {
                &&& 0 <= p < nodes.len()
                &&& #[trigger] nodes[p] == chosen
                &&& forall|i: int|
                    0 <= i < p ==> chosen.end_row - chosen.start_row < (
                    #[trigger] nodes[i]).end_row - nodes[i].start_row
                &&& forall|i: int|
                    0 <= i < nodes.len() ==> chosen.end_row - chosen.start_row <= (
                    #[trigger] nodes[i]).end_row - nodes[i].start_row
            },
    decreases nodes.len(),
{
    let shorter = nodes.drop_last();
    let n = nodes.len() as int;
    if shorter.len() > 0 {
        first_of_the_narrowest_gives_the_name(shorter);
        let before = node_analysis::narrowed(None, shorter)->0;
        let p = choose|p: int|
            {
                &&& 0 <= p < shorter.len()
                &&& #[trigger] shorter[p] == before
                &&& forall|i: int|
                    0 <= i < p ==> before.end_row - before.start_row < (
                    #[trigger] shorter[i]).end_row - shorter[i].start_row
                &&& forall|i: int|
                    0 <= i < shorter.len() ==> before.end_row - before.start_row <= (
                    #[trigger] shorter[i]).end_row - shorter[i].start_row
            };
        assert forall|i: int| 0 <= i < n - 1 implies #[trigger] nodes[i] == shorter[i] by {}
        if before.end_row - before.start_row <= nodes.last().end_row - nodes.last().start_row {
            assert(nodes[p] == before);
        } else {
            assert(nodes[n - 1] == nodes.last());
        }
    } else {
        assert(node_analysis::narrowed(None, shorter) is None);
        assert(nodes[0] == nodes.last());
    }
}

}
