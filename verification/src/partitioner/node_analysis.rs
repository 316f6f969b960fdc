//! What a syntax node contributes to the partition: whether a range may be divided
//! next to it, and what a chunk inside it is called.
use crate::syntax;
use crate::syntax::SyntaxNode;
use crate::syntax::SyntaxTree;
use crate::text;
use vstd::prelude::*;
use vstd::utf8::encode_utf8;

verus! {

/// Functions, objects, arrays and JSX elements.
pub open spec fn complex_kind(kind: Seq<char>) -> bool {
    ||| kind == "arrow_function"@
    ||| kind == "function_expression"@
    ||| kind == "function_declaration"@
    ||| kind == "object"@
    ||| kind == "array"@
    ||| kind == "jsx_element"@
    ||| kind == "jsx_self_closing_element"@
}

/// Some node below is a function, an object, an array or a JSX element.
pub open spec fn contains_complex(node: SyntaxTree) -> bool
    decreases node,
{
    exists|i: int|
        0 <= i < node.children.len() && (complex_kind((#[trigger] node.children[i]).kind)
            || contains_complex(node.children[i]))
}

/// A property whose value is complex, directly or below parentheses or a cast.
pub open spec fn complex_pair(node: SyntaxTree) -> bool {
    exists|i: int|
        {
            let child = #[trigger] node.children[i];
            &&& 0 <= i < node.children.len()
            &&& {
                ||| complex_kind(child.kind)
                ||| (child.kind == "parenthesized_expression"@ || child.kind == "as_expression"@)
                    && contains_complex(child)
            }
        }
}

/// The bytes from `start` to `end`, or none where these are no range of the source.
pub open spec fn source_slice(source: Seq<u8>, start: int, end: int) -> Seq<u8> {
    if 0 <= start <= end <= source.len() {
        source.subrange(start, end)
    } else {
        Seq::empty()
    }
}

/// There is an empty line between two positions of the source.
pub open spec fn blank_line_between(source: Seq<u8>, start: int, end: int) -> bool {
    let between = source_slice(source, start, end);
    ||| exists|i: int|
        0 <= i && i + 1 < between.len() && #[trigger] between[i] == 10 && between[i + 1] == 10
    ||| exists|i: int|
        0 <= i && i + 3 < between.len() && #[trigger] between[i] == 13 && between[i + 1] == 10
            && between[i + 2] == 13 && between[i + 3] == 10
}

/// Where a node begins that starts at `start` and follows the first `k` siblings,
/// when the comments right before it, with no empty line between, belong to it.
pub open spec fn attached_start(
    siblings: Seq<SyntaxTree>,
    k: int,
    start: int,
    source: Seq<u8>,
) -> int
    decreases k,
{
    if k <= 0 {
        start
    } else {
        let previous = siblings[k - 1];
        if previous.kind == "comment"@ && !blank_line_between(source, previous.end_byte, start) {
            attached_start(siblings, k - 1, previous.start_byte, source)
        } else {
            start
        }
    }
}

/// Bytes of a node together with the comments that belong to it.
pub open spec fn effective_size(
    node: SyntaxTree,
    siblings: Seq<SyntaxTree>,
    k: int,
    source: Seq<u8>,
) -> int {
    node.end_byte - attached_start(siblings, k, node.start_byte, source)
}

/// The text of a node begins with the given word.
pub open spec fn begins_with(node: SyntaxTree, source: Seq<u8>, word: Seq<char>) -> bool {
    encode_utf8(word).is_prefix_of(source_slice(source, node.start_byte, node.end_byte))
}

/// Kinds next to which a range may always be divided.
pub open spec fn declaration_kind(kind: Seq<char>) -> bool {
    ||| kind == "function_declaration"@
    ||| kind == "class_declaration"@
    ||| kind == "interface_declaration"@
    ||| kind == "type_alias_declaration"@
    ||| kind == "enum_declaration"@
    ||| kind == "export_statement"@
    ||| kind == "method_definition"@
    ||| kind == "switch_case"@
    ||| kind == "jsx_element"@
}

/// A range may be divided next to `node`, which follows the first `k` siblings.
pub open spec fn meaningful(
    node: SyntaxTree,
    siblings: Seq<SyntaxTree>,
    k: int,
    source: Seq<u8>,
) -> bool {
    let kind = node.kind;
    if declaration_kind(kind) {
        true
    } else if kind == "public_field_definition"@ || kind == "property_declaration"@ {
        node.size() > 50
    } else if kind == "pair"@ {
        effective_size(node, siblings, k, source) > 200 || complex_pair(node)
    } else if kind == "property_signature"@ {
        effective_size(node, siblings, k, source) > 100
    } else if kind == "lexical_declaration"@ || kind == "variable_declaration"@ {
        begins_with(node, source, "const"@) || begins_with(node, source, "let"@) || begins_with(
            node,
            source,
            "var"@,
        )
    } else if kind == "expression_statement"@ {
        node.size() > 500 || contains_complex(node)
    } else if kind == "if_statement"@ {
        node.size() > 400
    } else if kind == "for_statement"@ || kind == "for_in_statement"@ || kind
        == "for_of_statement"@ {
        node.size() > 300
    } else {
        false
    }
}

fn is_complex_kind(node: &SyntaxNode) -> (r: bool)
    ensures
        r == complex_kind(syntax::tree(*node).kind),
{
    node.is_kind("arrow_function") || node.is_kind("function_expression") || node.is_kind(
        "function_declaration",
    ) || node.is_kind("object") || node.is_kind("array") || node.is_kind("jsx_element")
        || node.is_kind("jsx_self_closing_element")
}

/// Whether some node below is a function, an object, an array or a JSX element.
pub fn node_contains_complex_structure(node: &SyntaxNode) -> (r: bool)
    ensures
        r == contains_complex(syntax::tree(*node)),
    decreases node,
{
    let n: usize = node.children.len();
    for i in 0..n
        invariant
            n == node.children@.len(),
            forall|j: int|
                0 <= j < i ==> {
                    let child = #[trigger] syntax::tree(*node).children[j];
                    !complex_kind(child.kind) && !contains_complex(child)
                },
    {
        let child = &node.children[i];
        assert(syntax::tree(*node).children[i as int] == syntax::tree(*child));
        if is_complex_kind(child) || node_contains_complex_structure(child) {
            return true;
        }
    }
    false
}

/// Whether the value of a property is complex.
pub fn pair_has_complex_value(pair_node: &SyntaxNode) -> (r: bool)
    ensures
        r == complex_pair(syntax::tree(*pair_node)),
{
    let n: usize = pair_node.children.len();
    for i in 0..n
        invariant
            n == pair_node.children@.len(),
            forall|j: int|
                0 <= j < i ==> {
                    let child = #[trigger] syntax::tree(*pair_node).children[j];
                    &&& !complex_kind(child.kind)
                    &&& !((child.kind == "parenthesized_expression"@ || child.kind
                        == "as_expression"@) && contains_complex(child))
                },
    {
        let child = &pair_node.children[i];
        assert(syntax::tree(*pair_node).children[i as int] == syntax::tree(*child));
        if is_complex_kind(child) {
            return true;
        }
        if (child.is_kind("parenthesized_expression") || child.is_kind("as_expression"))
            && node_contains_complex_structure(child) {
            return true;
        }
    }
    false
}

/// The bytes from `start` to `end`, or none where these are no range of the source.
fn slice_source(source: &[u8], start: u32, end: u32) -> (r: &[u8])
    ensures
        r@ == source_slice(source@, start as int, end as int),
{
    let n: usize = source.len();
    if start <= end && end as u64 <= n as u64 {
        vstd::slice::slice_subrange(source, start as usize, end as usize)
    } else {
        vstd::slice::slice_subrange(source, 0, 0)
    }
}

/// Whether there is an empty line between two positions of the source.
fn has_blank_line(source: &[u8], start: u32, end: u32) -> (r: bool)
    ensures
        r == blank_line_between(source@, start as int, end as int),
{
    let between = slice_source(source, start, end);
    let n: usize = between.len();
    for i in 0..n
        invariant
            n == between@.len(),
            between@ == source_slice(source@, start as int, end as int),
            forall|j: int| 0 <= j < i && j + 1 < n ==> !(#[trigger] between@[j] == 10 && between@[j
                + 1] == 10),
            forall|j: int|
                0 <= j < i && j + 3 < n ==> !(#[trigger] between@[j] == 13 && between@[j + 1] == 10
                    && between@[j + 2] == 13 && between@[j + 3] == 10),
    {
        if n - i > 1 && between[i] == 10 && between[i + 1] == 10 {
            return true;
        }
        if n - i > 3 && between[i] == 13 && between[i + 1] == 10 && between[i + 2] == 13
            && between[i + 3] == 10 {
            return true;
        }
    }
    false
}

/// Bytes of a node together with the comments that belong to it; the node follows
/// the first `k` of its siblings.
pub fn effective_size_with_comments(
    node: &SyntaxNode,
    siblings: &Vec<SyntaxNode>,
    k: usize,
    source: &[u8],
) -> (r: i64)
    requires
        k <= siblings@.len(),
    ensures
        r == effective_size(
            syntax::tree(*node),
            syntax::trees(siblings@),
            k as int,
            source@,
        ),
{
    let mut start: u32 = node.start_byte;
    let mut i: usize = k;
    while i > 0 && siblings[i - 1].is_kind("comment") && !has_blank_line(
        source,
        siblings[i - 1].end_byte,
        start,
    )
        invariant
            i <= k <= siblings@.len(),
            attached_start(syntax::trees(siblings@), i as int, start as int, source@)
                == attached_start(
                syntax::trees(siblings@),
                k as int,
                syntax::tree(*node).start_byte,
                source@,
            ),
        decreases i,
    {
        start = siblings[i - 1].start_byte;
        i = i - 1;
    }
    node.end_byte as i64 - start as i64
}

/// Whether the text of a node begins with the given word.
fn node_begins_with(node: &SyntaxNode, source: &[u8], word: &str) -> (r: bool)
    ensures
        r == begins_with(syntax::tree(*node), source@, word@),
{
    let body = slice_source(source, node.start_byte, node.end_byte);
    let prefix = word.as_bytes();
    let n: usize = prefix.len();
    if n > body.len() {
        return false;
    }
    for i in 0..n
        invariant
            n == prefix@.len() <= body@.len(),
            prefix@ == encode_utf8(word@),
            body@ == source_slice(
                source@,
                syntax::tree(*node).start_byte,
                syntax::tree(*node).end_byte,
            ),
            forall|j: int| 0 <= j < i ==> prefix@[j] == body@[j],
    {
        if prefix[i] != body[i] {
            assert(prefix@[i as int] != body@.subrange(0, n as int)[i as int]);
            return false;
        }
    }
    assert(prefix@ =~= body@.subrange(0, n as int));
    true
}

/// Whether a range may be divided next to `node`, which follows the first `k` of
/// its siblings: next to declarations always, next to other nodes where they are
/// large enough or have functions or objects in them.
pub fn is_meaningful_split_point(
    node: &SyntaxNode,
    siblings: &Vec<SyntaxNode>,
    k: usize,
    source: &[u8],
) -> (r: bool)
    requires
        k <= siblings@.len(),
    ensures
        r == meaningful(syntax::tree(*node), syntax::trees(siblings@), k as int, source@),
{
    if node.is_kind("function_declaration") || node.is_kind("class_declaration") || node.is_kind(
        "interface_declaration",
    ) || node.is_kind("type_alias_declaration") || node.is_kind("enum_declaration")
        || node.is_kind("export_statement") || node.is_kind("method_definition") || node.is_kind(
        "switch_case",
    ) || node.is_kind("jsx_element") {
        true
    } else if node.is_kind("public_field_definition") || node.is_kind("property_declaration") {
        node.size() > 50
    } else if node.is_kind("pair") {
        effective_size_with_comments(node, siblings, k, source) > 200 || pair_has_complex_value(
            node,
        )
    } else if node.is_kind("property_signature") {
        effective_size_with_comments(node, siblings, k, source) > 100
    } else if node.is_kind("lexical_declaration") || node.is_kind("variable_declaration") {
        node_begins_with(node, source, "const") || node_begins_with(node, source, "let")
            || node_begins_with(node, source, "var")
    } else if node.is_kind("expression_statement") {
        node.size() > 500 || node_contains_complex_structure(node)
    } else if node.is_kind("if_statement") {
        node.size() > 400
    } else if node.is_kind("for_statement") || node.is_kind("for_in_statement") || node.is_kind(
        "for_of_statement",
    ) {
        node.size() > 300
    } else {
        false
    }
}

/// The children of a node next to which a range may be divided, among its first `n`.
pub open spec fn meaningful_children(node: SyntaxTree, n: int, source: Seq<u8>) -> Seq<SyntaxTree>
    decreases n,
{
    if n <= 0 {
        Seq::empty()
    } else {
        let before = meaningful_children(node, n - 1, source);
        let child = node.children[n - 1];
        if meaningful(child, node.children, n - 1, source) {
            before.push(child)
        } else {
            before
        }
    }
}

/// The trees of a list of borrowed nodes.
pub open spec fn borrowed_trees(nodes: Seq<&SyntaxNode>) -> Seq<SyntaxTree> {
    nodes.map_values(|n: &SyntaxNode| syntax::tree(*n))
}

/// The children of a node next to which a range may be divided, in order.
pub fn get_meaningful_children<'a>(node: &'a SyntaxNode, source: &[u8]) -> (r: Vec<&'a SyntaxNode>)
    ensures
        borrowed_trees(r@) == meaningful_children(
            syntax::tree(*node),
            node.children@.len() as int,
            source@,
        ),
        forall|i: int| 0 <= i < r@.len() ==> exists|k: int|
            0 <= k < node.children@.len() && *(#[trigger] r@[i]) == node.children@[k],
{
    let mut out: Vec<&'a SyntaxNode> = Vec::new();
    let n: usize = node.children.len();
    for k in 0..n
        invariant
            n == node.children@.len(),
            borrowed_trees(out@) == meaningful_children(syntax::tree(*node), k as int, source@),
            forall|i: int| 0 <= i < out@.len() ==> exists|k: int|
                0 <= k < node.children@.len() && *(#[trigger] out@[i]) == node.children@[k],
    {
        let child = &node.children[k];
        assert(syntax::tree(*node).children[k as int] == syntax::tree(*child));
        if is_meaningful_split_point(child, &node.children, k, source) {
            assert(borrowed_trees(out@.push(child)) =~= borrowed_trees(out@).push(
                syntax::tree(*child),
            ));
            out.push(child);
        }
    }
    out
}

/// Last line of the first run of imports among the children from `k` on; `last` is
/// the last import's line so far, zero before the first.
pub open spec fn imports_end(children: Seq<SyntaxTree>, k: int, last: int) -> int
    decreases children.len() - k,
{
    if k >= children.len() {
        last
    } else if children[k].kind == "import_statement"@ {
        imports_end(children, k + 1, children[k].last_line())
    } else if last > 0 {
        last
    } else {
        imports_end(children, k + 1, last)
    }
}

/// The last line of the first run of import statements, or zero without imports.
pub fn extract_imports_end_line(root: &SyntaxNode) -> (r: u64)
    ensures
        r == imports_end(syntax::tree(*root).children, 0, 0),
{
    let n: usize = root.children.len();
    let mut last: u64 = 0;
    for k in 0..n
        invariant
            n == root.children@.len(),
            imports_end(syntax::tree(*root).children, k as int, last as int) == imports_end(
                syntax::tree(*root).children,
                0,
                0,
            ),
    {
        let child = &root.children[k];
        assert(syntax::tree(*root).children[k as int] == syntax::tree(*child));
        if child.is_kind("import_statement") {
            last = child.last_line();
        } else if last > 0 {
            return last;
        }
    }
    last
}

/// The text of the lines from `start` to `end`, counted from one; lines past the
/// end of the file are left out, and a range that begins outside it is empty.
pub open spec fn lines_text(lines: Seq<Seq<char>>, start: int, end: int) -> Seq<char> {
    if start > end || start <= 0 || start > lines.len() {
        Seq::empty()
    } else {
        let last = if end <= lines.len() {
            end
        } else {
            lines.len() as int
        };
        text::join(lines.subrange(start - 1, last), seq!['\n'])
    }
}

/// The text of a range of lines (see [`lines_text`]).
pub fn get_lines_text(lines: &Vec<String>, start_line: usize, end_line: usize) -> (r: String)
    ensures
        r@ == lines_text(text::views(lines@), start_line as int, end_line as int),
{
    let n: usize = lines.len();
    if start_line > end_line || start_line == 0 || start_line > n {
        return String::new();
    }
    let end: usize = if end_line < n {
        end_line
    } else {
        n
    };
    text::join_lines(lines, start_line - 1, end)
}

/// The nodes next to which a range may be divided and that cover all lines from
/// `start` to `end`, in pre-order; only nodes that cover the lines are descended into.
pub open spec fn enclosing(
    node: SyntaxTree,
    siblings: Seq<SyntaxTree>,
    k: int,
    source: Seq<u8>,
    start: int,
    end: int,
) -> Seq<SyntaxTree>
    decreases node, 0int,
{
    if !node.spans(start, end) {
        Seq::empty()
    } else {
        let this = if meaningful(node, siblings, k, source) {
            seq![node]
        } else {
            Seq::empty()
        };
        this + enclosing_among(
            node.children,
            node.children.len() as int,
            source,
            start,
            end,
        )
    }
}

/// The nodes of [`enclosing`] at or below the first `n` of the given siblings.
pub open spec fn enclosing_among(
    siblings: Seq<SyntaxTree>,
    n: int,
    source: Seq<u8>,
    start: int,
    end: int,
) -> Seq<SyntaxTree>
    decreases siblings, n,
{
    if n <= 0 || n > siblings.len() {
        Seq::empty()
    } else {
        enclosing_among(siblings, n - 1, source, start, end) + enclosing(
            siblings[n - 1],
            siblings,
            n - 1,
            source,
            start,
            end,
        )
    }
}

/// Rows between the first and the last row of a node.
pub open spec fn row_span(node: SyntaxTree) -> int {
    node.end_row - node.start_row
}

/// The first of `best` and then the nodes that no other one is smaller than, in rows.
pub open spec fn narrowed(best: Option<SyntaxTree>, nodes: Seq<SyntaxTree>) -> Option<SyntaxTree>
    decreases nodes.len(),
{
    if nodes.len() == 0 {
        best
    } else {
        match narrowed(best, nodes.drop_last()) {
            Some(b) if row_span(b) <= row_span(nodes.last()) => Some(b),
            _ => Some(nodes.last()),
        }
    }
}

proof fn lemma_narrowed_concat(
    best: Option<SyntaxTree>,
    a: Seq<SyntaxTree>,
    b: Seq<SyntaxTree>,
)
    ensures
        narrowed(best, a + b) == narrowed(narrowed(best, a), b),
    decreases b.len(),
{
    if b.len() == 0 {
        assert(a + b =~= a);
    } else {
        lemma_narrowed_concat(best, a, b.drop_last());
        assert((a + b).drop_last() =~= a + b.drop_last());
    }
}

/// The tree of a borrowed node, if there is one.
pub open spec fn tree_opt(node: Option<&SyntaxNode>) -> Option<SyntaxTree> {
    match node {
        Some(n) => Some(syntax::tree(*n)),
        None => None,
    }
}

/// Searches the node and what is below it for the smallest node around the lines
/// from `chunk_start` to `chunk_end`; `best` is what was found before.
pub fn find_best_node<'a>(
    node: &'a SyntaxNode,
    siblings: &Vec<SyntaxNode>,
    k: usize,
    source: &[u8],
    chunk_start: usize,
    chunk_end: usize,
    best: Option<&'a SyntaxNode>,
) -> (r: Option<&'a SyntaxNode>)
    requires
        k <= siblings@.len(),
    ensures
        tree_opt(r) == narrowed(
            tree_opt(best),
            enclosing(
                syntax::tree(*node),
                syntax::trees(siblings@),
                k as int,
                source@,
                chunk_start as int,
                chunk_end as int,
            ),
        ),
    decreases node,
{
    let ghost t = syntax::tree(*node);
    let ghost s = chunk_start as int;
    let ghost e = chunk_end as int;
    if !node.spans(chunk_start, chunk_end) {
        return best;
    }
    let mut found: Option<&'a SyntaxNode> = best;
    let ghost this: Seq<SyntaxTree> = if meaningful(t, syntax::trees(siblings@), k as int, source@) {
        seq![t]
    } else {
        Seq::empty()
    };
    if is_meaningful_split_point(node, siblings, k, source) {
        let smaller = match best {
            Some(b) => node.end_row as i64 - (node.start_row as i64) < b.end_row as i64
                - b.start_row as i64,
            None => true,
        };
        if smaller {
            found = Some(node);
        }
        assert(this.drop_last() =~= Seq::<SyntaxTree>::empty());
    }
    let n: usize = node.children.len();
    let mut i: usize = 0;
    proof {
        reveal_with_fuel(narrowed, 2);
        assert(this + enclosing_among(t.children, 0, source@, s, e) =~= this);
    }
    while i < n
        invariant
            i <= n == node.children@.len(),
            t == syntax::tree(*node),
            s == chunk_start as int,
            e == chunk_end as int,
            tree_opt(found) == narrowed(
                tree_opt(best),
                this + enclosing_among(t.children, i as int, source@, s, e),
            ),
        decreases n - i,
    {
        let child = &node.children[i];
        assert(t.children[i as int] == syntax::tree(*child));
        proof {
            let done = this + enclosing_among(t.children, i as int, source@, s, e);
            let more = enclosing(t.children[i as int], t.children, i as int, source@, s, e);
            assert(this + enclosing_among(t.children, i + 1, source@, s, e) =~= done + more);
            lemma_narrowed_concat(tree_opt(best), done, more);
        }
        found = find_best_node(
            child,
            &node.children,
            i,
            source,
            chunk_start,
            chunk_end,
            found,
        );
        i = i + 1;
    }
    found
}

/// The type of a chunk that a declaration of the given kind makes.
pub open spec fn declared_type(kind: Seq<char>) -> Option<Seq<char>> {
    if kind == "function_declaration"@ {
        Some("function"@)
    } else if kind == "class_declaration"@ {
        Some("class"@)
    } else if kind == "interface_declaration"@ {
        Some("interface"@)
    } else if kind == "type_alias_declaration"@ {
        Some("type"@)
    } else if kind == "enum_declaration"@ {
        Some("enum"@)
    } else if kind == "lexical_declaration"@ || kind == "variable_declaration"@ {
        Some("variable"@)
    } else {
        None
    }
}

/// The type that the first declaration among the children from `k` on makes.
pub open spec fn exported_type(children: Seq<SyntaxTree>, k: int) -> Seq<char>
    decreases children.len() - k,
{
    if k >= children.len() {
        "code"@
    } else {
        match declared_type(children[k].kind) {
            Some(name) => name,
            None => exported_type(children, k + 1),
        }
    }
}

/// The chunk type that a node stands for.
pub open spec fn chunk_type(node: SyntaxTree) -> Seq<char> {
    if node.kind == "export_statement"@ {
        exported_type(node.children, 0)
    } else if node.kind == "method_definition"@ {
        "function"@
    } else if node.kind == "public_field_definition"@ || node.kind == "property_declaration"@ {
        "field"@
    } else {
        match declared_type(node.kind) {
            Some(name) => name,
            None => "code"@,
        }
    }
}

/// The name that an identifier carries.
pub open spec fn identifier_text(node: SyntaxTree, source: Seq<u8>) -> Seq<char> {
    text::lossy_utf8(source_slice(source, node.start_byte, node.end_byte))
}

/// The text of the first identifier among the nodes from `k` on.
pub open spec fn first_identifier(
    children: Seq<SyntaxTree>,
    k: int,
    source: Seq<u8>,
) -> Option<Seq<char>>
    decreases children.len() - k,
{
    if k >= children.len() {
        None
    } else if children[k].kind == "identifier"@ || children[k].kind == "property_identifier"@
        || children[k].kind == "type_identifier"@ {
        Some(identifier_text(children[k], source))
    } else {
        first_identifier(children, k + 1, source)
    }
}

/// The name that a node declares; an export declares what it exports.
pub open spec fn symbol_name(node: SyntaxTree, source: Seq<u8>) -> Option<Seq<char>>
    decreases node, 0int,
{
    if node.kind == "export_statement"@ {
        exported_symbol(node.children, 0, source)
    } else {
        first_identifier(node.children, 0, source)
    }
}

/// The first name that one of the nodes from `k` on declares.
pub open spec fn exported_symbol(
    children: Seq<SyntaxTree>,
    k: int,
    source: Seq<u8>,
) -> Option<Seq<char>>
    decreases children, children.len() - k,
{
    if k < 0 || k >= children.len() {
        None
    } else {
        match symbol_name(children[k], source) {
            Some(name) => Some(name),
            None => exported_symbol(children, k + 1, source),
        }
    }
}

/// The type that a declaration of the given kind makes.
fn declared_type_of(node: &SyntaxNode) -> (r: Option<&'static str>)
    ensures
        r is Some <==> declared_type(syntax::tree(*node).kind) is Some,
        r matches Some(name) ==> declared_type(syntax::tree(*node).kind) == Some(name@),
{
    if node.is_kind("function_declaration") {
        Some("function")
    } else if node.is_kind("class_declaration") {
        Some("class")
    } else if node.is_kind("interface_declaration") {
        Some("interface")
    } else if node.is_kind("type_alias_declaration") {
        Some("type")
    } else if node.is_kind("enum_declaration") {
        Some("enum")
    } else if node.is_kind("lexical_declaration") || node.is_kind("variable_declaration") {
        Some("variable")
    } else {
        None
    }
}

/// The chunk type that a node stands for.
pub fn get_chunk_type(node: &SyntaxNode) -> (r: String)
    ensures
        r@ == chunk_type(syntax::tree(*node)),
{
    if node.is_kind("export_statement") {
        let n: usize = node.children.len();
        for k in 0..n
            invariant
                n == node.children@.len(),
                exported_type(syntax::tree(*node).children, k as int) == exported_type(
                    syntax::tree(*node).children,
                    0,
                ),
                syntax::tree(*node).kind == "export_statement"@,
        {
            let child = &node.children[k];
            assert(syntax::tree(*node).children[k as int] == syntax::tree(*child));
            if let Some(name) = declared_type_of(child) {
                return name.to_owned();
            }
        }
        return "code".to_owned();
    }
    if node.is_kind("method_definition") {
        return "function".to_owned();
    }
    if node.is_kind("public_field_definition") || node.is_kind("property_declaration") {
        return "field".to_owned();
    }
    match declared_type_of(node) {
        Some(name) => name.to_owned(),
        None => "code".to_owned(),
    }
}

/// The name that a node declares.
pub fn get_symbol_name(node: &SyntaxNode, source: &[u8]) -> (r: Option<String>)
    ensures
        text::view_opt(r) == symbol_name(syntax::tree(*node), source@),
    decreases node,
{
    let n: usize = node.children.len();
    let ghost children = syntax::tree(*node).children;
    if node.is_kind("export_statement") {
        for k in 0..n
            invariant
                n == node.children@.len(),
                children == syntax::trees(node.children@),
                exported_symbol(children, k as int, source@) == symbol_name(
                    syntax::tree(*node),
                    source@,
                ),
        {
            let child = &node.children[k];
            assert(children[k as int] == syntax::tree(*child));
            let name = get_symbol_name(child, source);
            if name.is_some() {
                return name;
            }
        }
        return None;
    }
    for k in 0..n
        invariant
            n == node.children@.len(),
            children == syntax::trees(node.children@),
            first_identifier(children, k as int, source@) == symbol_name(
                syntax::tree(*node),
                source@,
            ),
    {
        let child = &node.children[k];
        assert(children[k as int] == syntax::tree(*child));
        if child.is_kind("identifier") || child.is_kind("property_identifier") || child.is_kind(
            "type_identifier",
        ) {
            return Some(text::decode_lossy(slice_source(source, child.start_byte, child.end_byte)));
        }
    }
    None
}

/// The smallest node around the lines from `start` to `end` that a chunk is named after.
pub open spec fn naming_node(
    root: SyntaxTree,
    source: Seq<u8>,
    start: int,
    end: int,
) -> Option<SyntaxTree> {
    narrowed(None, enclosing(root, Seq::empty(), 0, source, start, end))
}

/// Type and symbol name of the chunk that has the lines from `start` to `end`.
pub open spec fn chunk_metadata(
    root: SyntaxTree,
    source: Seq<u8>,
    start: int,
    end: int,
) -> (Seq<char>, Option<Seq<char>>) {
    match naming_node(root, source, start, end) {
        Some(node) => (chunk_type(node), symbol_name(node, source)),
        None => ("code"@, None),
    }
}

/// Type and symbol name of the chunk that has the lines from `start_line` to `end_line`.
pub fn get_chunk_metadata(
    root: &SyntaxNode,
    source: &[u8],
    start_line: usize,
    end_line: usize,
) -> (r: (String, Option<String>))
    ensures
        (r.0@, text::view_opt(r.1)) == chunk_metadata(
            syntax::tree(*root),
            source@,
            start_line as int,
            end_line as int,
        ),
{
    let none: Vec<SyntaxNode> = Vec::new();
    assert(syntax::trees(none@) =~= Seq::empty());
    match find_best_node(root, &none, 0, source, start_line, end_line, None) {
        Some(node) => (get_chunk_type(node), get_symbol_name(node, source)),
        None => ("code".to_owned(), None),
    }
}

}
