//! The TypeScript and TSX grammars: from source text to a syntax tree.
//!
//! Parsing is the work of the `tree-sitter` crate. Of a parse, the rest of the
//! library sees the list of its nodes in pre-order.
use crate::syntax::{build_tree, NodeRecord, SyntaxNode};
use crate::syntax;
use crate::text;
use vstd::prelude::*;

verus! {

/// A parse result of `tree-sitter`.
#[verifier::external_type_specification]
#[verifier::external_body]
pub struct ExParse(tree_sitter::Tree);

/// A position in a parse result of `tree-sitter`.
#[verifier::external_type_specification]
#[verifier::external_body]
pub struct ExCursor<'cursor>(tree_sitter::TreeCursor<'cursor>);

/// The nodes of a parse result in pre-order.
pub uninterp spec fn parse_nodes(parse: tree_sitter::Tree) -> Seq<syntax::RecordView>;

/// The nodes that a cursor can be moved to, in pre-order.
pub uninterp spec fn cursor_nodes(cursor: tree_sitter::TreeCursor) -> Seq<syntax::RecordView>;

/// The nodes that the TypeScript grammar finds in a source text.
pub uninterp spec fn typescript_nodes(source: Seq<char>) -> Seq<syntax::RecordView>;

/// The nodes that the TSX grammar finds in a source text.
pub uninterp spec fn tsx_nodes(source: Seq<char>) -> Seq<syntax::RecordView>;

/// `tree_sitter::Parser::parse` with the grammar
/// `tree_sitter_typescript::LANGUAGE_TYPESCRIPT`, without an earlier tree, a time
/// limit or a way to cancel. It always yields a tree, which has a root; which
/// nodes the tree has depends on the text alone.
#[verifier::external_body]
fn parse_typescript(source: &str) -> (r: tree_sitter::Tree)
    requires
        text::byte_len(source@) <= text::MAX_DOCUMENT_BYTES,
    ensures
        parse_nodes(r) == typescript_nodes(source@),
        parse_nodes(r).len() > 0,
{
    let mut parser = tree_sitter::Parser::new();
    let language = tree_sitter::Language::from(tree_sitter_typescript::LANGUAGE_TYPESCRIPT);
    parser.set_language(&language).expect("the grammar fits the parser");
    parser.parse(source, None).expect("a parser with a language yields a tree")
}

/// `tree_sitter::Parser::parse` as in [`parse_typescript`], with the grammar
/// `tree_sitter_typescript::LANGUAGE_TSX`.
#[verifier::external_body]
fn parse_tsx(source: &str) -> (r: tree_sitter::Tree)
    requires
        text::byte_len(source@) <= text::MAX_DOCUMENT_BYTES,
    ensures
        parse_nodes(r) == tsx_nodes(source@),
        parse_nodes(r).len() > 0,
{
    let mut parser = tree_sitter::Parser::new();
    let language = tree_sitter::Language::from(tree_sitter_typescript::LANGUAGE_TSX);
    parser.set_language(&language).expect("the grammar fits the parser");
    parser.parse(source, None).expect("a parser with a language yields a tree")
}

/// `tree_sitter::Node::descendant_count` of the root: the number of nodes of the
/// tree, the root included.
#[verifier::external_body]
fn node_count(parse: &tree_sitter::Tree) -> (r: usize)
    ensures
        r == parse_nodes(*parse).len(),
{
    parse.root_node().descendant_count()
}

/// `tree_sitter::Tree::walk`: a cursor over all nodes of the tree.
#[verifier::external_body]
fn walk(parse: &tree_sitter::Tree) -> (r: tree_sitter::TreeCursor<'_>)
    ensures
        cursor_nodes(r) == parse_nodes(*parse),
{
    parse.walk()
}

/// `tree_sitter::TreeCursor::goto_descendant` moves the cursor to the node at a
/// position of the pre-order list; kind, depth, bytes and rows are read off there.
/// The offsets come out of the parser as 32-bit numbers.
#[verifier::external_body]
fn node_at(cursor: &mut tree_sitter::TreeCursor<'_>, i: usize) -> (r: NodeRecord)
    requires
        i < cursor_nodes(*old(cursor)).len(),
    ensures
        r.view() == cursor_nodes(*old(cursor))[i as int],
        cursor_nodes(*final(cursor)) == cursor_nodes(*old(cursor)),
{
    cursor.goto_descendant(i);
    let node = cursor.node();
    NodeRecord {
        kind: node.kind().to_string(),
        depth: cursor.depth(),
        start_byte: node.start_byte() as u32,
        end_byte: node.end_byte() as u32,
        start_row: node.start_position().row as u32,
        end_row: node.end_position().row as u32,
    }
}

/// The nodes that the grammar for a file finds in its text.
pub open spec fn source_nodes(source: Seq<char>, tsx: bool) -> Seq<syntax::RecordView> {
    if tsx {
        tsx_nodes(source)
    } else {
        typescript_nodes(source)
    }
}

/// Parses a source text with the TSX or the TypeScript grammar.
pub fn parse_source(source: &str, tsx: bool) -> (r: SyntaxNode)
    requires
        text::byte_len(source@) <= text::MAX_DOCUMENT_BYTES,
    ensures
        syntax::tree(r) == syntax::tree_of(source_nodes(source@, tsx)),
{
    let parse = if tsx {
        parse_tsx(source)
    } else {
        parse_typescript(source)
    };
    let n: usize = node_count(&parse);
    let ghost nodes = source_nodes(source@, tsx);
    let mut cursor = walk(&parse);
    let mut records: Vec<NodeRecord> = Vec::new();
    for i in 0..n
        invariant
            n == nodes.len(),
            cursor_nodes(cursor) == nodes,
            syntax::record_views(records@) == nodes.take(i as int),
    {
        let record = node_at(&mut cursor, i);
        proof {
            assert(syntax::record_views(records@.push(record)) =~= syntax::record_views(
                records@,
            ).push(record.view()));
            assert(nodes.take(i + 1) =~= nodes.take(i as int).push(nodes[i as int]));
        }
        records.push(record);
    }
    assert(nodes.take(n as int) =~= nodes);
    assert(syntax::record_views(records@).len() == records@.len());
    build_tree(&records)
}

}
