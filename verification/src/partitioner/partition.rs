//! The partition of a whole file.
use crate::breadcrumb;
use crate::breadcrumb::encode_path_component;
use crate::grammar;
use crate::ids;
use crate::partitioner::node_analysis;
use crate::partitioner::node_analysis::{
    extract_imports_end_line, get_chunk_metadata, get_lines_text,
};
use crate::partitioner::split_search;
use crate::partitioner::split_search::find_best_split;
use crate::partitioner::types;
use crate::partitioner::types::{
    ChunkRange, LineRange, PartitionConfig, PartitionConfigView, PartitionedChunk, PartitionedChunkView, SplitOutcome,
    SplitResult, MIN_CHUNK_DIVISOR,
};
use crate::syntax;
use crate::syntax::SyntaxNode;
use crate::syntax::SyntaxTree;
use crate::text;
use vstd::prelude::*;
use vstd::utf8::encode_utf8;

verus! {

/// Bytes of the text of a range.
pub open spec fn range_size(source: Seq<char>, range: LineRange) -> int {
    text::byte_len(
        node_analysis::lines_text(text::lines(source), range.start, range.end),
    ) as int
}

/// The two ranges into which a range falls after line `line`.
pub open spec fn divided(
    range: LineRange,
    line: int,
    from_fallback: bool,
    from_degraded: bool,
) -> (LineRange, LineRange) {
    (
        LineRange { start: range.start, end: line, from_fallback, from_degraded },
        LineRange { start: line + 1, end: range.end, from_fallback, from_degraded },
    )
}

/// How a range is divided, if it is: only where it is larger than the target, and in
/// the middle only where that is allowed.
pub open spec fn division(
    root: SyntaxTree,
    source: Seq<char>,
    target: int,
    allow_fallback: bool,
    range: LineRange,
) -> Option<(LineRange, LineRange)> {
    let size = range_size(source, range);
    if size <= target {
        None
    } else {
        match split_search::best_split(
            root,
            encode_utf8(source),
            range.start,
            range.end,
            size,
            target / MIN_CHUNK_DIVISOR as int,
        ) {
            SplitOutcome::Split(line) => Some(divided(range, line, false, false)),
            SplitOutcome::DegradedSplit(line) => Some(divided(range, line, false, true)),
            SplitOutcome::Fallback(line) => if allow_fallback {
                Some(divided(range, line, true, false))
            } else {
                None
            },
            SplitOutcome::CannotSplit => None,
        }
    }
}

/// The ranges into which a range falls when it is divided as often as possible.
pub open spec fn final_ranges(
    root: SyntaxTree,
    source: Seq<char>,
    target: int,
    allow_fallback: bool,
    range: LineRange,
) -> Seq<LineRange>
    decreases range.end - range.start,
{
    match division(root, source, target, allow_fallback, range) {
        None => seq![range],
        Some((first, second)) => {
            proof {
                lemma_division(root, source, target, allow_fallback, range);
            }
            final_ranges(root, source, target, allow_fallback, first) + final_ranges(
                root,
                source,
                target,
                allow_fallback,
                second,
            )
        },
    }
}

/// A division leaves a line on both sides, and loses none.
pub proof fn lemma_division(
    root: SyntaxTree,
    source: Seq<char>,
    target: int,
    allow_fallback: bool,
    range: LineRange,
)
    ensures
        division(root, source, target, allow_fallback, range) matches Some((first, second)) ==> {
            &&& first.start == range.start
            &&& first.start <= first.end
            &&& second.start == first.end + 1
            &&& second.start <= second.end
            &&& second.end == range.end
        },
{
    split_search::best_split_outcomes(
        root,
        encode_utf8(source),
        range.start,
        range.end,
        range_size(source, range),
        target / MIN_CHUNK_DIVISOR as int,
    );
}

/// The whole file as one range.
pub open spec fn whole_file(source: Seq<char>) -> LineRange {
    LineRange {
        start: 1,
        end: text::lines(source).len() as int,
        from_fallback: false,
        from_degraded: false,
    }
}

/// Package and file name, encoded; without a package the file name alone.
pub open spec fn base_breadcrumb(package_name: Seq<char>, file_name: Seq<char>) -> Seq<char> {
    if breadcrumb::encoded(package_name).len() == 0 {
        breadcrumb::encoded(file_name)
    } else {
        breadcrumb::encoded(package_name) + seq![':'] + breadcrumb::encoded(file_name)
    }
}

/// A breadcrumb with a symbol behind it, if there is one.
pub open spec fn symbol_breadcrumb(base: Seq<char>, symbol: Option<Seq<char>>) -> Seq<char> {
    match symbol {
        Some(name) if name.len() > 0 => base + seq![':'] + breadcrumb::encoded(name),
        _ => base,
    }
}

/// The kind of the chunk that a range makes.
pub open spec fn range_kind(range: LineRange, imports_end: int) -> Seq<char> {
    if range.from_fallback {
        "fallback-split"@
    } else if range.from_degraded {
        "degraded-ast-split"@
    } else if imports_end > 0 && range.end <= imports_end {
        "imports"@
    } else {
        "content"@
    }
}

/// The chunk that a range makes.
pub open spec fn range_chunk(
    root: SyntaxTree,
    source: Seq<char>,
    config: PartitionConfigView,
    file_path: Seq<char>,
    catalog: Seq<char>,
    range: LineRange,
) -> PartitionedChunkView {
    let (chunk_type, symbol_name) = node_analysis::chunk_metadata(
        root,
        encode_utf8(source),
        range.start,
        range.end,
    );
    PartitionedChunkView {
        source_uri: file_path,
        catalog,
        content_hash: ids::content_hash(source),
        breadcrumb: symbol_breadcrumb(
            base_breadcrumb(config.package_name, config.file_name),
            symbol_name,
        ),
        text: node_analysis::lines_text(text::lines(source), range.start, range.end),
        start_line: range.start,
        end_line: range.end,
        chunk_type,
        chunk_kind: range_kind(range, node_analysis::imports_end(root.children, 0, 0)),
        symbol_name,
        split_part_ordinal: None,
        split_part_count: None,
    }
}

/// The chunks that the ranges make; ranges with nothing but white space make none.
pub open spec fn range_chunks(
    root: SyntaxTree,
    source: Seq<char>,
    config: PartitionConfigView,
    file_path: Seq<char>,
    catalog: Seq<char>,
    ranges: Seq<LineRange>,
) -> Seq<PartitionedChunkView>
    decreases ranges.len(),
{
    if ranges.len() == 0 {
        Seq::empty()
    } else {
        let before = range_chunks(root, source, config, file_path, catalog, ranges.drop_last());
        let range = ranges.last();
        if text::blank(
            node_analysis::lines_text(text::lines(source), range.start, range.end),
        ) {
            before
        } else {
            before.push(range_chunk(root, source, config, file_path, catalog, range))
        }
    }
}

/// The chunks of a file with the given syntax tree.
pub open spec fn partition(
    root: SyntaxTree,
    source: Seq<char>,
    config: PartitionConfigView,
    file_path: Seq<char>,
    catalog: Seq<char>,
) -> Seq<PartitionedChunkView> {
    range_chunks(
        root,
        source,
        config,
        file_path,
        catalog,
        final_ranges(
            root,
            source,
            config.target_size,
            config.allow_fallback,
            whole_file(source),
        ),
    )
}

/// Divides a range as often as possible, and appends what it falls into.
fn divide_range(
    root: &SyntaxNode,
    source: &str,
    lines: &Vec<String>,
    config: &PartitionConfig,
    range: ChunkRange,
    out: &mut Vec<ChunkRange>,
)
    requires
        text::views(lines@) == text::lines(source@),
    ensures
        types::range_views(final(out)@) == types::range_views(old(out)@) + final_ranges(
            syntax::tree(*root),
            source@,
            config.target_size as int,
            config.allow_fallback,
            range@,
        ),
    decreases range.end_line - range.start_line,
{
    let ghost (tree, target, fallback) = (
        syntax::tree(*root),
        config.target_size as int,
        config.allow_fallback,
    );
    let ghost before = out@;
    let body = get_lines_text(lines, range.start_line, range.end_line);
    let size: usize = text::len_in_bytes(body.as_str());
    proof {
        lemma_division(tree, source@, target, fallback, range@);
        assert(text::views(lines@).len() == lines@.len());
        if size > 0 {
            lemma_text_has_lines(text::lines(source@), range@.start, range@.end);
        }
    }
    let (line, from_fallback, from_degraded_ast_split) = if size <= config.target_size {
        (None, false, false)
    } else {
        match find_best_split(
            root,
            range.start_line,
            range.end_line,
            size,
            config.target_size,
            config.target_size / MIN_CHUNK_DIVISOR,
            source.as_bytes(),
        ) {
            SplitResult::Split(line) => (Some(line), false, false),
            SplitResult::DegradedSplit(line) => (Some(line), false, true),
            SplitResult::Fallback(line) => if config.allow_fallback {
                (Some(line), true, false)
            } else {
                (None, false, false)
            },
            SplitResult::CannotSplit => (None, false, false),
        }
    };
    match line {
        Some(line) => {
            let first = ChunkRange {
                start_line: range.start_line,
                end_line: line,
                from_fallback,
                from_degraded_ast_split,
            };
            let second = ChunkRange {
                start_line: line + 1,
                end_line: range.end_line,
                from_fallback,
                from_degraded_ast_split,
            };
            divide_range(root, source, lines, config, first, out);
            divide_range(root, source, lines, config, second, out);
            assert(types::range_views(out@) =~= types::range_views(before) + (final_ranges(
                tree,
                source@,
                target,
                fallback,
                first@,
            ) + final_ranges(tree, source@, target, fallback, second@)));
        },
        None => {
            out.push(range);
            assert(types::range_views(out@) =~= types::range_views(before) + seq![range@]);
        },
    }
}

/// A range with a text is not empty.
proof fn lemma_text_has_lines(lines: Seq<Seq<char>>, start: int, end: int)
    requires
        text::byte_len(node_analysis::lines_text(lines, start, end)) > 0,
    ensures
        1 <= start <= end,
{
}

/// The kind of the chunk that a range makes.
fn kind_of_range(range: &ChunkRange, imports_end: u64) -> (r: String)
    ensures
        r@ == range_kind(range@, imports_end as int),
{
    if range.from_fallback {
        "fallback-split".to_owned()
    } else if range.from_degraded_ast_split {
        "degraded-ast-split".to_owned()
    } else if imports_end > 0 && range.end_line as u64 <= imports_end {
        "imports".to_owned()
    } else {
        "content".to_owned()
    }
}

/// Package and file name, encoded; without a package the file name alone.
pub fn make_base_breadcrumb(package_name: &str, file_name: &str) -> (r: String)
    ensures
        r@ == base_breadcrumb(package_name@, file_name@),
{
    let package = encode_path_component(package_name);
    let file = encode_path_component(file_name);
    if package.as_str().is_empty() {
        file
    } else {
        let mut out = package;
        out.push(':');
        out.append(file.as_str());
        assert(out@ =~= base_breadcrumb(package_name@, file_name@));
        out
    }
}

fn add_symbol(base: &str, symbol: &Option<String>) -> (r: String)
    ensures
        r@ == symbol_breadcrumb(base@, text::view_opt(*symbol)),
{
    let mut out = base.to_owned();
    if let Some(name) = symbol {
        if !name.as_str().is_empty() {
            out.push(':');
            out.append(encode_path_component(name.as_str()).as_str());
            assert(out@ =~= base@ + seq![':'] + breadcrumb::encoded(name@));
        }
    }
    out
}

/// Divides a file along its syntax tree into chunks of about the target size.
pub fn partition_tree(
    root: &SyntaxNode,
    source: &str,
    config: &PartitionConfig,
    file_path: &str,
    catalog: &str,
) -> (r: Vec<PartitionedChunk>)
    ensures
        types::chunk_views(r@) == partition(
            syntax::tree(*root),
            source@,
            config@,
            file_path@,
            catalog@,
        ),
{
    let ghost tree = syntax::tree(*root);
    let content_hash = ids::compute_hash(source);
    let lines = text::split_lines(source);
    let base = make_base_breadcrumb(config.package_name.as_str(), config.file_name.as_str());
    let imports_end: u64 = extract_imports_end_line(root);
    let mut ranges: Vec<ChunkRange> = Vec::new();
    let whole = ChunkRange {
        start_line: 1,
        end_line: lines.len(),
        from_fallback: false,
        from_degraded_ast_split: false,
    };
    assert(text::views(lines@).len() == lines@.len());
    assert(whole@ == whole_file(source@));
    divide_range(root, source, &lines, config, whole, &mut ranges);
    let ghost all = types::range_views(ranges@);
    assert(all =~= final_ranges(
        tree,
        source@,
        config.target_size as int,
        config.allow_fallback,
        whole_file(source@),
    ));
    let mut out: Vec<PartitionedChunk> = Vec::new();
    let n: usize = ranges.len();
    assert(types::chunk_views(out@) =~= range_chunks(
        tree,
        source@,
        config@,
        file_path@,
        catalog@,
        all.take(0),
    ));
    for i in 0..n
        invariant
            n == ranges@.len(),
            all == types::range_views(ranges@),
            tree == syntax::tree(*root),
            text::views(lines@) == text::lines(source@),
            content_hash@ == ids::content_hash(source@),
            base@ == base_breadcrumb(config.package_name@, config.file_name@),
            imports_end == node_analysis::imports_end(tree.children, 0, 0),
            types::chunk_views(out@) == range_chunks(
                tree,
                source@,
                config@,
                file_path@,
                catalog@,
                all.take(i as int),
            ),
    {
        let range = &ranges[i];
        let chunk_text = get_lines_text(&lines, range.start_line, range.end_line);
        proof {
            assert(all.take(i + 1).drop_last() =~= all.take(i as int));
            assert(all.take(i + 1).last() == range@);
        }
        if !text::is_blank(chunk_text.as_str()) {
            let (chunk_type, symbol_name) = get_chunk_metadata(
                root,
                source.as_bytes(),
                range.start_line,
                range.end_line,
            );
            let chunk = PartitionedChunk {
                source_uri: file_path.to_owned(),
                catalog: catalog.to_owned(),
                content_hash: content_hash.clone(),
                breadcrumb: add_symbol(base.as_str(), &symbol_name),
                text: chunk_text,
                start_line: range.start_line,
                end_line: range.end_line,
                chunk_type,
                chunk_kind: kind_of_range(range, imports_end),
                symbol_name,
                split_part_ordinal: None,
                split_part_count: None,
            };
            assert(chunk@ == range_chunk(tree, source@, config@, file_path@, catalog@, range@));
            assert(types::chunk_views(out@.push(chunk)) =~= types::chunk_views(out@).push(chunk@));
            out.push(chunk);
        }
    }
    assert(all.take(n as int) =~= all);
    out
}

/// Divides a TypeScript or TSX file into chunks. The TSX grammar is used for files whose
/// path ends in `.tsx`, the TypeScript grammar for all others.
pub fn partition_typescript(
    source: &str,
    config: &PartitionConfig,
    file_path: &str,
    catalog: &str,
) -> (r: Vec<PartitionedChunk>)
    requires
        text::byte_len(source@) <= text::MAX_DOCUMENT_BYTES,
    ensures
        types::chunk_views(r@) == partition(
            syntax::tree_of(grammar::source_nodes(source@, ".tsx"@.is_suffix_of(file_path@))),
            source@,
            config@,
            file_path@,
            catalog@,
        ),
{
    let root = grammar::parse_source(source, text::ends_with(file_path, ".tsx"));
    partition_tree(&root, source, config, file_path, catalog)
}

/// The ranges follow each other without gap or overlap from line `start` to line `end`,
/// and none is empty.
pub open spec fn tile(ranges: Seq<LineRange>, start: int, end: int) -> bool {
    &&& ranges.len() > 0
    &&& ranges[0].start == start
    &&& ranges.last().end == end
    &&& forall|i: int| 0 <= i < ranges.len() ==> (#[trigger] ranges[i]).start <= ranges[i].end
    &&& forall|i: int, j: int|
        0 <= i && j == i + 1 && j < ranges.len() ==> (#[trigger] ranges[j]).start == (
        #[trigger] ranges[i]).end + 1
}

/// A range is divided without losing or repeating a line.
pub proof fn ranges_tile_the_file(
    root: SyntaxTree,
    source: Seq<char>,
    target: int,
    allow_fallback: bool,
    range: LineRange,
)
    requires
        range.start <= range.end,
    ensures
        tile(
            final_ranges(root, source, target, allow_fallback, range),
            range.start,
            range.end,
        ),
    decreases range.end - range.start,
{
    lemma_division(root, source, target, allow_fallback, range);
    if let Some((first, second)) = division(root, source, target, allow_fallback, range) {
        ranges_tile_the_file(root, source, target, allow_fallback, first);
        ranges_tile_the_file(root, source, target, allow_fallback, second);
        let a = final_ranges(root, source, target, allow_fallback, first);
        let b = final_ranges(root, source, target, allow_fallback, second);
        let all = a + b;
        assert(all.last() == b.last());
        assert forall|i: int| 0 <= i < all.len() implies (#[trigger] all[i]).start
            <= all[i].end by {
            if i < a.len() {
                assert(all[i] == a[i]);
            } else {
                assert(all[i] == b[i - a.len()]);
            }
        }
        assert forall|i: int, j: int| 0 <= i && j == i + 1 && j < all.len() implies (
        #[trigger] all[j]).start == (#[trigger] all[i]).end + 1 by {
            if j < a.len() {
                assert(all[i] == a[i] && all[j] == a[j]);
            } else if i < a.len() {
                assert(all[i] == a.last() && all[j] == b[0]);
            } else {
                assert(all[i] == b[i - a.len()] && all[j] == b[j - a.len()]);
            }
        }
    }
}

/// Nothing that could still be divided is left over: each range either has at most the
/// target size, or the search for a boundary gave nothing that may be used.
pub proof fn ranges_are_final(
    root: SyntaxTree,
    source: Seq<char>,
    target: int,
    allow_fallback: bool,
    range: LineRange,
    i: int,
)
    requires
        0 <= i < final_ranges(root, source, target, allow_fallback, range).len(),
    ensures
        division(
            root,
            source,
            target,
            allow_fallback,
            final_ranges(root, source, target, allow_fallback, range)[i],
        ) is None,
    decreases range.end - range.start,
{
    lemma_division(root, source, target, allow_fallback, range);
    if let Some((first, second)) = division(root, source, target, allow_fallback, range) {
        let a = final_ranges(root, source, target, allow_fallback, first);
        if i < a.len() {
            ranges_are_final(root, source, target, allow_fallback, first, i);
        } else {
            ranges_are_final(root, source, target, allow_fallback, second, i - a.len());
        }
    }
}

/// Where ranges may be divided in the middle, only a range of at most two lines stays
/// larger than the target.
pub proof fn oversized_ranges_are_short(
    root: SyntaxTree,
    source: Seq<char>,
    target: int,
    range: LineRange,
    i: int,
)
    requires
        0 <= i < final_ranges(root, source, target, true, range).len(),
        range_size(source, final_ranges(root, source, target, true, range)[i]) > target,
    ensures
        ({
            let left = final_ranges(root, source, target, true, range)[i];
            left.end - left.start < 2
        }),
{
    ranges_are_final(root, source, target, true, range, i);
    let left = final_ranges(root, source, target, true, range)[i];
    split_search::best_split_outcomes(
        root,
        encode_utf8(source),
        left.start,
        left.end,
        range_size(source, left),
        target / MIN_CHUNK_DIVISOR as int,
    );
}

/// The texts of ranges, in order.
pub open spec fn range_texts(source: Seq<char>, ranges: Seq<LineRange>) -> Seq<Seq<char>> {
    ranges.map_values(
        |r: LineRange| node_analysis::lines_text(text::lines(source), r.start, r.end),
    )
}

/// Put together line by line, the ranges give the text of the range that they come from.
pub proof fn ranges_reassemble(
    root: SyntaxTree,
    source: Seq<char>,
    target: int,
    allow_fallback: bool,
    range: LineRange,
)
    requires
        1 <= range.start <= range.end <= text::lines(source).len(),
    ensures
        text::join(
            range_texts(source, final_ranges(root, source, target, allow_fallback, range)),
            seq!['\n'],
        ) == node_analysis::lines_text(text::lines(source), range.start, range.end),
    decreases range.end - range.start,
{
    let newline = seq!['\n'];
    let lines = text::lines(source);
    lemma_division(root, source, target, allow_fallback, range);
    match division(root, source, target, allow_fallback, range) {
        Some((first, second)) => {
            ranges_reassemble(root, source, target, allow_fallback, first);
            ranges_reassemble(root, source, target, allow_fallback, second);
            let a = final_ranges(root, source, target, allow_fallback, first);
            let b = final_ranges(root, source, target, allow_fallback, second);
            ranges_tile_the_file(root, source, target, allow_fallback, first);
            ranges_tile_the_file(root, source, target, allow_fallback, second);
            assert(range_texts(source, a + b) =~= range_texts(source, a) + range_texts(source, b));
            text::lemma_join_concat(range_texts(source, a), range_texts(source, b), newline);
            let x = lines.subrange(range.start - 1, first.end);
            let y = lines.subrange(first.end, range.end);
            assert(x + y =~= lines.subrange(range.start - 1, range.end));
            text::lemma_join_concat(x, y, newline);
        },
        None => {
            assert(range_texts(source, seq![range]) =~= seq![
                node_analysis::lines_text(lines, range.start, range.end),
            ]);
        },
    }
}

/// A range whose lines, put together, fit the target stays as it is. A larger one falls into
/// what comes before and after the line that the search gives, with a fifth of the target as
/// the least size of a part; both are marked by how the line was found, and the middle line is
/// used only where that is allowed.
pub proof fn large_ranges_are_divided(
    root: SyntaxTree,
    source: Seq<char>,
    target: int,
    allow_fallback: bool,
    range: LineRange,
)
    requires
        1 <= range.start <= range.end <= text::lines(source).len(),
    ensures
        ({
            let body = text::join(
                text::lines(source).subrange(range.start - 1, range.end),
                seq!['\n'],
            );
            let size = text::byte_len(body) as int;
            let found = split_search::best_split(
                root,
                encode_utf8(source),
                range.start,
                range.end,
                size,
                target / 5,
            );
            let all = final_ranges(root, source, target, allow_fallback, range);
            let (line, from_fallback, from_degraded) = match found {
                SplitOutcome::Split(line) => (Some(line), false, false),
                SplitOutcome::DegradedSplit(line) => (Some(line), false, true),
                SplitOutcome::Fallback(line) => if allow_fallback {
                    (Some(line), true, false)
                } else {
                    (None, false, false)
                },
                SplitOutcome::CannotSplit => (None, false, false),
            };
            if size > target && line is Some {
                all == final_ranges(
                    root,
                    source,
                    target,
                    allow_fallback,
                    LineRange { start: range.start, end: line->0, from_fallback, from_degraded },
                ) + final_ranges(
                    root,
                    source,
                    target,
                    allow_fallback,
                    LineRange { start: line->0 + 1, end: range.end, from_fallback, from_degraded },
                )
            } else {
                all == seq![range]
            }
        }),
{
    lemma_division(root, source, target, allow_fallback, range);
}

/// A chunk is what its range says: the text of its lines, which is not only white space, of
/// the given file, and of a kind that tells how its lines were cut out. Imports are the
/// chunks that end with the imports at the latest.
pub open spec fn is_chunk_of(
    chunk: PartitionedChunkView,
    range: LineRange,
    root: SyntaxTree,
    source: Seq<char>,
    file_path: Seq<char>,
    catalog: Seq<char>,
) -> bool {
    let imports_end = node_analysis::imports_end(root.children, 0, 0);
    &&& chunk.start_line == range.start
    &&& chunk.end_line == range.end
    &&& 1 <= range.start <= range.end <= text::lines(source).len() ==> chunk.text == text::join(
        text::lines(source).subrange(range.start - 1, range.end),
        seq!['\n'],
    )
    &&& !text::blank(chunk.text)
    &&& chunk.source_uri == file_path
    &&& chunk.catalog == catalog
    &&& chunk.content_hash == ids::content_hash(source)
    &&& range.from_fallback ==> chunk.chunk_kind == "fallback-split"@
    &&& !range.from_fallback && range.from_degraded ==> chunk.chunk_kind == "degraded-ast-split"@
    &&& !range.from_fallback && !range.from_degraded && imports_end > 0 && range.end <= imports_end
        ==> chunk.chunk_kind == "imports"@
    &&& !range.from_fallback && !range.from_degraded && (imports_end <= 0 || imports_end
        < range.end) ==> chunk.chunk_kind == "content"@
    &&& (chunk.chunk_type, chunk.symbol_name) == node_analysis::chunk_metadata(
        root,
        encode_utf8(source),
        range.start,
        range.end,
    )
    &&& chunk.split_part_ordinal is None
    &&& chunk.split_part_count is None
}

/// Every chunk of a file comes from one of its ranges.
pub proof fn chunks_are_the_text_of_their_lines(
    root: SyntaxTree,
    source: Seq<char>,
    config: PartitionConfigView,
    file_path: Seq<char>,
    catalog: Seq<char>,
    i: int,
)
    requires
        0 <= i < partition(root, source, config, file_path, catalog).len(),
    ensures
        exists|k: int|
            0 <= k < final_ranges(
                root,
                source,
                config.target_size,
                config.allow_fallback,
                whole_file(source),
            ).len() && is_chunk_of(
                partition(root, source, config, file_path, catalog)[i],
                #[trigger] final_ranges(
                    root,
                    source,
                    config.target_size,
                    config.allow_fallback,
                    whole_file(source),
                )[k],
                root,
                source,
                file_path,
                catalog,
            ),
{
    let ranges = final_ranges(
        root,
        source,
        config.target_size,
        config.allow_fallback,
        whole_file(source),
    );
    lemma_chunk_of(root, source, config, file_path, catalog, ranges, i);
}

proof fn lemma_chunk_of(
    root: SyntaxTree,
    source: Seq<char>,
    config: PartitionConfigView,
    file_path: Seq<char>,
    catalog: Seq<char>,
    ranges: Seq<LineRange>,
    i: int,
)
    requires
        0 <= i < range_chunks(root, source, config, file_path, catalog, ranges).len(),
    ensures
        exists|k: int|
            0 <= k < ranges.len() && is_chunk_of(
                range_chunks(root, source, config, file_path, catalog, ranges)[i],
                #[trigger] ranges[k],
                root,
                source,
                file_path,
                catalog,
            ),
    decreases ranges.len(),
{
    let shorter = ranges.drop_last();
    let before = range_chunks(root, source, config, file_path, catalog, shorter);
    let all = range_chunks(root, source, config, file_path, catalog, ranges);
    if i < before.len() {
        lemma_chunk_of(root, source, config, file_path, catalog, shorter, i);
        let k = choose|k: int|
            0 <= k < shorter.len() && is_chunk_of(
                before[i],
                #[trigger] shorter[k],
                root,
                source,
                file_path,
                catalog,
            );
        assert(all[i] == before[i]);
        assert(is_chunk_of(all[i], ranges[k], root, source, file_path, catalog));
    } else {
        assert(is_chunk_of(all[i], ranges[ranges.len() - 1], root, source, file_path, catalog));
    }
}

/// Every line with more than white space on it is in a chunk of the file.
pub proof fn every_line_with_text_is_in_a_chunk(
    root: SyntaxTree,
    source: Seq<char>,
    config: PartitionConfigView,
    file_path: Seq<char>,
    catalog: Seq<char>,
    line: int,
)
    requires
        1 <= line <= text::lines(source).len(),
        !text::blank(text::lines(source)[line - 1]),
    ensures
        exists|i: int|
            0 <= i < partition(root, source, config, file_path, catalog).len() && (
            #[trigger] partition(root, source, config, file_path, catalog)[i]).start_line <= line
                <= partition(root, source, config, file_path, catalog)[i].end_line,
{
    let whole = whole_file(source);
    let ranges = final_ranges(root, source, config.target_size, config.allow_fallback, whole);
    ranges_tile_the_file(root, source, config.target_size, config.allow_fallback, whole);
    lemma_range_of_line(ranges, ranges.len() - 1, 1, text::lines(source).len() as int, line);
    let k = choose|k: int|
        0 <= k < ranges.len() && (#[trigger] ranges[k]).start <= line <= ranges[k].end && 1
            <= ranges[k].start && ranges[k].end <= text::lines(source).len();
    let lines = text::lines(source);
    let (start, end) = (ranges[k].start, ranges[k].end);
    lemma_not_blank(lines.subrange(start - 1, end), line - start);
    lemma_chunk_at(root, source, config, file_path, catalog, ranges, k);
    let chunks = partition(root, source, config, file_path, catalog);
    let i = choose|i: int|
        0 <= i < chunks.len() && (#[trigger] chunks[i]).start_line == start && chunks[i].end_line
            == end;
    assert(chunks[i].start_line <= line <= chunks[i].end_line);
}

proof fn lemma_range_of_line(ranges: Seq<LineRange>, k: int, start: int, end: int, line: int)
    requires
        tile(ranges, start, end),
        0 <= k < ranges.len(),
        start <= line <= ranges[k].end,
        ranges[k].end <= end,
    ensures
        exists|i: int|
            0 <= i < ranges.len() && (#[trigger] ranges[i]).start <= line <= ranges[i].end && start
                <= ranges[i].start && ranges[i].end <= end,
    decreases k,
{
    lemma_starts(ranges, k, start, end);
    if ranges[k].start <= line {
        assert(ranges[k].start <= line <= ranges[k].end);
    } else if k > 0 {
        assert(ranges[k].start == ranges[k - 1].end + 1);
        lemma_range_of_line(ranges, k - 1, start, end, line);
    }
}

proof fn lemma_starts(ranges: Seq<LineRange>, k: int, start: int, end: int)
    requires
        tile(ranges, start, end),
        0 <= k < ranges.len(),
    ensures
        start <= ranges[k].start,
    decreases k,
{
    if k > 0 {
        lemma_starts(ranges, k - 1, start, end);
        assert(ranges[k].start == ranges[k - 1].end + 1);
        assert(ranges[k - 1].start <= ranges[k - 1].end);
    }
}

pub(crate) proof fn lemma_not_blank(lines: Seq<Seq<char>>, i: int)
    requires
        0 <= i < lines.len(),
        !text::blank(lines[i]),
    ensures
        !text::blank(text::join(lines, seq!['\n'])),
    decreases lines.len(),
{
    let all = text::join(lines, seq!['\n']);
    if lines.len() > 1 {
        let upper = text::join(lines.drop_last(), seq!['\n']);
        if i < lines.len() - 1 {
            assert(lines.drop_last()[i] == lines[i]);
            lemma_not_blank(lines.drop_last(), i);
            let k = choose|k: int| 0 <= k < upper.len() && !text::whitespace(#[trigger] upper[k]);
            assert(all[k] == upper[k]);
        } else {
            let last = lines.last();
            let k = choose|k: int| 0 <= k < last.len() && !text::whitespace(#[trigger] last[k]);
            assert(all[upper.len() + 1 + k] == last[k]);
        }
    }
}

proof fn lemma_chunk_at(
    root: SyntaxTree,
    source: Seq<char>,
    config: PartitionConfigView,
    file_path: Seq<char>,
    catalog: Seq<char>,
    ranges: Seq<LineRange>,
    k: int,
)
    requires
        0 <= k < ranges.len(),
        !text::blank(
            node_analysis::lines_text(text::lines(source), ranges[k].start, ranges[k].end),
        ),
    ensures
        ({
            let chunks = range_chunks(root, source, config, file_path, catalog, ranges);
            exists|i: int|
                0 <= i < chunks.len() && (#[trigger] chunks[i]).start_line == ranges[k].start
                    && chunks[i].end_line == ranges[k].end
        }),
    decreases ranges.len(),
{
    let chunks = range_chunks(root, source, config, file_path, catalog, ranges);
    let shorter = ranges.drop_last();
    let before = range_chunks(root, source, config, file_path, catalog, shorter);
    if k < ranges.len() - 1 {
        assert(shorter[k] == ranges[k]);
        lemma_chunk_at(root, source, config, file_path, catalog, shorter, k);
        let i = choose|i: int|
            0 <= i < before.len() && (#[trigger] before[i]).start_line == ranges[k].start
                && before[i].end_line == ranges[k].end;
        assert(chunks[i] == before[i]);
    } else {
        assert(chunks[before.len() as int].start_line == ranges[k].start);
    }
}

/// A file that fits the target is one chunk with all its lines, unless there is nothing but
/// white space in it.
pub proof fn small_files_are_one_chunk(
    root: SyntaxTree,
    source: Seq<char>,
    config: PartitionConfigView,
    file_path: Seq<char>,
    catalog: Seq<char>,
)
    requires
        text::lines(source).len() > 0,
        text::byte_len(text::join(text::lines(source), seq!['\n'])) <= config.target_size,
    ensures
        ({
            let whole = text::join(text::lines(source), seq!['\n']);
            let chunks = partition(root, source, config, file_path, catalog);
            if text::blank(whole) {
                chunks.len() == 0
            } else {
                &&& chunks.len() == 1
                &&& chunks[0].text == whole
                &&& chunks[0].start_line == 1
                &&& chunks[0].end_line == text::lines(source).len()
            }
        }),
{
    let lines = text::lines(source);
    let range = whole_file(source);
    assert(lines.subrange(0, lines.len() as int) =~= lines);
    let ranges = seq![range];
    assert(ranges.drop_last() =~= Seq::empty());
    let none = range_chunks(root, source, config, file_path, catalog, ranges.drop_last());
    assert(none =~= Seq::empty());
}

/// The breadcrumb of a chunk names package, file and symbol, in this order, each encoded; a
/// package or a symbol without a name is left out.
pub proof fn breadcrumbs_name_package_file_and_symbol(
    package_name: Seq<char>,
    file_name: Seq<char>,
    symbol: Seq<char>,
)
    requires
        breadcrumb::encoded(package_name).len() > 0,
        symbol.len() > 0,
    ensures
        symbol_breadcrumb(base_breadcrumb(package_name, file_name), Some(symbol)) == text::join(
            seq![
                breadcrumb::encoded(package_name),
                breadcrumb::encoded(file_name),
                breadcrumb::encoded(symbol),
            ],
            seq![':'],
        ),
        symbol_breadcrumb(base_breadcrumb(package_name, file_name), None) == text::join(
            seq![breadcrumb::encoded(package_name), breadcrumb::encoded(file_name)],
            seq![':'],
        ),
{
    let parts = seq![
        breadcrumb::encoded(package_name),
        breadcrumb::encoded(file_name),
        breadcrumb::encoded(symbol),
    ];
    let two = seq![breadcrumb::encoded(package_name), breadcrumb::encoded(file_name)];
    let sep = seq![':'];
    assert(parts.drop_last() =~= two);
    assert(text::join(parts, sep) == text::join(two, sep) + sep + breadcrumb::encoded(symbol));
    assert(text::join(two, sep) == text::join(two.drop_last(), sep) + sep + breadcrumb::encoded(
        file_name,
    ));
    assert(two.drop_last() =~= seq![breadcrumb::encoded(package_name)]);
}

}
