//! Partitioning of Markdown documents: a chunk for each section, oversized sections in
//! several parts.
use crate::breadcrumb;
use crate::breadcrumb::{new_slugger, slugify_heading};
use crate::ids;
use crate::partitioner::node_analysis;
use crate::partitioner::partition;
use crate::partitioner::partition::make_base_breadcrumb;
use crate::partitioner::types;
use crate::partitioner::types::{PartitionConfig, PartitionConfigView, PartitionedChunk, PartitionedChunkView};
use crate::text;
use vstd::prelude::*;

verus! {

/// The line opens or closes a fenced code block.
pub open spec fn fence(line: Seq<char>) -> bool {
    "```"@.is_prefix_of(text::trimmed(line))
}

/// A code block is open after the first `k` lines.
pub open spec fn fenced(lines: Seq<Seq<char>>, k: int) -> bool
    decreases k,
{
    if k <= 0 {
        false
    } else if fence(lines[k - 1]) {
        !fenced(lines, k - 1)
    } else {
        fenced(lines, k - 1)
    }
}

/// The trimmed line begins with the given character.
pub open spec fn begins_with(line: Seq<char>, c: char) -> bool {
    text::trimmed(line).len() > 0 && text::trimmed(line)[0] == c
}

/// Positions of the headings among the first `k` lines; lines in code blocks are none.
pub open spec fn headings(lines: Seq<Seq<char>>, k: int) -> Seq<int>
    decreases k,
{
    if k <= 0 {
        Seq::empty()
    } else if !fenced(lines, k) && begins_with(lines[k - 1], '#') {
        headings(lines, k - 1).push(k - 1)
    } else {
        headings(lines, k - 1)
    }
}

/// The text of a heading line, without its marks; none if nothing is left.
pub open spec fn heading_text(line: Seq<char>) -> Option<Seq<char>> {
    let text = text::trimmed(text::strip_leading(text::trimmed(line), '#'));
    if begins_with(line, '#') && text.len() > 0 {
        Some(text)
    } else {
        None
    }
}

fn is_fence(line: &str) -> (r: bool)
    ensures
        r == fence(line@),
{
    text::starts_with(text::trim(line).as_str(), "```")
}

fn line_begins_with(line: &str, c: char) -> (r: bool)
    ensures
        r == begins_with(line@, c),
{
    let cs = text::chars(text::trim(line).as_str());
    cs.len() > 0 && cs[0] == c
}

/// The text of a heading line, without its marks.
pub fn extract_heading_text(line: &str) -> (r: Option<String>)
    ensures
        text::view_opt(r) == heading_text(line@),
{
    if line_begins_with(line, '#') {
        let stripped = text::trim_leading(text::trim(line).as_str(), '#');
        let heading = text::trim(stripped.as_str());
        if !heading.as_str().is_empty() {
            return Some(heading);
        }
    }
    None
}

/// Where a list of lines is cut into pieces, after the first lines of it.
pub struct Cuts {
    /// The pieces that are complete: first line and the line after the last.
    pub pieces: Seq<(int, int)>,
    /// First line of the piece that is being filled.
    pub start: int,
    /// Bytes of that piece, with a line feed for each line.
    pub size: int,
}

/// A piece may end before this line without tearing a paragraph apart: outside of code
/// blocks before empty lines, fences, quotes and list items.
pub open spec fn gentle_break(lines: Seq<Seq<char>>, k: int) -> bool {
    &&& !fenced(lines, k + 1)
    &&& {
        ||| text::blank(lines[k])
        ||| fence(lines[k])
        ||| begins_with(lines[k], '>')
        ||| begins_with(lines[k], '-')
        ||| begins_with(lines[k], '*')
    }
}

/// The cuts after the first `k` lines. A piece ends before a line that would make it
/// larger than the target; if `gentle` is set, only before lines where it may.
pub open spec fn cuts(lines: Seq<Seq<char>>, target: int, gentle: bool, k: int) -> Cuts
    decreases k,
{
    if k <= 0 {
        Cuts { pieces: Seq::empty(), start: 0, size: 0 }
    } else {
        let before = cuts(lines, target, gentle, k - 1);
        let line_size = text::byte_len(lines[k - 1]) + 1;
        if before.size + line_size > target && before.size > 0 && (gentle ==> gentle_break(
            lines,
            k - 1,
        )) {
            Cuts {
                pieces: before.pieces.push((before.start, k - 1)),
                start: k - 1,
                size: line_size as int,
            }
        } else {
            Cuts { size: before.size + line_size, ..before }
        }
    }
}

/// The pieces into which a list of lines is cut.
pub open spec fn pieces(lines: Seq<Seq<char>>, target: int, gentle: bool) -> Seq<(int, int)> {
    let all = cuts(lines, target, gentle, lines.len() as int);
    if all.start < lines.len() {
        all.pieces.push((all.start, lines.len() as int))
    } else {
        all.pieces
    }
}

/// The numbers of a list of pieces.
pub open spec fn int_pairs(v: Seq<(usize, usize)>) -> Seq<(int, int)> {
    v.map_values(|p: (usize, usize)| (p.0 as int, p.1 as int))
}

/// Cuts a list of lines into pieces (see [`pieces`]).
fn cut_lines(lines: &Vec<String>, target: usize, gentle: bool) -> (r: Vec<(usize, usize)>)
    ensures
        int_pairs(r@) == pieces(text::views(lines@), target as int, gentle),
        forall|i: int|
            0 <= i < r@.len() ==> (#[trigger] r@[i]).0 < r@[i].1 && r@[i].1 <= lines@.len(),
{
    let ghost all = text::views(lines@);
    let n: usize = lines.len();
    let mut out: Vec<(usize, usize)> = Vec::new();
    let mut start: usize = 0;
    let mut size: u128 = 0;
    let mut in_code_block = false;
    assert(int_pairs(out@) =~= Seq::empty());
    for k in 0..n
        invariant
            n == lines@.len(),
            all == text::views(lines@),
            start <= k,
            size > 0 ==> start < k,
            in_code_block == fenced(all, k as int),
            int_pairs(out@) == cuts(all, target as int, gentle, k as int).pieces,
            start == cuts(all, target as int, gentle, k as int).start,
            size == cuts(all, target as int, gentle, k as int).size,
            size <= k * 0x1_0000_0000_0000_0000,
            forall|i: int|
                0 <= i < out@.len() ==> (#[trigger] out@[i]).0 < out@[i].1 && out@[i].1
                    <= lines@.len(),
    {
        let line = lines[k].as_str();
        assert(all[k as int] == line@);
        if is_fence(line) {
            in_code_block = !in_code_block;
        }
        let line_size: u128 = text::len_in_bytes(line) as u128 + 1;
        let may_break = !gentle || (!in_code_block && (text::is_blank(line) || is_fence(line)
            || line_begins_with(line, '>') || line_begins_with(line, '-') || line_begins_with(
            line,
            '*',
        )));
        if size + line_size > target as u128 && size > 0 && may_break {
            assert(int_pairs(out@.push((start, k))) =~= int_pairs(out@).push(
                (start as int, k as int),
            ));
            out.push((start, k));
            start = k;
            size = 0;
        }
        size = size + line_size;
    }
    if start < n {
        assert(int_pairs(out@.push((start, n))) =~= int_pairs(out@).push((start as int, n as int)));
        out.push((start, n));
    }
    out
}

/// What all chunks of a document have in common.
pub struct Origin {
    pub file_path: Seq<char>,
    pub catalog: Seq<char>,
    pub content_hash: Seq<char>,
}

/// A chunk of a document.
pub open spec fn document_chunk(
    origin: Origin,
    breadcrumb: Seq<char>,
    text: Seq<char>,
    start_line: int,
    end_line: int,
    chunk_type: Seq<char>,
    symbol_name: Option<Seq<char>>,
) -> PartitionedChunkView {
    PartitionedChunkView {
        source_uri: origin.file_path,
        catalog: origin.catalog,
        content_hash: origin.content_hash,
        breadcrumb,
        text,
        start_line,
        end_line,
        chunk_type,
        chunk_kind: "content"@,
        symbol_name,
        split_part_ordinal: None,
        split_part_count: None,
    }
}

/// The chunks that the first `k` pieces of a section make, numbered among all its
/// pieces. `start_line` is the line of the section's first line.
pub open spec fn piece_chunks(
    origin: Origin,
    breadcrumb: Seq<char>,
    lines: Seq<Seq<char>>,
    start_line: int,
    cut: Seq<(int, int)>,
    chunk_type: Seq<char>,
    skip_blank: bool,
    k: int,
) -> Seq<PartitionedChunkView>
    decreases k,
{
    if k <= 0 {
        Seq::empty()
    } else {
        let before = piece_chunks(
            origin,
            breadcrumb,
            lines,
            start_line,
            cut,
            chunk_type,
            skip_blank,
            k - 1,
        );
        let (from, to) = cut[k - 1];
        let text = text::join(lines.subrange(from, to), seq!['\n']);
        if skip_blank && text::blank(text) {
            before
        } else {
            before.push(
                PartitionedChunkView {
                    split_part_ordinal: Some(k as usize),
                    split_part_count: Some(cut.len() as usize),
                    ..document_chunk(
                        origin,
                        breadcrumb,
                        text,
                        start_line + from,
                        start_line + to - 1,
                        chunk_type,
                        None,
                    )
                },
            )
        }
    }
}

/// The chunks of an oversized section that is cut line by line.
pub open spec fn line_chunks(
    origin: Origin,
    breadcrumb: Seq<char>,
    lines: Seq<Seq<char>>,
    start_line: int,
    target: int,
) -> Seq<PartitionedChunkView> {
    let cut = pieces(lines, target, false);
    piece_chunks(
        origin,
        breadcrumb,
        lines,
        start_line,
        cut,
        "markdown"@,
        false,
        cut.len() as int,
    )
}

/// The chunks of an oversized section: cut where it may be, or line by line where that
/// gives a single piece that is still oversized.
pub open spec fn oversized_chunks(
    origin: Origin,
    breadcrumb: Seq<char>,
    lines: Seq<Seq<char>>,
    start_line: int,
    target: int,
) -> Seq<PartitionedChunkView> {
    let cut = pieces(lines, target, true);
    if cut.len() == 1 && text::byte_len(text::join(lines, seq!['\n'])) > target {
        line_chunks(origin, breadcrumb, lines, start_line, target)
    } else {
        piece_chunks(
            origin,
            breadcrumb,
            lines,
            start_line,
            cut,
            "section"@,
            true,
            cut.len() as int,
        )
    }
}

/// Appends the chunks that the pieces of a section make (see [`piece_chunks`]).
fn push_pieces(
    lines: &Vec<String>,
    start_line: usize,
    cut: &Vec<(usize, usize)>,
    chunk_type: &str,
    skip_blank: bool,
    breadcrumb: &str,
    file_path: &str,
    catalog: &str,
    content_hash: &str,
    chunks: &mut Vec<PartitionedChunk>,
)
    requires
        1 <= start_line,
        start_line + lines@.len() - 1 <= usize::MAX,
        forall|i: int|
            0 <= i < cut@.len() ==> (#[trigger] cut@[i]).0 < cut@[i].1 && cut@[i].1 <= lines@.len(),
    ensures
        types::chunk_views(final(chunks)@) == types::chunk_views(old(chunks)@) + piece_chunks(
            (Origin { file_path: file_path@, catalog: catalog@, content_hash: content_hash@ }),
            breadcrumb@,
            text::views(lines@),
            start_line as int,
            int_pairs(cut@),
            chunk_type@,
            skip_blank,
            cut@.len() as int,
        ),
{
    let ghost before = types::chunk_views(chunks@);
    let ghost origin = Origin {
        file_path: file_path@,
        catalog: catalog@,
        content_hash: content_hash@,
    };
    let ghost all = text::views(lines@);
    let ghost pairs = int_pairs(cut@);
    let n: usize = cut.len();
    assert(before + Seq::empty() =~= before);
    for k in 0..n
        invariant
            n == cut@.len(),
            1 <= start_line,
            start_line + lines@.len() - 1 <= usize::MAX,
            forall|i: int|
                0 <= i < cut@.len() ==> (#[trigger] cut@[i]).0 < cut@[i].1 && cut@[i].1
                    <= lines@.len(),
            origin == (Origin {
                file_path: file_path@,
                catalog: catalog@,
                content_hash: content_hash@,
            }),
            all == text::views(lines@),
            pairs == int_pairs(cut@),
            types::chunk_views(chunks@) == before + piece_chunks(
                origin,
                breadcrumb@,
                all,
                start_line as int,
                pairs,
                chunk_type@,
                skip_blank,
                k as int,
            ),
    {
        let (from, to) = cut[k];
        assert(pairs[k as int] == (from as int, to as int));
        let piece = text::join_lines(lines, from, to);
        if !(skip_blank && text::is_blank(piece.as_str())) {
            let chunk = PartitionedChunk {
                source_uri: file_path.to_owned(),
                catalog: catalog.to_owned(),
                content_hash: content_hash.to_owned(),
                breadcrumb: breadcrumb.to_owned(),
                text: piece,
                start_line: start_line + from,
                end_line: start_line + (to - 1),
                chunk_type: chunk_type.to_owned(),
                chunk_kind: "content".to_owned(),
                symbol_name: None,
                split_part_ordinal: Some(k + 1),
                split_part_count: Some(n),
            };
            proof {
                let done = piece_chunks(
                    origin,
                    breadcrumb@,
                    all,
                    start_line as int,
                    pairs,
                    chunk_type@,
                    skip_blank,
                    k as int,
                );
                assert(types::chunk_views(chunks@.push(chunk)) =~= types::chunk_views(chunks@).push(
                    chunk@,
                ));
                assert(types::chunk_views(chunks@).push(chunk@) =~= before + done.push(chunk@));
            }
            chunks.push(chunk);
        }
    }
}

/// Appends the chunks of an oversized section that is cut line by line.
pub fn split_by_lines_fallback(
    lines: &Vec<String>,
    start_line: usize,
    config: &PartitionConfig,
    breadcrumb: &str,
    file_path: &str,
    catalog: &str,
    content_hash: &str,
    chunks: &mut Vec<PartitionedChunk>,
)
    requires
        1 <= start_line,
        start_line + lines@.len() - 1 <= usize::MAX,
    ensures
        types::chunk_views(final(chunks)@) == types::chunk_views(old(chunks)@) + line_chunks(
            (Origin { file_path: file_path@, catalog: catalog@, content_hash: content_hash@ }),
            breadcrumb@,
            text::views(lines@),
            start_line as int,
            config.target_size as int,
        ),
{
    let cut = cut_lines(lines, config.target_size, false);
    assert(int_pairs(cut@).len() == cut@.len());
    push_pieces(
        lines,
        start_line,
        &cut,
        "markdown",
        false,
        breadcrumb,
        file_path,
        catalog,
        content_hash,
        chunks,
    );
}

/// Appends the chunks of an oversized section (see [`oversized_chunks`]).
pub fn split_oversized_section(
    lines: &Vec<String>,
    start_line: usize,
    config: &PartitionConfig,
    breadcrumb: &str,
    file_path: &str,
    catalog: &str,
    content_hash: &str,
    chunks: &mut Vec<PartitionedChunk>,
)
    requires
        1 <= start_line,
        start_line + lines@.len() - 1 <= usize::MAX,
    ensures
        types::chunk_views(final(chunks)@) == types::chunk_views(old(chunks)@) + oversized_chunks(
            (Origin { file_path: file_path@, catalog: catalog@, content_hash: content_hash@ }),
            breadcrumb@,
            text::views(lines@),
            start_line as int,
            config.target_size as int,
        ),
{
    let cut = cut_lines(lines, config.target_size, true);
    assert(int_pairs(cut@).len() == cut@.len());
    if cut.len() == 1 {
        let whole = text::join_lines(lines, 0, lines.len());
        assert(text::views(lines@).subrange(0, lines@.len() as int) =~= text::views(lines@));
        if text::len_in_bytes(whole.as_str()) > config.target_size {
            split_by_lines_fallback(
                lines,
                start_line,
                config,
                breadcrumb,
                file_path,
                catalog,
                content_hash,
                chunks,
            );
            return;
        }
    }
    push_pieces(
        lines,
        start_line,
        &cut,
        "section",
        true,
        breadcrumb,
        file_path,
        catalog,
        content_hash,
        chunks,
    );
}

/// The chunks of the first sections of a document, and the slugs of their headings.
pub struct Sections {
    pub chunks: Seq<PartitionedChunkView>,
    pub slugs: Set<Seq<char>>,
}

/// The breadcrumb of a section: the document's, with the heading's slug behind it.
pub open spec fn section_breadcrumb(
    base: Seq<char>,
    heading: Option<Seq<char>>,
    slugs: Set<Seq<char>>,
) -> Seq<char> {
    match heading {
        Some(h) => base + seq![':'] + breadcrumb::next_slug(slugs, h),
        None => base,
    }
}

/// The first `k` sections of a document. A section goes from one boundary to the next,
/// and each boundary but the last is the line of a heading.
pub open spec fn sections(
    origin: Origin,
    base: Seq<char>,
    lines: Seq<Seq<char>>,
    boundaries: Seq<int>,
    target: int,
    k: int,
) -> Sections
    decreases k,
{
    if k <= 0 {
        Sections { chunks: Seq::empty(), slugs: Set::empty() }
    } else {
        let before = sections(origin, base, lines, boundaries, target, k - 1);
        let start = boundaries[k - 1];
        let end = boundaries[k];
        let section = lines.subrange(start, end);
        let text = text::join(section, seq!['\n']);
        if text::blank(text) {
            before
        } else {
            let heading = heading_text(section[0]);
            let breadcrumb = section_breadcrumb(base, heading, before.slugs);
            Sections {
                chunks: before.chunks + if text::byte_len(text) > target {
                    oversized_chunks(origin, breadcrumb, section, start + 1, target)
                } else {
                    seq![
                        document_chunk(
                            origin,
                            breadcrumb,
                            text,
                            start + 1,
                            end,
                            "section"@,
                            heading,
                        ),
                    ]
                },
                slugs: match heading {
                    Some(h) => before.slugs.insert(breadcrumb::next_slug(before.slugs, h)),
                    None => before.slugs,
                },
            }
        }
    }
}

/// The chunks of a document: one for each section, from the first heading on, or one for
/// the whole document where there is no heading.
pub open spec fn document_chunks(
    source: Seq<char>,
    config: PartitionConfigView,
    file_path: Seq<char>,
    catalog: Seq<char>,
) -> Seq<PartitionedChunkView> {
    let lines = text::lines(source);
    let origin = Origin { file_path, catalog, content_hash: ids::content_hash(source) };
    let base = partition::base_breadcrumb(config.package_name, config.file_name);
    let starts = headings(lines, lines.len() as int);
    let text = text::join(lines, seq!['\n']);
    if starts.len() > 0 {
        sections(
            origin,
            base,
            lines,
            starts.push(lines.len() as int),
            config.target_size,
            starts.len() as int,
        ).chunks
    } else if text::blank(text) {
        Seq::empty()
    } else {
        seq![
            document_chunk(origin, base, text, 1, lines.len() as int, "markdown"@, None),
        ]
    }
}

/// The headings of a document come one after the other, each on a line of its own.
pub proof fn headings_are_in_order(lines: Seq<Seq<char>>, k: int)
    requires
        0 <= k <= lines.len(),
    ensures
        headings(lines, k).len() <= k,
        forall|i: int|
            0 <= i < headings(lines, k).len() ==> 0 <= (#[trigger] headings(lines, k)[i]) < k,
        forall|i: int, j: int|
            0 <= i < j < headings(lines, k).len() ==> headings(lines, k)[i] < headings(lines, k)[j],
    decreases k,
{
    if k > 0 {
        headings_are_in_order(lines, k - 1);
    }
}

/// Positions of the headings of a document.
fn find_headings(lines: &Vec<String>) -> (r: Vec<usize>)
    ensures
        r@.map_values(|x: usize| x as int) == headings(text::views(lines@), lines@.len() as int),
{
    let ghost all = text::views(lines@);
    let ghost number = |x: usize| x as int;
    let n: usize = lines.len();
    let mut out: Vec<usize> = Vec::new();
    let mut in_code_block = false;
    assert(out@.map_values(number) =~= Seq::empty());
    for k in 0..n
        invariant
            n == lines@.len(),
            all == text::views(lines@),
            number == (|x: usize| x as int),
            in_code_block == fenced(all, k as int),
            out@.map_values(number) == headings(all, k as int),
    {
        let line = lines[k].as_str();
        assert(all[k as int] == line@);
        if is_fence(line) {
            in_code_block = !in_code_block;
        }
        if !in_code_block && line_begins_with(line, '#') {
            assert(out@.push(k).map_values(number) =~= out@.map_values(number).push(k as int));
            out.push(k);
        }
    }
    out
}

/// Most headings of a document: those with the same slug are told apart by a signed 32-bit
/// number.
pub const MAX_HEADINGS: usize = 0x7fff_ffff;

/// The document has at most [`MAX_HEADINGS`] headings.
pub open spec fn few_headings(source: Seq<char>) -> bool {
    headings(text::lines(source), text::lines(source).len() as int).len() <= MAX_HEADINGS
}

/// Only a document with more than [`MAX_HEADINGS`] bytes can have more headings.
pub proof fn small_documents_have_few_headings(source: Seq<char>)
    requires
        text::byte_len(source) <= MAX_HEADINGS,
    ensures
        few_headings(source),
{
    text::lemma_lines_len(source);
    headings_are_in_order(text::lines(source), text::lines(source).len() as int);
}

/// Whether the document has at most [`MAX_HEADINGS`] headings.
pub fn has_few_headings(source: &str) -> (r: bool)
    ensures
        r == few_headings(source@),
{
    let lines = text::split_lines(source);
    let found = find_headings(&lines);
    assert(text::views(lines@).len() == lines@.len());
    found.len() <= MAX_HEADINGS
}

/// Divides a Markdown document into chunks: a chunk for each section that fits the target
/// size, several for larger ones.
pub fn partition_markdown(
    source: &str,
    config: &PartitionConfig,
    file_path: &str,
    catalog: &str,
) -> (r: Vec<PartitionedChunk>)
    requires
        few_headings(source@),
    ensures
        types::chunk_views(r@) == document_chunks(source@, config@, file_path@, catalog@),
{
    let lines = text::split_lines(source);
    let ghost all = text::lines(source@);
    let content_hash = ids::compute_hash(source);
    let base = make_base_breadcrumb(config.package_name.as_str(), config.file_name.as_str());
    let ghost origin = Origin {
        file_path: file_path@,
        catalog: catalog@,
        content_hash: content_hash@,
    };
    let ghost target = config.target_size as int;
    let mut boundaries = find_headings(&lines);
    let count: usize = boundaries.len();
    let ghost starts = headings(all, all.len() as int);
    assert(all.len() == lines@.len());
    assert(starts.len() == count);
    let mut chunks: Vec<PartitionedChunk> = Vec::new();
    let n: usize = lines.len();
    if count == 0 {
        let whole = text::join_lines(&lines, 0, n);
        assert(all.subrange(0, n as int) =~= all);
        if !text::is_blank(whole.as_str()) {
            let chunk = PartitionedChunk {
                source_uri: file_path.to_owned(),
                catalog: catalog.to_owned(),
                content_hash,
                breadcrumb: base,
                text: whole,
                start_line: 1,
                end_line: n,
                chunk_type: "markdown".to_owned(),
                chunk_kind: "content".to_owned(),
                symbol_name: None,
                split_part_ordinal: None,
                split_part_count: None,
            };
            assert(types::chunk_views(chunks@.push(chunk)) =~= seq![chunk@]);
            chunks.push(chunk);
        } else {
            assert(types::chunk_views(chunks@) =~= Seq::empty());
        }
        return chunks;
    }
    boundaries.push(n);
    let ghost ends = starts.push(n as int);
    assert(boundaries@.map_values(|x: usize| x as int) =~= ends);
    proof {
        headings_are_in_order(all, all.len() as int);
    }
    let mut slugger = new_slugger();
    assert(types::chunk_views(chunks@) =~= Seq::empty());
    for k in 0..count
        invariant
            n == lines@.len() == all.len(),
            all == text::views(lines@),
            count == starts.len() <= n,
            count <= MAX_HEADINGS,
            boundaries@.len() == count + 1,
            ends == starts.push(n as int),
            boundaries@.map_values(|x: usize| x as int) == ends,
            forall|i: int| 0 <= i < starts.len() ==> 0 <= (#[trigger] starts[i]) < n,
            forall|i: int, j: int| 0 <= i < j < starts.len() ==> starts[i] < starts[j],
            content_hash@ == origin.content_hash,
            origin == (Origin {
                file_path: file_path@,
                catalog: catalog@,
                content_hash: content_hash@,
            }),
            base@ == partition::base_breadcrumb(config.package_name@, config.file_name@),
            target == config.target_size as int,
            types::chunk_views(chunks@) == sections(
                origin,
                base@,
                all,
                ends,
                target,
                k as int,
            ).chunks,
            breadcrumb::given_slugs(slugger) == sections(
                origin,
                base@,
                all,
                ends,
                target,
                k as int,
            ).slugs,
            breadcrumb::given_slugs(slugger).finite(),
            breadcrumb::given_slugs(slugger).len() <= k,
    {
        let start: usize = boundaries[k];
        let end: usize = boundaries[k + 1];
        assert(ends[k as int] == start && ends[k + 1] == end);
        assert(start < end <= n);
        let section = text::copy_strings(&lines, start, end);
        let body = text::join_lines(&lines, start, end);
        let ghost part = all.subrange(start as int, end as int);
        let ghost done = sections(origin, base@, all, ends, target, k as int);
        assert(text::views(section@).len() == section@.len());
        if !text::is_blank(body.as_str()) {
            let heading = extract_heading_text(section[0].as_str());
            assert(section@[0]@ == part[0]);
            let mut breadcrumb = base.clone();
            if let Some(h) = &heading {
                breadcrumb.push(':');
                let slug = slugify_heading(&mut slugger, h.as_str());
                breadcrumb.append(slug.as_str());
                assert(breadcrumb@ =~= base@ + seq![':'] + slug@);
            }
            if text::len_in_bytes(body.as_str()) > config.target_size {
                split_oversized_section(
                    &section,
                    start + 1,
                    config,
                    breadcrumb.as_str(),
                    file_path,
                    catalog,
                    content_hash.as_str(),
                    &mut chunks,
                );
            } else {
                let chunk = PartitionedChunk {
                    source_uri: file_path.to_owned(),
                    catalog: catalog.to_owned(),
                    content_hash: content_hash.clone(),
                    breadcrumb,
                    text: body,
                    start_line: start + 1,
                    end_line: end,
                    chunk_type: "section".to_owned(),
                    chunk_kind: "content".to_owned(),
                    symbol_name: heading,
                    split_part_ordinal: None,
                    split_part_count: None,
                };
                assert(types::chunk_views(chunks@.push(chunk)) =~= done.chunks + seq![chunk@]);
                chunks.push(chunk);
            }
        }
    }
    chunks
}

/// The pieces follow each other without gap or overlap from the first of `n` lines to the
/// last, and none is empty.
pub open spec fn pieces_tile(cut: Seq<(int, int)>, n: int) -> bool {
    &&& cut.len() > 0
    &&& cut[0].0 == 0
    &&& cut.last().1 == n
    &&& forall|i: int| 0 <= i < cut.len() ==> (#[trigger] cut[i]).0 < cut[i].1
    &&& forall|i: int, j: int|
        0 <= i && j == i + 1 && j < cut.len() ==> (#[trigger] cut[j]).0 == (#[trigger] cut[i]).1
}

proof fn lemma_cuts(lines: Seq<Seq<char>>, target: int, gentle: bool, k: int)
    requires
        0 <= k <= lines.len(),
    ensures
        ({
            let c = cuts(lines, target, gentle, k);
            &&& 0 <= c.start <= k
            &&& c.size >= 0
            &&& (k > 0 ==> c.start < k && c.size > 0)
            &&& (k == 0 ==> c.size == 0)
            &&& (c.pieces.len() == 0 ==> c.start == 0)
            &&& (c.pieces.len() > 0 ==> pieces_tile(c.pieces, c.start))
        }),
    decreases k,
{
    if k > 0 {
        lemma_cuts(lines, target, gentle, k - 1);
        let before = cuts(lines, target, gentle, k - 1);
        let c = cuts(lines, target, gentle, k);
        if c.pieces.len() > before.pieces.len() {
            assert forall|i: int, j: int| 0 <= i && j == i + 1 && j < c.pieces.len() implies (
            #[trigger] c.pieces[j]).0 == (#[trigger] c.pieces[i]).1 by {
                if j < before.pieces.len() {
                    assert(c.pieces[i] == before.pieces[i] && c.pieces[j] == before.pieces[j]);
                }
            }
        }
    }
}

/// A section is cut into pieces without losing or repeating a line.
pub proof fn pieces_tile_the_section(lines: Seq<Seq<char>>, target: int, gentle: bool)
    requires
        lines.len() > 0,
    ensures
        pieces_tile(pieces(lines, target, gentle), lines.len() as int),
{
    let n = lines.len() as int;
    lemma_cuts(lines, target, gentle, n);
    let c = cuts(lines, target, gentle, n);
    let all = pieces(lines, target, gentle);
    assert forall|i: int, j: int| 0 <= i && j == i + 1 && j < all.len() implies (
    #[trigger] all[j]).0 == (#[trigger] all[i]).1 by {
        if j < c.pieces.len() {
            assert(all[i] == c.pieces[i] && all[j] == c.pieces[j]);
        } else {
            assert(all[i] == c.pieces.last());
        }
    }
}

/// Number of lines that open or close a fenced code block: those that begin, after white
/// space, with three backquotes.
pub open spec fn fence_count(lines: Seq<Seq<char>>) -> nat {
    lines.filter(|line: Seq<char>| "```"@.is_prefix_of(text::trimmed(line))).len()
}

proof fn lemma_fences(lines: Seq<Seq<char>>, k: int)
    requires
        0 <= k <= lines.len(),
    ensures
        fenced(lines, k) <==> fence_count(lines.take(k)) % 2 == 1,
    decreases k,
{
    reveal(Seq::filter);
    if k > 0 {
        lemma_fences(lines, k - 1);
        assert(lines.take(k).drop_last() =~= lines.take(k - 1));
        assert(lines.take(k).last() == lines[k - 1]);
    }
}

/// A section begins at a line exactly if the line begins, after white space, with a number
/// sign and the number of fences up to it is even: what looks like a heading inside of a
/// fenced code block is none.
pub proof fn sections_begin_outside_of_fences(lines: Seq<Seq<char>>, n: int, k: int)
    requires
        0 <= k < n <= lines.len(),
    ensures
        headings(lines, n).contains(k) <==> {
            &&& text::trimmed(lines[k]).len() > 0
            &&& text::trimmed(lines[k])[0] == '#'
            &&& fence_count(lines.take(k + 1)) % 2 == 0
        },
    decreases n,
{
    lemma_fences(lines, k + 1);
    headings_are_in_order(lines, n - 1);
    let before = headings(lines, n - 1);
    let all = headings(lines, n);
    if k < n - 1 {
        sections_begin_outside_of_fences(lines, n - 1, k);
        if before.contains(k) {
            let i = choose|i: int| 0 <= i < before.len() && before[i] == k;
            assert(all[i] == k);
        }
        if all.contains(k) {
            let i = choose|i: int| 0 <= i < all.len() && all[i] == k;
            assert(before[i] == k);
        }
    } else {
        if all.contains(k) {
            let i = choose|i: int| 0 <= i < all.len() && all[i] == k;
            if i < before.len() {
                assert(before[i] == k);
            }
        }
        if !fenced(lines, n) && begins_with(lines[n - 1], '#') {
            assert(all[before.len() as int] == k);
        }
    }
}

/// The line after the last one of the section that begins at the heading at position `i`:
/// the next heading, or the end of the document.
pub open spec fn section_end(lines: Seq<Seq<char>>, i: int) -> int {
    let starts = headings(lines, lines.len() as int);
    if i + 1 < starts.len() {
        starts[i + 1]
    } else {
        lines.len() as int
    }
}

/// A document whose sections all fit the target has one chunk for each heading, which goes
/// from the heading to the line before the next one and is named by it. In particular no
/// chunk begins strictly inside of a fenced code block.
pub proof fn sections_that_fit_are_chunks(
    source: Seq<char>,
    config: PartitionConfigView,
    file_path: Seq<char>,
    catalog: Seq<char>,
)
    requires
        ({
            let lines = text::lines(source);
            let starts = headings(lines, lines.len() as int);
            &&& starts.len() > 0
            &&& forall|i: int|
                0 <= i < starts.len() ==> {
                    let body = text::join(
                        lines.subrange(#[trigger] starts[i], section_end(lines, i)),
                        seq!['\n'],
                    );
                    text::byte_len(body) <= config.target_size && !text::blank(body)
                }
        }),
    ensures
        ({
            let lines = text::lines(source);
            let starts = headings(lines, lines.len() as int);
            let chunks = document_chunks(source, config, file_path, catalog);
            &&& chunks.len() == starts.len()
            &&& forall|i: int|
                0 <= i < starts.len() ==> {
                    let chunk = #[trigger] chunks[i];
                    &&& chunk.start_line == starts[i] + 1
                    &&& chunk.end_line == section_end(lines, i)
                    &&& chunk.text == text::join(
                        lines.subrange(starts[i], section_end(lines, i)),
                        seq!['\n'],
                    )
                    &&& chunk.symbol_name == heading_text(lines[starts[i]])
                    &&& chunk.chunk_type == "section"@
                    &&& chunk.chunk_kind == "content"@
                    &&& chunk.source_uri == file_path
                    &&& chunk.catalog == catalog
                    &&& chunk.content_hash == ids::content_hash(source)
                    &&& chunk.split_part_ordinal is None
                    &&& chunk.split_part_count is None
                    &&& fence_count(lines.take(chunk.start_line - 1)) % 2 == 0
                }
        }),
{
    let lines = text::lines(source);
    let starts = headings(lines, lines.len() as int);
    let origin = Origin { file_path, catalog, content_hash: ids::content_hash(source) };
    let base = partition::base_breadcrumb(config.package_name, config.file_name);
    headings_are_in_order(lines, lines.len() as int);
    lemma_sections_that_fit(origin, base, lines, config.target_size, starts.len() as int);
    let chunks = document_chunks(source, config, file_path, catalog);
    assert forall|i: int| 0 <= i < starts.len() implies fence_count(
        lines.take((#[trigger] chunks[i]).start_line - 1),
    ) % 2 == 0 by {
        let k = starts[i];
        assert(starts.contains(k));
        sections_begin_outside_of_fences(lines, lines.len() as int, k);
        lemma_fences(lines, k + 1);
        lemma_fences(lines, k);
        reveal_strlit("```");
        if fence(lines[k]) {
            assert("```"@[0] == text::trimmed(lines[k])[0]);
        }
    }
}

proof fn lemma_sections_that_fit(
    origin: Origin,
    base: Seq<char>,
    lines: Seq<Seq<char>>,
    target: int,
    k: int,
)
    requires
        ({
            let starts = headings(lines, lines.len() as int);
            &&& 0 <= k <= starts.len()
            &&& forall|i: int|
                0 <= i < starts.len() ==> {
                    let body = text::join(
                        lines.subrange(#[trigger] starts[i], section_end(lines, i)),
                        seq!['\n'],
                    );
                    text::byte_len(body) <= target && !text::blank(body)
                }
        }),
    ensures
        ({
            let starts = headings(lines, lines.len() as int);
            let boundaries = starts.push(lines.len() as int);
            let chunks = sections(origin, base, lines, boundaries, target, k).chunks;
            &&& chunks.len() == k
            &&& forall|i: int|
                0 <= i < k ==> {
                    let chunk = #[trigger] chunks[i];
                    &&& chunk.start_line == starts[i] + 1
                    &&& chunk.end_line == section_end(lines, i)
                    &&& chunk.text == text::join(
                        lines.subrange(starts[i], section_end(lines, i)),
                        seq!['\n'],
                    )
                    &&& chunk.symbol_name == heading_text(lines[starts[i]])
                    &&& chunk.chunk_type == "section"@
                    &&& chunk.chunk_kind == "content"@
                    &&& chunk.source_uri == origin.file_path
                    &&& chunk.catalog == origin.catalog
                    &&& chunk.content_hash == origin.content_hash
                    &&& chunk.split_part_ordinal is None
                    &&& chunk.split_part_count is None
                }
        }),
    decreases k,
{
    let starts = headings(lines, lines.len() as int);
    let boundaries = starts.push(lines.len() as int);
    headings_are_in_order(lines, lines.len() as int);
    if k > 0 {
        lemma_sections_that_fit(origin, base, lines, target, k - 1);
        assert(starts[k - 1] == boundaries[k - 1]);
        assert(section_end(lines, k - 1) == boundaries[k]);
        let before = sections(origin, base, lines, boundaries, target, k - 1).chunks;
        let chunks = sections(origin, base, lines, boundaries, target, k).chunks;
        let section = lines.subrange(starts[k - 1], section_end(lines, k - 1));
        assert(section[0] == lines[starts[k - 1]]);
        assert forall|i: int| 0 <= i < k - 1 implies #[trigger] chunks[i] == before[i] by {}
    }
}

/// A document without headings is one chunk, with all its lines, unless there is nothing
/// but white space in it.
pub proof fn documents_without_headings_stay_whole(
    source: Seq<char>,
    config: PartitionConfigView,
    file_path: Seq<char>,
    catalog: Seq<char>,
)
    requires
        forall|k: int|
            0 <= k < text::lines(source).len() ==> {
                let line = text::trimmed(#[trigger] text::lines(source)[k]);
                line.len() > 0 && line[0] == '#' ==> fence_count(text::lines(source).take(k + 1))
                    % 2 == 1
            },
    ensures
        ({
            let whole = text::join(text::lines(source), seq!['\n']);
            let chunks = document_chunks(source, config, file_path, catalog);
            if text::blank(whole) {
                chunks.len() == 0
            } else {
                &&& chunks.len() == 1
                &&& chunks[0].text == whole
                &&& chunks[0].start_line == 1
                &&& chunks[0].end_line == text::lines(source).len()
                &&& chunks[0].chunk_type == "markdown"@
                &&& chunks[0].chunk_kind == "content"@
                &&& chunks[0].symbol_name is None
                &&& chunks[0].source_uri == file_path
                &&& chunks[0].catalog == catalog
            }
        }),
{
    let lines = text::lines(source);
    let n = lines.len() as int;
    headings_are_in_order(lines, n);
    if headings(lines, n).len() > 0 {
        let k = headings(lines, n)[0];
        assert(headings(lines, n).contains(k));
        sections_begin_outside_of_fences(lines, n, k);
        assert(text::trimmed(lines[k])[0] == '#');
    }
}

/// Bytes of the lines from `from` on, before `to`, with a line feed for each.
pub open spec fn block_size(lines: Seq<Seq<char>>, from: int, to: int) -> int
    decreases to - from,
{
    if to <= from {
        0
    } else {
        block_size(lines, from, to - 1) + text::byte_len(lines[to - 1]) + 1
    }
}

proof fn lemma_cut_sizes(lines: Seq<Seq<char>>, target: int, gentle: bool, k: int)
    requires
        0 <= k <= lines.len(),
    ensures
        ({
            let c = cuts(lines, target, gentle, k);
            &&& c.size == block_size(lines, c.start, k)
            &&& !gentle ==> c.size <= target || k - c.start <= 1
            &&& c.start < k || k == 0
            &&& c.start == 0 || 0 < c.start < lines.len()
            &&& forall|i: int|
                0 <= i < c.pieces.len() ==> {
                    let (from, to) = #[trigger] c.pieces[i];
                    &&& 0 <= from < to < lines.len()
                    &&& block_size(lines, from, to) + text::byte_len(lines[to]) + 1 > target
                    &&& !gentle ==> block_size(lines, from, to) <= target || to - from == 1
                    &&& gentle ==> gentle_break(lines, to)
                }
        }),
    decreases k,
{
    if k > 0 {
        lemma_cut_sizes(lines, target, gentle, k - 1);
        lemma_cuts(lines, target, gentle, k - 1);
        let before = cuts(lines, target, gentle, k - 1);
        let c = cuts(lines, target, gentle, k);
        assert(block_size(lines, k - 1, k - 1) == 0);
        assert forall|i: int| 0 <= i < c.pieces.len() implies {
            let (from, to) = #[trigger] c.pieces[i];
            &&& 0 <= from < to < lines.len()
            &&& block_size(lines, from, to) + text::byte_len(lines[to]) + 1 > target
            &&& !gentle ==> block_size(lines, from, to) <= target || to - from == 1
            &&& gentle ==> gentle_break(lines, to)
        } by {
            if i < before.pieces.len() {
                assert(c.pieces[i] == before.pieces[i]);
            }
        }
    }
}

/// A section that is cut line by line is cut as late as possible: each piece with its line
/// feeds has at most the target size, or a single line, and every piece but the last would
/// be larger than the target with the next line.
pub proof fn line_pieces_are_filled(lines: Seq<Seq<char>>, target: int, i: int)
    requires
        0 <= i < pieces(lines, target, false).len(),
    ensures
        ({
            let cut = pieces(lines, target, false);
            let (from, to) = cut[i];
            &&& block_size(lines, from, to) <= target || to - from == 1
            &&& i + 1 < cut.len() ==> block_size(lines, from, to + 1) > target
        }),
{
    let n = lines.len() as int;
    lemma_cut_sizes(lines, target, false, n);
    let c = cuts(lines, target, false, n);
    if i < c.pieces.len() {
        assert(pieces(lines, target, false)[i] == c.pieces[i]);
    }
}

/// A section that is cut gently is cut only where a piece would be larger than the target
/// with the next line, and only before a line that is empty, opens or closes a code block,
/// or begins a quote or a list item, with an even number of fences up to that line.
pub proof fn gentle_pieces_end_between_paragraphs(lines: Seq<Seq<char>>, target: int, i: int)
    requires
        0 <= i < pieces(lines, target, true).len() - 1,
    ensures
        ({
            let (from, to) = pieces(lines, target, true)[i];
            let line = text::trimmed(lines[to]);
            &&& 0 <= from < to < lines.len()
            &&& block_size(lines, from, to + 1) > target
            &&& fence_count(lines.take(to + 1)) % 2 == 0
            &&& {
                ||| text::blank(lines[to])
                ||| "```"@.is_prefix_of(line)
                ||| line.len() > 0 && (line[0] == '>' || line[0] == '-' || line[0] == '*')
            }
        }),
{
    let n = lines.len() as int;
    lemma_cut_sizes(lines, target, true, n);
    let c = cuts(lines, target, true, n);
    assert(pieces(lines, target, true)[i] == c.pieces[i]);
    let (from, to) = c.pieces[i];
    lemma_fences(lines, to + 1);
}

/// What holds of every chunk of a document: it has the text of its lines, it comes from the
/// given file, and where it is part of a divided section it knows which one of how many.
pub open spec fn is_document_chunk(
    chunk: PartitionedChunkView,
    lines: Seq<Seq<char>>,
    origin: Origin,
) -> bool {
    &&& 1 <= chunk.start_line <= chunk.end_line <= lines.len()
    &&& chunk.text == text::join(
        lines.subrange(chunk.start_line - 1, chunk.end_line),
        seq!['\n'],
    )
    &&& chunk.source_uri == origin.file_path
    &&& chunk.catalog == origin.catalog
    &&& chunk.content_hash == origin.content_hash
    &&& chunk.chunk_kind == "content"@
    &&& chunk.chunk_type == "section"@ || chunk.chunk_type == "markdown"@
    &&& chunk.split_part_ordinal is Some <==> chunk.split_part_count is Some
    &&& chunk.split_part_ordinal is Some ==> chunk.symbol_name is None
}

proof fn lemma_piece_chunks(
    origin: Origin,
    breadcrumb: Seq<char>,
    all: Seq<Seq<char>>,
    start: int,
    end: int,
    cut: Seq<(int, int)>,
    chunk_type: Seq<char>,
    skip_blank: bool,
    k: int,
    i: int,
)
    requires
        0 <= start < end <= all.len(),
        0 <= k <= cut.len(),
        pieces_tile(cut, end - start),
        chunk_type == "section"@ || chunk_type == "markdown"@,
        0 <= i < piece_chunks(
            origin,
            breadcrumb,
            all.subrange(start, end),
            start + 1,
            cut,
            chunk_type,
            skip_blank,
            k,
        ).len(),
    ensures
        is_document_chunk(
            piece_chunks(
                origin,
                breadcrumb,
                all.subrange(start, end),
                start + 1,
                cut,
                chunk_type,
                skip_blank,
                k,
            )[i],
            all,
            origin,
        ),
    decreases k,
{
    let lines = all.subrange(start, end);
    let before = piece_chunks(
        origin,
        breadcrumb,
        lines,
        start + 1,
        cut,
        chunk_type,
        skip_blank,
        k - 1,
    );
    if i < before.len() {
        lemma_piece_chunks(
            origin,
            breadcrumb,
            all,
            start,
            end,
            cut,
            chunk_type,
            skip_blank,
            k - 1,
            i,
        );
    } else {
        let (from, to) = cut[k - 1];
        lemma_cut_within(cut, end - start, k - 1);
        assert(lines.subrange(from, to) =~= all.subrange(start + from, start + to));
    }
}

proof fn lemma_cut_within(cut: Seq<(int, int)>, n: int, i: int)
    requires
        pieces_tile(cut, n),
        0 <= i < cut.len(),
    ensures
        0 <= cut[i].0 < cut[i].1 <= n,
{
    lemma_cut_from(cut, n, i);
    lemma_cut_to(cut, n, i);
    assert(cut[i].0 < cut[i].1);
}

proof fn lemma_cut_from(cut: Seq<(int, int)>, n: int, i: int)
    requires
        pieces_tile(cut, n),
        0 <= i < cut.len(),
    ensures
        0 <= cut[i].0,
    decreases i,
{
    if i > 0 {
        lemma_cut_from(cut, n, i - 1);
        assert(cut[i].0 == cut[i - 1].1);
        assert(cut[i - 1].0 < cut[i - 1].1);
    }
}

proof fn lemma_cut_to(cut: Seq<(int, int)>, n: int, i: int)
    requires
        pieces_tile(cut, n),
        0 <= i < cut.len(),
    ensures
        cut[i].1 <= n,
    decreases cut.len() - i,
{
    if i < cut.len() - 1 {
        lemma_cut_to(cut, n, i + 1);
        assert(cut[i + 1].0 == cut[i].1);
        assert(cut[i + 1].0 < cut[i + 1].1);
    }
}

/// Every chunk of a document has the text of its lines and comes from the given file; only
/// chunks of divided sections are numbered, and these have no heading of their own.
pub proof fn chunks_are_the_text_of_their_lines(
    source: Seq<char>,
    config: PartitionConfigView,
    file_path: Seq<char>,
    catalog: Seq<char>,
    i: int,
)
    requires
        0 <= i < document_chunks(source, config, file_path, catalog).len(),
    ensures
        is_document_chunk(
            document_chunks(source, config, file_path, catalog)[i],
            text::lines(source),
            (Origin { file_path, catalog, content_hash: ids::content_hash(source) }),
        ),
{
    let lines = text::lines(source);
    let n = lines.len() as int;
    let origin = Origin { file_path, catalog, content_hash: ids::content_hash(source) };
    let base = partition::base_breadcrumb(config.package_name, config.file_name);
    let starts = headings(lines, n);
    headings_are_in_order(lines, n);
    if starts.len() > 0 {
        lemma_section_chunks(
            origin,
            base,
            lines,
            starts.push(n),
            config.target_size,
            starts.len() as int,
            i,
        );
    } else {
        assert(lines.subrange(0, n) =~= lines);
        if n == 0 {
            assert(text::join(lines, seq!['\n']) =~= Seq::empty());
        }
    }
}

proof fn lemma_section_chunks(
    origin: Origin,
    base: Seq<char>,
    lines: Seq<Seq<char>>,
    boundaries: Seq<int>,
    target: int,
    k: int,
    i: int,
)
    requires
        0 <= k < boundaries.len(),
        forall|j: int| 0 <= j < boundaries.len() ==> 0 <= #[trigger] boundaries[j] <= lines.len(),
        forall|a: int, b: int|
            0 <= a < b < boundaries.len() ==> #[trigger] boundaries[a] < #[trigger] boundaries[b],
        0 <= i < sections(origin, base, lines, boundaries, target, k).chunks.len(),
    ensures
        is_document_chunk(
            sections(origin, base, lines, boundaries, target, k).chunks[i],
            lines,
            origin,
        ),
    decreases k,
{
    if k > 0 {
        let before = sections(origin, base, lines, boundaries, target, k - 1);
        let all = sections(origin, base, lines, boundaries, target, k);
        if i < before.chunks.len() {
            lemma_section_chunks(origin, base, lines, boundaries, target, k - 1, i);
            assert(all.chunks[i] == before.chunks[i]);
        } else {
            let (start, end) = (boundaries[k - 1], boundaries[k]);
            let section = lines.subrange(start, end);
            let body = text::join(section, seq!['\n']);
            let j = i - before.chunks.len();
            let breadcrumb = section_breadcrumb(base, heading_text(section[0]), before.slugs);
            if text::byte_len(body) > target {
                pieces_tile_the_section(section, target, true);
                pieces_tile_the_section(section, target, false);
                let gentle = pieces(section, target, true);
                let plain = pieces(section, target, false);
                let own = oversized_chunks(origin, breadcrumb, section, start + 1, target);
                assert(all.chunks[i] == own[j]);
                if gentle.len() == 1 {
                    lemma_piece_chunks(
                        origin,
                        breadcrumb,
                        lines,
                        start,
                        end,
                        plain,
                        "markdown"@,
                        false,
                        plain.len() as int,
                        j,
                    );
                } else {
                    lemma_piece_chunks(
                        origin,
                        breadcrumb,
                        lines,
                        start,
                        end,
                        gentle,
                        "section"@,
                        true,
                        gentle.len() as int,
                        j,
                    );
                }
            }
        }
    }
}

/// The parts of a divided section are numbered from one in the order of the pieces, and each
/// knows how many pieces there are.
pub proof fn parts_of_a_section_are_numbered(
    origin: Origin,
    breadcrumb: Seq<char>,
    lines: Seq<Seq<char>>,
    start_line: int,
    cut: Seq<(int, int)>,
    chunk_type: Seq<char>,
    i: int,
)
    requires
        cut.len() <= usize::MAX,
        0 <= i < cut.len(),
    ensures
        ({
            let chunks = piece_chunks(
                origin,
                breadcrumb,
                lines,
                start_line,
                cut,
                chunk_type,
                false,
                cut.len() as int,
            );
            &&& chunks.len() == cut.len()
            &&& chunks[i].split_part_ordinal == Some((i + 1) as usize)
            &&& chunks[i].split_part_count == Some(cut.len() as usize)
            &&& chunks[i].start_line == start_line + cut[i].0
            &&& chunks[i].end_line == start_line + cut[i].1 - 1
            &&& chunks[i].breadcrumb == breadcrumb
            &&& chunks[i].chunk_type == chunk_type
        }),
{
    lemma_numbered_pieces(
        origin,
        breadcrumb,
        lines,
        start_line,
        cut,
        chunk_type,
        cut.len() as int,
        i,
    );
}

proof fn lemma_numbered_pieces(
    origin: Origin,
    breadcrumb: Seq<char>,
    lines: Seq<Seq<char>>,
    start_line: int,
    cut: Seq<(int, int)>,
    chunk_type: Seq<char>,
    k: int,
    i: int,
)
    requires
        0 <= k <= cut.len(),
    ensures
        ({
            let chunks = piece_chunks(
                origin,
                breadcrumb,
                lines,
                start_line,
                cut,
                chunk_type,
                false,
                k,
            );
            &&& chunks.len() == k
            &&& 0 <= i < k ==> {
                &&& chunks[i].split_part_ordinal == Some((i + 1) as usize)
                &&& chunks[i].split_part_count == Some(cut.len() as usize)
                &&& chunks[i].start_line == start_line + cut[i].0
                &&& chunks[i].end_line == start_line + cut[i].1 - 1
                &&& chunks[i].breadcrumb == breadcrumb
                &&& chunks[i].chunk_type == chunk_type
            }
        }),
    decreases k,
{
    if k > 0 {
        lemma_numbered_pieces(
            origin,
            breadcrumb,
            lines,
            start_line,
            cut,
            chunk_type,
            k - 1,
            i,
        );
    }
}

/// A heading is called by what stands behind its number signs.
pub proof fn headings_are_called_by_their_text(marks: nat, title: Seq<char>)
    requires
        marks > 0,
        title.len() > 0,
        title[0] != '#',
        !text::whitespace(title[0]),
        !text::whitespace(title.last()),
    ensures
        heading_text(Seq::new(marks, |i: int| '#') + seq![' '] + title) == Some(title),
{
    let hashes = Seq::new(marks, |i: int| '#');
    let line = hashes + seq![' '] + title;
    let behind = seq![' '] + title;
    assert(line =~= hashes + behind);
    assert(line[0] == '#' && line.last() == title.last());
    assert(text::trim_start(line) == line);
    assert(text::trimmed(line) == line);
    lemma_stripped(marks, behind);
    assert(behind[0] == ' ');
    assert(behind.drop_first() =~= title);
    assert(text::trim_start(title) == title);
    assert(text::trim_start(behind) == title);
}

proof fn lemma_stripped(marks: nat, behind: Seq<char>)
    requires
        behind.len() > 0,
        behind[0] != '#',
    ensures
        text::strip_leading(Seq::new(marks, |i: int| '#') + behind, '#') == behind,
    decreases marks,
{
    let line = Seq::new(marks, |i: int| '#') + behind;
    if marks > 0 {
        lemma_stripped((marks - 1) as nat, behind);
        assert(line[0] == '#');
        assert(line.drop_first() =~= Seq::new((marks - 1) as nat, |i: int| '#') + behind);
    } else {
        assert(line =~= behind);
    }
}

/// A line lies in one of the chunks.
pub open spec fn holds_line(chunks: Seq<PartitionedChunkView>, line: int) -> bool {
    exists|i: int|
        0 <= i < chunks.len() && (#[trigger] chunks[i]).start_line <= line <= chunks[i].end_line
}

proof fn lemma_piece_of_line(
    origin: Origin,
    breadcrumb: Seq<char>,
    lines: Seq<Seq<char>>,
    start_line: int,
    cut: Seq<(int, int)>,
    chunk_type: Seq<char>,
    skip_blank: bool,
    k: int,
    p: int,
)
    requires
        pieces_tile(cut, lines.len() as int),
        0 < k <= cut.len(),
        0 <= p < cut[k - 1].1,
        p < lines.len(),
        !text::blank(lines[p]),
    ensures
        holds_line(
            piece_chunks(
                origin,
                breadcrumb,
                lines,
                start_line,
                cut,
                chunk_type,
                skip_blank,
                k,
            ),
            start_line + p,
        ),
    decreases k,
{
    let before = piece_chunks(
        origin,
        breadcrumb,
        lines,
        start_line,
        cut,
        chunk_type,
        skip_blank,
        k - 1,
    );
    let all = piece_chunks(
        origin,
        breadcrumb,
        lines,
        start_line,
        cut,
        chunk_type,
        skip_blank,
        k,
    );
    let (from, to) = cut[k - 1];
    lemma_cut_within(cut, lines.len() as int, k - 1);
    if from <= p {
        partition::lemma_not_blank(lines.subrange(from, to), p - from);
        assert(all.last().start_line <= start_line + p <= all.last().end_line);
        assert(all[all.len() - 1] == all.last());
    } else {
        assert(k > 1);
        assert(cut[k - 1].0 == cut[k - 2].1);
        lemma_piece_of_line(
            origin,
            breadcrumb,
            lines,
            start_line,
            cut,
            chunk_type,
            skip_blank,
            k - 1,
            p,
        );
        let i = choose|i: int|
            0 <= i < before.len() && (#[trigger] before[i]).start_line <= start_line + p
                <= before[i].end_line;
        assert(all[i] == before[i]);
    }
}

proof fn lemma_section_of_line(
    origin: Origin,
    base: Seq<char>,
    lines: Seq<Seq<char>>,
    boundaries: Seq<int>,
    target: int,
    k: int,
    p: int,
)
    requires
        0 <= k < boundaries.len(),
        forall|j: int| 0 <= j < boundaries.len() ==> 0 <= #[trigger] boundaries[j] <= lines.len(),
        forall|a: int, b: int|
            0 <= a < b < boundaries.len() ==> #[trigger] boundaries[a] < #[trigger] boundaries[b],
        boundaries[0] <= p < boundaries[k],
        !text::blank(lines[p]),
    ensures
        holds_line(sections(origin, base, lines, boundaries, target, k).chunks, p + 1),
    decreases k,
{
    let before = sections(origin, base, lines, boundaries, target, k - 1);
    let all = sections(origin, base, lines, boundaries, target, k);
    let (start, end) = (boundaries[k - 1], boundaries[k]);
    let section = lines.subrange(start, end);
    let body = text::join(section, seq!['\n']);
    if p < start {
        lemma_section_of_line(origin, base, lines, boundaries, target, k - 1, p);
        let i = choose|i: int|
            0 <= i < before.chunks.len() && (#[trigger] before.chunks[i]).start_line <= p + 1
                <= before.chunks[i].end_line;
        assert(all.chunks[i] == before.chunks[i]);
    } else {
        partition::lemma_not_blank(section, p - start);
        let breadcrumb = section_breadcrumb(base, heading_text(section[0]), before.slugs);
        let skipped = before.chunks.len() as int;
        if text::byte_len(body) > target {
            pieces_tile_the_section(section, target, true);
            pieces_tile_the_section(section, target, false);
            let gentle = pieces(section, target, true);
            let plain = pieces(section, target, false);
            let own = oversized_chunks(origin, breadcrumb, section, start + 1, target);
            if gentle.len() == 1 {
                lemma_piece_of_line(
                    origin,
                    breadcrumb,
                    section,
                    start + 1,
                    plain,
                    "markdown"@,
                    false,
                    plain.len() as int,
                    p - start,
                );
            } else {
                lemma_piece_of_line(
                    origin,
                    breadcrumb,
                    section,
                    start + 1,
                    gentle,
                    "section"@,
                    true,
                    gentle.len() as int,
                    p - start,
                );
            }
            assert(holds_line(own, p + 1));
            let i = choose|i: int|
                0 <= i < own.len() && (#[trigger] own[i]).start_line <= p + 1 <= own[i].end_line;
            assert(all.chunks[skipped + i] == own[i]);
        } else {
            assert(all.chunks[skipped].start_line == start + 1);
        }
    }
}

/// No text below the first heading is lost: every line there that is not blank lies in a chunk. In
/// a document without headings this holds of all lines.
pub proof fn every_line_with_text_is_in_a_chunk(
    source: Seq<char>,
    config: PartitionConfigView,
    file_path: Seq<char>,
    catalog: Seq<char>,
    line: int,
)
    requires
        1 <= line <= text::lines(source).len(),
        !text::blank(text::lines(source)[line - 1]),
        ({
            let starts = headings(text::lines(source), text::lines(source).len() as int);
            starts.len() > 0 ==> starts[0] < line
        }),
    ensures
        holds_line(document_chunks(source, config, file_path, catalog), line),
{
    let lines = text::lines(source);
    let n = lines.len() as int;
    let origin = Origin { file_path, catalog, content_hash: ids::content_hash(source) };
    let base = partition::base_breadcrumb(config.package_name, config.file_name);
    let starts = headings(lines, n);
    headings_are_in_order(lines, n);
    if starts.len() > 0 {
        lemma_section_of_line(
            origin,
            base,
            lines,
            starts.push(n),
            config.target_size,
            starts.len() as int,
            line - 1,
        );
    } else {
        partition::lemma_not_blank(lines, line - 1);
        let chunks = document_chunks(source, config, file_path, catalog);
        assert(chunks[0].start_line <= line <= chunks[0].end_line);
    }
}

proof fn lemma_piece_names(
    origin: Origin,
    breadcrumb: Seq<char>,
    lines: Seq<Seq<char>>,
    start_line: int,
    cut: Seq<(int, int)>,
    chunk_type: Seq<char>,
    skip_blank: bool,
    k: int,
)
    ensures
        ({
            let chunks = piece_chunks(
                origin,
                breadcrumb,
                lines,
                start_line,
                cut,
                chunk_type,
                skip_blank,
                k,
            );
            forall|i: int|
                0 <= i < chunks.len() ==> (#[trigger] chunks[i]).symbol_name is None
                    && chunks[i].breadcrumb == breadcrumb && chunks[i].chunk_type == chunk_type
        }),
    decreases k,
{
    if k > 0 {
        lemma_piece_names(
            origin,
            breadcrumb,
            lines,
            start_line,
            cut,
            chunk_type,
            skip_blank,
            k - 1,
        );
    }
}

/// The pieces of a section that is too large go by the section's breadcrumb. They are parts of the
/// section where it can be divided between paragraphs, and mere text where it cannot.
pub proof fn pieces_go_by_their_section(
    origin: Origin,
    breadcrumb: Seq<char>,
    lines: Seq<Seq<char>>,
    start_line: int,
    target: int,
    i: int,
)
    requires
        lines.len() > 0,
        text::byte_len(text::join(lines, seq!['\n'])) > target,
        0 <= i < oversized_chunks(origin, breadcrumb, lines, start_line, target).len(),
    ensures
        ({
            let chunk = oversized_chunks(origin, breadcrumb, lines, start_line, target)[i];
            &&& chunk.breadcrumb == breadcrumb
            &&& chunk.symbol_name is None
            &&& pieces(lines, target, true).len() > 1 ==> chunk.chunk_type == "section"@
            &&& pieces(lines, target, true).len() == 1 ==> chunk.chunk_type == "markdown"@
        }),
{
    let gentle = pieces(lines, target, true);
    let plain = pieces(lines, target, false);
    pieces_tile_the_section(lines, target, true);
    lemma_piece_names(
        origin,
        breadcrumb,
        lines,
        start_line,
        gentle,
        "section"@,
        true,
        gentle.len() as int,
    );
    lemma_piece_names(
        origin,
        breadcrumb,
        lines,
        start_line,
        plain,
        "markdown"@,
        false,
        plain.len() as int,
    );
}

/// The chunk goes by the document's breadcrumb and one of the slugs.
pub open spec fn named_by(
    chunk: PartitionedChunkView,
    base: Seq<char>,
    slugs: Set<Seq<char>>,
) -> bool {
    exists|slug: Seq<char>| #[trigger]
        slugs.contains(slug) && chunk.breadcrumb == base + seq![':'] + slug
}

proof fn lemma_section_names(
    origin: Origin,
    base: Seq<char>,
    lines: Seq<Seq<char>>,
    boundaries: Seq<int>,
    target: int,
    k: int,
)
    requires
        0 <= k < boundaries.len(),
        forall|j: int| 0 <= j < boundaries.len() ==> 0 <= #[trigger] boundaries[j] <= lines.len(),
        forall|a: int, b: int|
            0 <= a < b < boundaries.len() ==> #[trigger] boundaries[a] < #[trigger] boundaries[b],
    ensures
        ({
            let all = sections(origin, base, lines, boundaries, target, k);
            &&& all.slugs.finite()
            &&& forall|i: int|
                0 <= i < all.chunks.len() && (#[trigger] all.chunks[i]).symbol_name is Some
                    ==> named_by(all.chunks[i], base, all.slugs)
            &&& forall|i: int, j: int|
                0 <= i < j < all.chunks.len() && (#[trigger] all.chunks[i]).symbol_name is Some && (
                #[trigger] all.chunks[j]).symbol_name is Some ==> all.chunks[i].breadcrumb
                    != all.chunks[j].breadcrumb
        }),
    decreases k,
{
    if k > 0 {
        lemma_section_names(origin, base, lines, boundaries, target, k - 1);
        let before = sections(origin, base, lines, boundaries, target, k - 1);
        let all = sections(origin, base, lines, boundaries, target, k);
        let (start, end) = (boundaries[k - 1], boundaries[k]);
        let section = lines.subrange(start, end);
        let body = text::join(section, seq!['\n']);
        let heading = heading_text(section[0]);
        let breadcrumb = section_breadcrumb(base, heading, before.slugs);
        let n = before.chunks.len() as int;
        if !text::blank(body) {
            if heading is Some {
                breadcrumb::slugs_are_never_repeated(before.slugs, heading->0);
            }
            if text::byte_len(body) > target {
                assert forall|i: int| n <= i < all.chunks.len() implies (
                #[trigger] all.chunks[i]).symbol_name is None by {
                    pieces_go_by_their_section(
                        origin,
                        breadcrumb,
                        section,
                        start + 1,
                        target,
                        i - n,
                    );
                }
            }
            assert forall|i: int|
                0 <= i < all.chunks.len() && (
                #[trigger] all.chunks[i]).symbol_name is Some implies named_by(
                all.chunks[i],
                base,
                all.slugs,
            ) by {
                if i < n {
                    assert(all.chunks[i] == before.chunks[i]);
                    let slug = choose|slug: Seq<char>| #[trigger]
                        before.slugs.contains(slug) && before.chunks[i].breadcrumb == base
                            + seq![':'] + slug;
                    assert(all.slugs.contains(slug));
                } else {
                    assert(all.slugs.contains(breadcrumb::next_slug(before.slugs, heading->0)));
                }
            }
            assert forall|i: int, j: int|
                0 <= i < j < all.chunks.len() && (#[trigger] all.chunks[i]).symbol_name is Some && (
                #[trigger] all.chunks[j]).symbol_name is Some implies all.chunks[i].breadcrumb
                != all.chunks[j].breadcrumb by {
                assert(all.chunks[i] == before.chunks[i]);
                if j < n {
                    assert(all.chunks[j] == before.chunks[j]);
                } else {
                    let slug = choose|slug: Seq<char>| #[trigger]
                        before.slugs.contains(slug) && before.chunks[i].breadcrumb == base
                            + seq![':'] + slug;
                    let next = breadcrumb::next_slug(before.slugs, heading->0);
                    let (a, b) = (base + seq![':'] + slug, base + seq![':'] + next);
                    if a == b {
                        assert(a.skip(base.len() as int + 1) =~= slug);
                        assert(b.skip(base.len() as int + 1) =~= next);
                    }
                }
            }
        }
    }
}

/// No two sections of a document with headings go by the same breadcrumb, however often a heading
/// is repeated.
pub proof fn sections_have_breadcrumbs_of_their_own(
    source: Seq<char>,
    config: PartitionConfigView,
    file_path: Seq<char>,
    catalog: Seq<char>,
    i: int,
    j: int,
)
    requires
        0 <= i < j < document_chunks(source, config, file_path, catalog).len(),
        document_chunks(source, config, file_path, catalog)[i].symbol_name is Some,
        document_chunks(source, config, file_path, catalog)[j].symbol_name is Some,
    ensures
        document_chunks(source, config, file_path, catalog)[i].breadcrumb != document_chunks(
            source,
            config,
            file_path,
            catalog,
        )[j].breadcrumb,
{
    let lines = text::lines(source);
    let n = lines.len() as int;
    let origin = Origin { file_path, catalog, content_hash: ids::content_hash(source) };
    let base = partition::base_breadcrumb(config.package_name, config.file_name);
    let starts = headings(lines, n);
    headings_are_in_order(lines, n);
    lemma_section_names(
        origin,
        base,
        lines,
        starts.push(n),
        config.target_size,
        starts.len() as int,
    );
}

}
