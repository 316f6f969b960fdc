//! Chunks: the parts of a file as they are stored and searched.
use crate::breadcrumb;
use crate::breadcrumb::encode_path_component;
use crate::config;
use crate::config::{get_chunk_strategy, strategy_from_name, ChunkingStrategy};
use crate::crawl_config;
use crate::grammar;
use crate::ids;
use crate::ids::{compute_file_id, compute_hash, compute_point_id, CHUNKER_ID, EMBEDDER_ID};
use crate::markdown_partitioner;
use crate::markdown_partitioner::partition_markdown;
use crate::partitioner::partition;
use crate::partitioner::partition::partition_typescript;
use crate::partitioner::types;
use crate::partitioner::types::{
    PartitionConfig, PartitionConfigView, PartitionedChunk, PartitionedChunkView,
};
use crate::paths;
use crate::syntax;
use crate::text;
use vstd::prelude::*;

verus! {

/// A part of a file, with all that is stored of it.
#[derive(Debug, Clone)]
pub struct Chunk {
    /// Text of the chunk.
    pub text: String,
    /// Where the file is found.
    pub source_uri: String,
    /// What the file is; all files are code so far.
    pub source_type: String,
    /// Name of the catalog.
    pub catalog: String,
    /// Hash of the file's content.
    pub content_hash: String,
    /// First line, counted from one.
    pub start_line: usize,
    /// Last line.
    pub end_line: usize,
    /// Symbol or heading that the chunk belongs to.
    pub symbol_name: Option<String>,
    /// Type: function, class, section and the like.
    pub chunk_type: String,
    /// Kind: content, imports, fallback-split or degraded-ast-split.
    pub chunk_kind: String,
    /// Locator of the chunk.
    pub breadcrumb: String,
    /// The label that the chunk was made for.
    pub label_id: String,
    /// All labels that the chunk belongs to.
    pub active_label_ids: Vec<String>,
    /// Identifies the embedder.
    pub embedder_id: String,
    /// Identifies the chunker.
    pub chunker_id: String,
    /// Identifies the content of the file.
    pub blob_id: String,
    /// Name of the package that the file belongs to.
    pub package_name: String,
    /// Identifies the file: its content and its path.
    pub file_id: String,
    /// Path of the file in the catalog.
    pub relative_path: String,
    /// Which chunk of the file this is, counted from one, in the order of the lines.
    pub chunk_ordinal: usize,
    /// Number of chunks of the file.
    pub chunk_count: usize,
    /// Which part of a divided section this is, counted from one.
    pub split_part_ordinal: Option<usize>,
    /// Number of parts of a divided section.
    pub split_part_count: Option<usize>,
}

/// The mathematical counterpart of [`Chunk`].
pub struct ChunkView {
    pub text: Seq<char>,
    pub source_uri: Seq<char>,
    pub source_type: Seq<char>,
    pub catalog: Seq<char>,
    pub content_hash: Seq<char>,
    pub start_line: int,
    pub end_line: int,
    pub symbol_name: Option<Seq<char>>,
    pub chunk_type: Seq<char>,
    pub chunk_kind: Seq<char>,
    pub breadcrumb: Seq<char>,
    pub label_id: Seq<char>,
    pub active_label_ids: Seq<Seq<char>>,
    pub embedder_id: Seq<char>,
    pub chunker_id: Seq<char>,
    pub blob_id: Seq<char>,
    pub package_name: Seq<char>,
    pub file_id: Seq<char>,
    pub relative_path: Seq<char>,
    pub chunk_ordinal: int,
    pub chunk_count: int,
    pub split_part_ordinal: Option<usize>,
    pub split_part_count: Option<usize>,
}

impl View for Chunk {
    type V = ChunkView;

    open spec fn view(&self) -> ChunkView {
        ChunkView {
            text: self.text@,
            source_uri: self.source_uri@,
            source_type: self.source_type@,
            catalog: self.catalog@,
            content_hash: self.content_hash@,
            start_line: self.start_line as int,
            end_line: self.end_line as int,
            symbol_name: text::view_opt(self.symbol_name),
            chunk_type: self.chunk_type@,
            chunk_kind: self.chunk_kind@,
            breadcrumb: self.breadcrumb@,
            label_id: self.label_id@,
            active_label_ids: text::views(self.active_label_ids@),
            embedder_id: self.embedder_id@,
            chunker_id: self.chunker_id@,
            blob_id: self.blob_id@,
            package_name: self.package_name@,
            file_id: self.file_id@,
            relative_path: self.relative_path@,
            chunk_ordinal: self.chunk_ordinal as int,
            chunk_count: self.chunk_count as int,
            split_part_ordinal: self.split_part_ordinal,
            split_part_count: self.split_part_count,
        }
    }
}

/// The counterparts of a list of chunks.
pub open spec fn chunk_views(chunks: Seq<Chunk>) -> Seq<ChunkView> {
    chunks.map_values(|c: Chunk| c@)
}

impl Chunk {
    /// The identifier of the chunk.
    pub fn point_id(&self) -> (r: String)
        ensures
            r@ == ids::point_id(self@.file_id, self@.chunk_ordinal as nat),
    {
        compute_point_id(self.file_id.as_str(), self.chunk_ordinal)
    }
}

/// What is known of a file before it is divided.
pub struct ChunkContext {
    /// Name of the catalog.
    pub catalog: String,
    /// The label that chunks are made for.
    pub label_id: String,
    /// Name of the package that the file belongs to.
    pub package_name: String,
    /// Path of the file in the catalog.
    pub relative_path: String,
    /// Identifies the content of the file.
    pub blob_id: String,
    /// Where the file is found.
    pub source_uri: String,
}

/// The mathematical counterpart of [`ChunkContext`].
pub struct ChunkContextView {
    pub catalog: Seq<char>,
    pub label_id: Seq<char>,
    pub package_name: Seq<char>,
    pub relative_path: Seq<char>,
    pub blob_id: Seq<char>,
    pub source_uri: Seq<char>,
}

impl View for ChunkContext {
    type V = ChunkContextView;

    open spec fn view(&self) -> ChunkContextView {
        ChunkContextView {
            catalog: self.catalog@,
            label_id: self.label_id@,
            package_name: self.package_name@,
            relative_path: self.relative_path@,
            blob_id: self.blob_id@,
            source_uri: self.source_uri@,
        }
    }
}

/// A chunk of the file that the context speaks of.
pub open spec fn context_chunk(
    ctx: ChunkContextView,
    p: PartitionedChunkView,
    file_id: Seq<char>,
    chunk_ordinal: int,
    chunk_count: int,
) -> ChunkView {
    ChunkView {
        text: p.text,
        source_uri: ctx.source_uri,
        source_type: "code"@,
        catalog: ctx.catalog,
        content_hash: p.content_hash,
        start_line: p.start_line,
        end_line: p.end_line,
        symbol_name: p.symbol_name,
        chunk_type: p.chunk_type,
        chunk_kind: p.chunk_kind,
        breadcrumb: p.breadcrumb,
        label_id: ctx.label_id,
        active_label_ids: seq![ctx.label_id],
        embedder_id: EMBEDDER_ID@,
        chunker_id: CHUNKER_ID@,
        blob_id: ctx.blob_id,
        package_name: ctx.package_name,
        file_id,
        relative_path: ctx.relative_path,
        chunk_ordinal,
        chunk_count,
        split_part_ordinal: p.split_part_ordinal,
        split_part_count: p.split_part_count,
    }
}

impl Chunk {
    /// A chunk of the file that the context speaks of.
    pub fn from_partitioned(
        p: PartitionedChunk,
        file_id: &str,
        ctx: &ChunkContext,
        chunk_ordinal: usize,
        chunk_count: usize,
    ) -> (r: Self)
        ensures
            r@ == context_chunk(ctx@, p@, file_id@, chunk_ordinal as int, chunk_count as int),
            r.text@ == p.text@,
            r.start_line == p.start_line,
            r.end_line == p.end_line,
            r.symbol_name == p.symbol_name,
            r.chunk_type@ == p.chunk_type@,
            r.chunk_kind@ == p.chunk_kind@,
            r.breadcrumb@ == p.breadcrumb@,
            r.content_hash@ == p.content_hash@,
            r.split_part_ordinal == p.split_part_ordinal,
            r.split_part_count == p.split_part_count,
            r.source_uri@ == ctx.source_uri@,
            r.catalog@ == ctx.catalog@,
            r.label_id@ == ctx.label_id@,
            r.active_label_ids@.len() == 1,
            r.active_label_ids@[0]@ == ctx.label_id@,
            r.blob_id@ == ctx.blob_id@,
            r.package_name@ == ctx.package_name@,
            r.relative_path@ == ctx.relative_path@,
            r.file_id@ == file_id@,
            r.chunk_ordinal == chunk_ordinal,
            r.chunk_count == chunk_count,
    {
        let mut active_label_ids: Vec<String> = Vec::new();
        active_label_ids.push(ctx.label_id.clone());
        assert(text::views(active_label_ids@) =~= seq![ctx@.label_id]);
        Chunk {
            text: p.text,
            source_uri: ctx.source_uri.clone(),
            source_type: "code".to_owned(),
            catalog: ctx.catalog.clone(),
            content_hash: p.content_hash,
            start_line: p.start_line,
            end_line: p.end_line,
            symbol_name: p.symbol_name,
            chunk_type: p.chunk_type,
            chunk_kind: p.chunk_kind,
            breadcrumb: p.breadcrumb,
            label_id: ctx.label_id.clone(),
            active_label_ids,
            embedder_id: EMBEDDER_ID.to_owned(),
            chunker_id: CHUNKER_ID.to_owned(),
            blob_id: ctx.blob_id.clone(),
            package_name: ctx.package_name.clone(),
            file_id: file_id.to_owned(),
            relative_path: ctx.relative_path.clone(),
            chunk_ordinal,
            chunk_count,
            split_part_ordinal: p.split_part_ordinal,
            split_part_count: p.split_part_count,
        }
    }
}

/// A chunk of which no more is known than where it stands in its file.
pub open spec fn bare_chunk(p: PartitionedChunkView) -> ChunkView {
    ChunkView {
        text: p.text,
        source_uri: p.source_uri,
        source_type: "code"@,
        catalog: p.catalog,
        content_hash: p.content_hash,
        start_line: p.start_line,
        end_line: p.end_line,
        symbol_name: p.symbol_name,
        chunk_type: p.chunk_type,
        chunk_kind: p.chunk_kind,
        breadcrumb: p.breadcrumb,
        label_id: Seq::empty(),
        active_label_ids: Seq::empty(),
        embedder_id: EMBEDDER_ID@,
        chunker_id: CHUNKER_ID@,
        blob_id: Seq::empty(),
        package_name: Seq::empty(),
        file_id: Seq::empty(),
        relative_path: Seq::empty(),
        chunk_ordinal: 0,
        chunk_count: 0,
        split_part_ordinal: p.split_part_ordinal,
        split_part_count: p.split_part_count,
    }
}

impl vstd::std_specs::convert::FromSpecImpl<PartitionedChunk> for Chunk {
    open spec fn obeys_from_spec() -> bool {
        false
    }

    open spec fn from_spec(p: PartitionedChunk) -> Chunk {
        arbitrary()
    }
}

impl From<PartitionedChunk> for Chunk {
    fn from(p: PartitionedChunk) -> (r: Chunk)
        ensures
            r@ == bare_chunk(p@),
    {
        let active_label_ids: Vec<String> = Vec::new();
        assert(text::views(active_label_ids@) =~= Seq::empty());
        Chunk {
            text: p.text,
            source_uri: p.source_uri,
            source_type: "code".to_owned(),
            catalog: p.catalog,
            content_hash: p.content_hash,
            start_line: p.start_line,
            end_line: p.end_line,
            symbol_name: p.symbol_name,
            chunk_type: p.chunk_type,
            chunk_kind: p.chunk_kind,
            breadcrumb: p.breadcrumb,
            label_id: String::new(),
            active_label_ids,
            embedder_id: EMBEDDER_ID.to_owned(),
            chunker_id: CHUNKER_ID.to_owned(),
            blob_id: String::new(),
            package_name: String::new(),
            file_id: String::new(),
            relative_path: String::new(),
            chunk_ordinal: 0,
            chunk_count: 0,
            split_part_ordinal: p.split_part_ordinal,
            split_part_count: p.split_part_count,
        }
    }
}

/// A chunk inserted into an ordered list, after all chunks that do not begin later.
pub open spec fn inserted(
    chunks: Seq<PartitionedChunkView>,
    c: PartitionedChunkView,
) -> Seq<PartitionedChunkView>
    decreases chunks.len(),
{
    if chunks.len() == 0 || chunks.last().start_line <= c.start_line {
        chunks.push(c)
    } else {
        inserted(chunks.drop_last(), c).push(chunks.last())
    }
}

/// The chunks in the order of their first lines; those with the same line keep their order.
pub open spec fn by_line(chunks: Seq<PartitionedChunkView>) -> Seq<PartitionedChunkView>
    decreases chunks.len(),
{
    if chunks.len() == 0 {
        Seq::empty()
    } else {
        inserted(by_line(chunks.drop_last()), chunks.last())
    }
}

/// The chunks of a file in order, each with its number.
pub open spec fn numbered_chunks(
    ctx: ChunkContextView,
    file_id: Seq<char>,
    parts: Seq<PartitionedChunkView>,
) -> Seq<ChunkView> {
    let ordered = by_line(parts);
    Seq::new(
        ordered.len(),
        |i: int| context_chunk(ctx, ordered[i], file_id, i + 1, ordered.len() as int),
    )
}

/// Inserts a chunk into an ordered list (see [`inserted`]).
fn insert_by_line(chunks: &mut Vec<PartitionedChunk>, c: PartitionedChunk)
    ensures
        types::chunk_views(final(chunks)@) == inserted(types::chunk_views(old(chunks)@), c@),
{
    let ghost all = types::chunk_views(chunks@);
    let n: usize = chunks.len();
    let mut i: usize = n;
    assert(all.take(n as int) =~= all);
    assert(inserted(all, c@) + all.subrange(n as int, n as int) =~= inserted(all, c@));
    while i > 0 && chunks[i - 1].start_line > c.start_line
        invariant
            i <= n == chunks@.len(),
            all == types::chunk_views(chunks@),
            inserted(all.take(i as int), c@) + all.subrange(i as int, n as int) == inserted(
                all,
                c@,
            ),
        decreases i,
    {
        proof {
            let head = all.take(i as int);
            assert(head.last() == chunks@[i - 1]@);
            assert(head.drop_last() =~= all.take(i - 1));
            assert(inserted(head, c@) + all.subrange(i as int, n as int) =~= inserted(
                all.take(i - 1),
                c@,
            ) + all.subrange(i - 1, n as int));
        }
        i = i - 1;
    }
    proof {
        let head = all.take(i as int);
        if i > 0 {
            assert(head.last() == chunks@[i - 1]@);
        }
        assert(inserted(head, c@) == head.push(c@));
        assert(types::chunk_views(chunks@.insert(i as int, c)) =~= head.push(c@) + all.subrange(
            i as int,
            n as int,
        ));
    }
    chunks.insert(i, c);
}

/// Puts chunks in the order of their first lines (see [`by_line`]).
fn sort_by_line(chunks: Vec<PartitionedChunk>) -> (r: Vec<PartitionedChunk>)
    ensures
        types::chunk_views(r@) == by_line(types::chunk_views(chunks@)),
{
    let ghost all = types::chunk_views(chunks@);
    let mut out: Vec<PartitionedChunk> = Vec::new();
    assert(types::chunk_views(out@) =~= by_line(all.take(0)));
    for c in it: chunks
        invariant
            it.seq() == chunks@,
            all == types::chunk_views(chunks@),
            types::chunk_views(out@) == by_line(all.take(it.index() as int)),
    {
        proof {
            let i = it.index() as int;
            assert(all.take(i + 1).drop_last() =~= all.take(i));
            assert(all.take(i + 1).last() == c@);
        }
        insert_by_line(&mut out, c);
    }
    assert(all.take(all.len() as int) =~= all);
    out
}

/// Makes the chunks of a file of its parts (see [`numbered_chunks`]).
fn number_chunks(parts: Vec<PartitionedChunk>, file_id: &str, ctx: &ChunkContext) -> (r: Vec<Chunk>)
    ensures
        chunk_views(r@) == numbered_chunks(ctx@, file_id@, types::chunk_views(parts@)),
{
    let ghost goal = numbered_chunks(ctx@, file_id@, types::chunk_views(parts@));
    let ordered = sort_by_line(parts);
    let ghost all = types::chunk_views(ordered@);
    let ghost list = ordered@;
    let n: usize = ordered.len();
    let mut out: Vec<Chunk> = Vec::new();
    let mut i: usize = 0;
    for p in it: ordered
        invariant
            it.seq() == list,
            it.index() == i,
            n == list.len() == goal.len(),
            all == types::chunk_views(list),
            goal == Seq::new(
                all.len(),
                |i: int| context_chunk(ctx@, all[i], file_id@, i + 1, all.len() as int),
            ),
            chunk_views(out@) =~= goal.take(i as int),
    {
        assert(all[i as int] == p@);
        let chunk = Chunk::from_partitioned(p, file_id, ctx, i + 1, n);
        assert(chunk@ == goal[i as int]);
        assert(chunk_views(out@.push(chunk)) =~= chunk_views(out@).push(chunk@));
        assert(goal.take(i + 1) =~= goal.take(i as int).push(goal[i as int]));
        out.push(chunk);
        i = i + 1;
    }
    assert(goal.take(n as int) =~= goal);
    out
}

/// The name of a file, or its whole path if that does not end in a name.
pub open spec fn display_name(path: Seq<char>) -> Seq<char> {
    match paths::file_name(path) {
        Some(name) => name,
        None => path,
    }
}

fn make_display_name(path: &str) -> (r: String)
    ensures
        r@ == display_name(path@),
{
    match paths::file_name_of(path) {
        Some(name) => name,
        None => path.to_owned(),
    }
}

/// Line after the last of a chunk that begins with line `start` and has `size` bytes up to
/// line `end`: lines are added while the text stays below the maximum.
pub open spec fn filled(lines: Seq<Seq<char>>, max: int, end: int, size: int) -> int
    decreases lines.len() - end,
{
    if 0 <= end < lines.len() && size + text::byte_len(lines[end]) < max {
        filled(lines, max, end + 1, size + text::byte_len(lines[end]) + 1)
    } else {
        end
    }
}

/// Line after the last of the chunk that begins with line `start`; it has at least one line.
pub open spec fn line_chunk_end(lines: Seq<Seq<char>>, max: int, start: int) -> int {
    let end = filled(lines, max, start, 0);
    if end <= start {
        start + 1
    } else {
        end
    }
}

/// First line and the line after the last of each chunk from line `start` on.
pub open spec fn line_spans(lines: Seq<Seq<char>>, max: int, start: int) -> Seq<(int, int)>
    decreases lines.len() - start,
{
    if start >= lines.len() {
        Seq::empty()
    } else {
        let end = line_chunk_end(lines, max, start);
        proof {
            lemma_filled(lines, max, start, 0);
        }
        seq![(start, end)] + line_spans(lines, max, end)
    }
}

pub proof fn lemma_filled(lines: Seq<Seq<char>>, max: int, end: int, size: int)
    requires
        end <= lines.len(),
    ensures
        end <= filled(lines, max, end, size) <= lines.len(),
    decreases lines.len() - end,
{
    if 0 <= end < lines.len() && size + text::byte_len(lines[end]) < max {
        lemma_filled(lines, max, end + 1, size + text::byte_len(lines[end]) + 1);
    }
}

/// The parts that the spans make; spans with nothing but white space make none.
pub open spec fn span_parts(
    content: Seq<char>,
    path: Seq<char>,
    chunk_type: Seq<char>,
    spans: Seq<(int, int)>,
) -> Seq<PartitionedChunkView>
    decreases spans.len(),
{
    if spans.len() == 0 {
        Seq::empty()
    } else {
        let before = span_parts(content, path, chunk_type, spans.drop_last());
        let (start, end) = spans.last();
        let text = text::join(text::lines(content).subrange(start, end), seq!['\n']);
        if text::blank(text) {
            before
        } else {
            before.push(
                PartitionedChunkView {
                    source_uri: Seq::empty(),
                    catalog: Seq::empty(),
                    content_hash: ids::content_hash(content),
                    breadcrumb: breadcrumb::encoded(display_name(path)),
                    text,
                    start_line: start + 1,
                    end_line: end,
                    chunk_type,
                    chunk_kind: "content"@,
                    symbol_name: None,
                    split_part_ordinal: None,
                    split_part_count: None,
                },
            )
        }
    }
}

/// The chunks of a file that is divided by lines.
pub open spec fn line_chunks(
    content: Seq<char>,
    file_id: Seq<char>,
    ctx: ChunkContextView,
    max: int,
    chunk_type: Seq<char>,
) -> Seq<ChunkView> {
    let parts = span_parts(
        content,
        ctx.relative_path,
        chunk_type,
        line_spans(text::lines(content), max, 0),
    );
    Seq::new(
        parts.len(),
        |i: int| context_chunk(ctx, parts[i], file_id, i + 1, parts.len() as int),
    )
}

/// Line after the last of the chunk that begins with line `start`.
fn find_line_chunk_end(lines: &Vec<String>, max_chars: usize, start: usize) -> (r: usize)
    requires
        start < lines@.len(),
    ensures
        r == line_chunk_end(text::views(lines@), max_chars as int, start as int),
        start < r <= lines@.len(),
{
    let ghost all = text::views(lines@);
    let n: usize = lines.len();
    let mut end: usize = start;
    let mut size: usize = 0;
    while end < n && text::len_in_bytes(lines[end].as_str()) < max_chars - size
        invariant
            start <= end <= n == lines@.len(),
            all == text::views(lines@),
            size <= max_chars,
            filled(all, max_chars as int, end as int, size as int) == filled(
                all,
                max_chars as int,
                start as int,
                0,
            ),
        decreases n - end,
    {
        assert(all[end as int] == lines@[end as int]@);
        size = size + text::len_in_bytes(lines[end].as_str()) + 1;
        end = end + 1;
    }
    proof {
        if end < n {
            assert(all[end as int] == lines@[end as int]@);
        }
    }
    if end == start {
        start + 1
    } else {
        end
    }
}

/// Divides a plain text by lines: a chunk has as many lines as stay below `max_chars` bytes,
/// and at least one. Chunks with nothing but white space are left out.
pub fn chunk_by_lines(
    content: &str,
    file_id: &str,
    ctx: &ChunkContext,
    max_chars: usize,
    chunk_type: &str,
) -> (r: Vec<Chunk>)
    ensures
        chunk_views(r@) == line_chunks(
            content@,
            file_id@,
            ctx@,
            max_chars as int,
            chunk_type@,
        ),
{
    let content_hash = compute_hash(content);
    let lines = text::split_lines(content);
    let ghost all = text::lines(content@);
    let name = make_display_name(ctx.relative_path.as_str());
    let breadcrumb = encode_path_component(name.as_str());
    let n: usize = lines.len();
    let mut parts: Vec<PartitionedChunk> = Vec::new();
    let mut start: usize = 0;
    let ghost spans = line_spans(all, max_chars as int, 0);
    let ghost mut done: Seq<(int, int)> = Seq::empty();
    assert(text::views(lines@).len() == lines@.len());
    assert(done + spans =~= spans);
    assert(types::chunk_views(parts@) =~= span_parts(
        content@,
        ctx@.relative_path,
        chunk_type@,
        done,
    ));
    while start < n
        invariant
            start <= n == lines@.len(),
            all == text::views(lines@),
            all == text::lines(content@),
            content_hash@ == ids::content_hash(content@),
            breadcrumb@ == breadcrumb::encoded(display_name(ctx@.relative_path)),
            spans == line_spans(all, max_chars as int, 0),
            spans == done + line_spans(all, max_chars as int, start as int),
            types::chunk_views(parts@) == span_parts(
                content@,
                ctx@.relative_path,
                chunk_type@,
                done,
            ),
        decreases n - start,
    {
        let end: usize = find_line_chunk_end(&lines, max_chars, start);
        let body = text::join_lines(&lines, start, end);
        let ghost next = done.push((start as int, end as int));
        proof {
            assert(next.drop_last() =~= done);
            assert(done + line_spans(all, max_chars as int, start as int) =~= next + line_spans(
                all,
                max_chars as int,
                end as int,
            ));
        }
        if !text::is_blank(body.as_str()) {
            let part = PartitionedChunk {
                source_uri: String::new(),
                catalog: String::new(),
                content_hash: content_hash.clone(),
                breadcrumb: breadcrumb.clone(),
                text: body,
                start_line: start + 1,
                end_line: end,
                chunk_type: chunk_type.to_owned(),
                chunk_kind: "content".to_owned(),
                symbol_name: None,
                split_part_ordinal: None,
                split_part_count: None,
            };
            assert(types::chunk_views(parts@.push(part)) =~= types::chunk_views(parts@).push(part@));
            parts.push(part);
        }
        proof {
            done = next;
        }
        start = end;
    }
    assert(done =~= spans);
    let ghost goal = line_chunks(content@, file_id@, ctx@, max_chars as int, chunk_type@);
    let ghost made = types::chunk_views(parts@);
    let ghost list = parts@;
    let count: usize = parts.len();
    let mut out: Vec<Chunk> = Vec::new();
    let mut i: usize = 0;
    for p in it: parts
        invariant
            it.seq() == list,
            it.index() == i,
            count == list.len() == goal.len(),
            made == types::chunk_views(list),
            goal == Seq::new(
                made.len(),
                |i: int| context_chunk(ctx@, made[i], file_id@, i + 1, made.len() as int),
            ),
            chunk_views(out@) =~= goal.take(i as int),
    {
        assert(made[i as int] == p@);
        let chunk = Chunk::from_partitioned(p, file_id, ctx, i + 1, count);
        assert(chunk@ == goal[i as int]);
        assert(chunk_views(out@.push(chunk)) =~= chunk_views(out@).push(chunk@));
        assert(goal.take(i + 1) =~= goal.take(i as int).push(goal[i as int]));
        out.push(chunk);
        i = i + 1;
    }
    assert(goal.take(count as int) =~= goal);
    out
}

/// The identifier of the file that a context speaks of.
pub open spec fn context_file_id(ctx: ChunkContextView) -> Seq<char> {
    ids::file_id(EMBEDDER_ID@, CHUNKER_ID@, ctx.blob_id, ctx.relative_path)
}

/// How a file is divided: as the given name says, or else by the default configuration.
pub open spec fn chosen_strategy(
    ctx: ChunkContextView,
    strategy_override: Option<Seq<char>>,
) -> ChunkingStrategy {
    match strategy_override {
        Some(name) => config::strategy_named(Some(name)),
        None => config::strategy_named(
            crawl_config::strategy_for(crawl_config::default_config(), ctx.relative_path),
        ),
    }
}

/// How a file is divided, see [`chosen_strategy`].
fn choose_strategy(ctx: &ChunkContext, strategy_override: Option<&str>) -> (r: ChunkingStrategy)
    ensures
        r == chosen_strategy(
            ctx@,
            match strategy_override {
                Some(name) => Some(name@),
                None => None,
            },
        ),
{
    match strategy_override {
        Some(name) => strategy_from_name(name),
        None => get_chunk_strategy(ctx.relative_path.as_str()),
    }
}

/// The content of a file can be divided: what is parsed is not too large for that, and a
/// document does not have too many headings.
pub open spec fn divisible(content: Seq<char>, strategy: ChunkingStrategy) -> bool {
    match strategy {
        ChunkingStrategy::TypeScript => text::byte_len(content) <= text::MAX_DOCUMENT_BYTES,
        ChunkingStrategy::Markdown => markdown_partitioner::few_headings(content),
        _ => true,
    }
}

/// Whether the content of a file can be divided, see [`divisible`].
pub fn is_divisible(content: &str, ctx: &ChunkContext, strategy_override: Option<&str>) -> (r: bool)
    ensures
        r == divisible(
            content@,
            chosen_strategy(
                ctx@,
                match strategy_override {
                    Some(name) => Some(name@),
                    None => None,
                },
            ),
        ),
{
    match choose_strategy(ctx, strategy_override) {
        ChunkingStrategy::TypeScript => text::len_in_bytes(content) <= text::MAX_DOCUMENT_BYTES,
        ChunkingStrategy::Markdown => markdown_partitioner::has_few_headings(content),
        _ => true,
    }
}

/// What a partition of the file goes by.
pub open spec fn partition_config(ctx: ChunkContextView, target_size: int) -> PartitionConfigView {
    PartitionConfigView {
        target_size,
        file_name: display_name(ctx.relative_path),
        package_name: ctx.package_name,
        allow_fallback: true,
    }
}

/// The chunks of a file with the given content.
pub open spec fn content_chunks(
    content: Seq<char>,
    ctx: ChunkContextView,
    target_size: int,
    strategy_override: Option<Seq<char>>,
) -> Seq<ChunkView> {
    let file_id = context_file_id(ctx);
    match chosen_strategy(ctx, strategy_override) {
        ChunkingStrategy::TypeScript => numbered_chunks(
            ctx,
            file_id,
            partition::partition(
                syntax::tree_of(
                    grammar::source_nodes(content, ".tsx"@.is_suffix_of(ctx.source_uri)),
                ),
                content,
                partition_config(ctx, target_size),
                ctx.source_uri,
                ctx.catalog,
            ),
        ),
        ChunkingStrategy::Markdown => numbered_chunks(
            ctx,
            file_id,
            markdown_partitioner::document_chunks(
                content,
                partition_config(ctx, target_size),
                ctx.source_uri,
                ctx.catalog,
            ),
        ),
        ChunkingStrategy::LineBased => line_chunks(content, file_id, ctx, target_size, "text"@),
        ChunkingStrategy::Skip => Seq::empty(),
    }
}

/// Divides the content of a file into chunks. `strategy_override` names the strategy that a
/// configuration found for the file; without one the default configuration decides.
pub fn chunk_content(
    content: &str,
    ctx: &ChunkContext,
    target_size: usize,
    strategy_override: Option<&str>,
) -> (r: Vec<Chunk>)
    requires
        divisible(
            content@,
            chosen_strategy(
                ctx@,
                match strategy_override {
                    Some(name) => Some(name@),
                    None => None,
                },
            ),
        ),
    ensures
        chunk_views(r@) == content_chunks(
            content@,
            ctx@,
            target_size as int,
            match strategy_override {
                Some(name) => Some(name@),
                None => None,
            },
        ),
{
    let strategy = choose_strategy(ctx, strategy_override);
    let file_id = compute_file_id(
        EMBEDDER_ID,
        CHUNKER_ID,
        ctx.blob_id.as_str(),
        ctx.relative_path.as_str(),
    );
    match strategy {
        ChunkingStrategy::TypeScript => {
            let config = PartitionConfig {
                target_size,
                file_name: make_display_name(ctx.relative_path.as_str()),
                package_name: ctx.package_name.clone(),
                allow_fallback: true,
            };
            assert(config@ == partition_config(ctx@, target_size as int));
            let parts = partition_typescript(
                content,
                &config,
                ctx.source_uri.as_str(),
                ctx.catalog.as_str(),
            );
            number_chunks(parts, file_id.as_str(), ctx)
        },
        ChunkingStrategy::Markdown => {
            let config = PartitionConfig {
                target_size,
                file_name: make_display_name(ctx.relative_path.as_str()),
                package_name: ctx.package_name.clone(),
                allow_fallback: true,
            };
            assert(config@ == partition_config(ctx@, target_size as int));
            let parts = partition_markdown(
                content,
                &config,
                ctx.source_uri.as_str(),
                ctx.catalog.as_str(),
            );
            number_chunks(parts, file_id.as_str(), ctx)
        },
        ChunkingStrategy::LineBased => chunk_by_lines(
            content,
            file_id.as_str(),
            ctx,
            target_size,
            "text",
        ),
        ChunkingStrategy::Skip => {
            let none: Vec<Chunk> = Vec::new();
            assert(chunk_views(none@) =~= Seq::empty());
            none
        },
    }
}

/// The path of a file below a base directory, without slashes in front; a path that does
/// not begin with the base is taken as it stands.
pub open spec fn path_below(file_path: Seq<char>, base: Seq<char>) -> Seq<char> {
    text::strip_leading(
        if base.is_prefix_of(file_path) {
            text::after(file_path, base.len() as int)
        } else {
            file_path
        },
        '/',
    )
}

/// What is known of a file that was read from disk: no label and no content identifier.
pub open spec fn disk_context(
    file_path: Seq<char>,
    catalog: Seq<char>,
    base: Seq<char>,
    package_name: Seq<char>,
) -> ChunkContextView {
    ChunkContextView {
        catalog,
        label_id: Seq::empty(),
        package_name,
        relative_path: path_below(file_path, base),
        blob_id: Seq::empty(),
        source_uri: file_path,
    }
}

/// Divides a file that was read from disk, for no label and with no content identifier.
pub fn chunk_file(
    content: &str,
    file_path: &str,
    catalog: &str,
    catalog_base_path: &str,
    package_name: &str,
    target_size: usize,
) -> (r: Vec<Chunk>)
    requires
        divisible(
            content@,
            chosen_strategy(
                disk_context(file_path@, catalog@, catalog_base_path@, package_name@),
                None,
            ),
        ),
    ensures
        chunk_views(r@) == content_chunks(
            content@,
            disk_context(file_path@, catalog@, catalog_base_path@, package_name@),
            target_size as int,
            None,
        ),
{
    let relative_path = if text::starts_with(file_path, catalog_base_path) {
        let cs = text::chars(file_path);
        let n: usize = text::chars(catalog_base_path).len();
        let below = text::string_of(vstd::slice::slice_subrange(cs.as_slice(), n, cs.len()));
        text::trim_leading(below.as_str(), '/')
    } else {
        text::trim_leading(file_path, '/')
    };
    let ctx = ChunkContext {
        catalog: catalog.to_owned(),
        label_id: String::new(),
        package_name: package_name.to_owned(),
        relative_path,
        blob_id: String::new(),
        source_uri: file_path.to_owned(),
    };
    chunk_content(content, &ctx, target_size, None)
}

/// The chunks are in the order of their first lines.
pub open spec fn ordered_by_line(chunks: Seq<PartitionedChunkView>) -> bool {
    forall|i: int, j: int|
        0 <= i <= j < chunks.len() ==> (#[trigger] chunks[i]).start_line <= (
        #[trigger] chunks[j]).start_line
}

proof fn lemma_inserted(chunks: Seq<PartitionedChunkView>, c: PartitionedChunkView)
    requires
        ordered_by_line(chunks),
    ensures
        ordered_by_line(inserted(chunks, c)),
        inserted(chunks, c).len() == chunks.len() + 1,
        inserted(chunks, c).to_multiset() == chunks.to_multiset().insert(c),
        forall|i: int|
            0 <= i < inserted(chunks, c).len() ==> (#[trigger] inserted(chunks, c)[i]) == c
                || chunks.contains(inserted(chunks, c)[i]),
    decreases chunks.len(),
{
    broadcast use vstd::seq_lib::group_to_multiset_ensures;

    if chunks.len() == 0 || chunks.last().start_line <= c.start_line {
        assert(forall|i: int| 0 <= i < chunks.len() ==> chunks.contains(#[trigger] chunks[i]));
    } else {
        let head = chunks.drop_last();
        lemma_inserted(head, c);
        let rest = inserted(head, c);
        assert(chunks =~= head.push(chunks.last()));
        assert forall|i: int| 0 <= i < rest.len() implies (#[trigger] rest[i]).start_line
            <= chunks.last().start_line by {
            if rest[i] != c {
                assert(head.contains(rest[i]));
                let k = choose|k: int| 0 <= k < head.len() && head[k] == rest[i];
                assert(chunks[k] == head[k]);
            }
        }
        assert forall|i: int| 0 <= i < inserted(chunks, c).len() implies (
        #[trigger] inserted(chunks, c)[i]) == c || chunks.contains(inserted(chunks, c)[i]) by {
            if i < rest.len() {
                assert(inserted(chunks, c)[i] == rest[i]);
                if rest[i] != c {
                    let k = choose|k: int| 0 <= k < head.len() && head[k] == rest[i];
                    assert(chunks[k] == rest[i]);
                }
            } else {
                assert(chunks[chunks.len() - 1] == inserted(chunks, c)[i]);
            }
        }
        assert(chunks.to_multiset() =~= head.to_multiset().insert(chunks.last()));
        assert(inserted(chunks, c).to_multiset() =~= chunks.to_multiset().insert(c));
    }
}

/// Ordering the parts of a file loses none and adds none.
pub proof fn ordering_keeps_the_parts(chunks: Seq<PartitionedChunkView>)
    ensures
        ordered_by_line(by_line(chunks)),
        by_line(chunks).len() == chunks.len(),
        by_line(chunks).to_multiset() == chunks.to_multiset(),
    decreases chunks.len(),
{
    broadcast use vstd::seq_lib::group_to_multiset_ensures;

    if chunks.len() > 0 {
        ordering_keeps_the_parts(chunks.drop_last());
        lemma_inserted(by_line(chunks.drop_last()), chunks.last());
        assert(chunks =~= chunks.drop_last().push(chunks.last()));
    }
}

/// The chunks of a file are numbered from one without gap, in the order of their lines; each
/// knows how many there are, and all have the identifier that content and path give.
pub proof fn chunks_are_numbered_by_line(
    ctx: ChunkContextView,
    file_id: Seq<char>,
    parts: Seq<PartitionedChunkView>,
)
    ensures
        numbered_chunks(ctx, file_id, parts).len() == parts.len(),
        forall|i: int|
            0 <= i < parts.len() ==> {
                let c = #[trigger] numbered_chunks(ctx, file_id, parts)[i];
                &&& c.chunk_ordinal == i + 1
                &&& c.chunk_count == parts.len()
                &&& c.file_id == file_id
            },
        forall|i: int, j: int|
            0 <= i <= j < parts.len() ==> (#[trigger] numbered_chunks(
                ctx,
                file_id,
                parts,
            )[i]).start_line <= (#[trigger] numbered_chunks(ctx, file_id, parts)[j]).start_line,
{
    ordering_keeps_the_parts(parts);
}

proof fn lemma_ordered_member(chunks: Seq<PartitionedChunkView>, i: int)
    requires
        0 <= i < by_line(chunks).len(),
    ensures
        chunks.contains(by_line(chunks)[i]),
{
    broadcast use vstd::seq_lib::group_to_multiset_ensures;

    ordering_keeps_the_parts(chunks);
    let found = by_line(chunks)[i];
    assert(by_line(chunks).contains(found));
    assert(by_line(chunks).to_multiset().count(found) > 0);
    assert(chunks.to_multiset().count(found) > 0);
}

/// Bytes of the lines from `from` on, before `to`, when they are put together with line feeds
/// between them.
pub open spec fn joined_size(lines: Seq<Seq<char>>, from: int, to: int) -> int
    decreases to - from,
{
    if to <= from {
        0
    } else if to == from + 1 {
        text::byte_len(lines[from]) as int
    } else {
        joined_size(lines, from, to - 1) + 1 + text::byte_len(lines[to - 1])
    }
}

proof fn lemma_filled_size(lines: Seq<Seq<char>>, max: int, start: int, end: int, size: int)
    requires
        0 <= start <= end <= lines.len(),
        size == if end == start {
            0
        } else {
            joined_size(lines, start, end) + 1
        },
        end > start ==> joined_size(lines, start, end) < max,
    ensures
        ({
            let stop = filled(lines, max, end, size);
            &&& end <= stop <= lines.len()
            &&& stop > start ==> joined_size(lines, start, stop) < max
            &&& stop < lines.len() ==> joined_size(lines, start, stop + 1) >= max
        }),
    decreases lines.len() - end,
{
    if end < lines.len() {
        assert(joined_size(lines, start, end + 1) == size + text::byte_len(lines[end]));
        if size + text::byte_len(lines[end]) < max {
            lemma_filled_size(
                lines,
                max,
                start,
                end + 1,
                size + text::byte_len(lines[end]) + 1,
            );
        }
    }
}

/// A file that is divided by lines is divided as late as possible: a chunk has less than the
/// maximum, or a single line, and every chunk but the last would reach the maximum with
/// the next line.
pub proof fn line_spans_are_filled(lines: Seq<Seq<char>>, max: int, start: int, i: int)
    requires
        0 <= start,
        0 <= i < line_spans(lines, max, start).len(),
    ensures
        ({
            let (from, to) = line_spans(lines, max, start)[i];
            &&& start <= from < to <= lines.len()
            &&& joined_size(lines, from, to) < max || to == from + 1
            &&& to < lines.len() ==> joined_size(lines, from, to + 1) >= max || to == from + 1
        }),
    decreases lines.len() - start,
{
    lemma_filled(lines, max, start, 0);
    lemma_filled_size(lines, max, start, start, 0);
    let end = line_chunk_end(lines, max, start);
    if i > 0 {
        line_spans_are_filled(lines, max, end, i - 1);
        assert(line_spans(lines, max, start)[i] == line_spans(lines, max, end)[i - 1]);
    }
}

/// The chunks of a file that is divided by lines follow each other without gap or overlap, from
/// the first line to the last.
pub proof fn line_spans_tile_the_file(lines: Seq<Seq<char>>, max: int, start: int)
    requires
        0 <= start < lines.len(),
    ensures
        ({
            let spans = line_spans(lines, max, start);
            &&& spans.len() > 0
            &&& spans[0].0 == start
            &&& spans.last().1 == lines.len()
            &&& forall|i: int, j: int|
                0 <= i && j == i + 1 && j < spans.len() ==> (#[trigger] spans[j]).0 == (
                #[trigger] spans[i]).1
        }),
    decreases lines.len() - start,
{
    lemma_filled(lines, max, start, 0);
    let end = line_chunk_end(lines, max, start);
    let spans = line_spans(lines, max, start);
    if end < lines.len() {
        line_spans_tile_the_file(lines, max, end);
        let rest = line_spans(lines, max, end);
        assert(spans.last() == rest.last());
        assert forall|i: int, j: int| 0 <= i && j == i + 1 && j < spans.len() implies (
        #[trigger] spans[j]).0 == (#[trigger] spans[i]).1 by {
            assert(spans[j] == rest[j - 1]);
            if i > 0 {
                assert(spans[i] == rest[i - 1]);
            }
        }
    } else {
        assert(line_spans(lines, max, end) =~= Seq::empty());
        assert(spans =~= seq![(start, end)]);
    }
}

proof fn lemma_span_parts(
    content: Seq<char>,
    path: Seq<char>,
    chunk_type: Seq<char>,
    spans: Seq<(int, int)>,
    i: int,
)
    requires
        0 <= i < span_parts(content, path, chunk_type, spans).len(),
        forall|k: int|
            0 <= k < spans.len() ==> 0 <= (#[trigger] spans[k]).0 < spans[k].1 && spans[k].1
                <= text::lines(content).len(),
    ensures
        ({
            let part = span_parts(content, path, chunk_type, spans)[i];
            &&& 1 <= part.start_line <= part.end_line <= text::lines(content).len()
            &&& part.text == text::join(
                text::lines(content).subrange(part.start_line - 1, part.end_line),
                seq!['\n'],
            )
            &&& part.chunk_type == chunk_type
            &&& part.chunk_kind == "content"@
            &&& part.content_hash == ids::content_hash(content)
        }),
    decreases spans.len(),
{
    let shorter = spans.drop_last();
    let before = span_parts(content, path, chunk_type, shorter);
    assert forall|k: int| 0 <= k < shorter.len() implies 0 <= (#[trigger] shorter[k]).0
        < shorter[k].1 && shorter[k].1 <= text::lines(content).len() by {
        assert(shorter[k] == spans[k]);
    }
    if i < before.len() {
        lemma_span_parts(content, path, chunk_type, shorter, i);
    } else {
        assert(spans[spans.len() - 1] == spans.last());
    }
}

/// What is stored of a file is the file: every chunk has the text of the lines that it says it
/// has, and carries catalog, label, package, path, content identifier and place of the file
/// that it was made of, whatever the strategy.
pub proof fn chunks_are_parts_of_their_file(
    content: Seq<char>,
    ctx: ChunkContextView,
    target_size: int,
    strategy_override: Option<Seq<char>>,
    i: int,
)
    requires
        target_size >= 0,
        0 <= i < content_chunks(content, ctx, target_size, strategy_override).len(),
    ensures
        ({
            let c = content_chunks(content, ctx, target_size, strategy_override)[i];
            &&& 1 <= c.start_line <= c.end_line <= text::lines(content).len() ==> c.text
                == text::join(
                text::lines(content).subrange(c.start_line - 1, c.end_line),
                seq!['\n'],
            )
            &&& c.content_hash == ids::content_hash(content)
            &&& c.catalog == ctx.catalog
            &&& c.label_id == ctx.label_id
            &&& c.active_label_ids == seq![ctx.label_id]
            &&& c.package_name == ctx.package_name
            &&& c.relative_path == ctx.relative_path
            &&& c.blob_id == ctx.blob_id
            &&& c.source_uri == ctx.source_uri
            &&& c.source_type == "code"@
            &&& c.embedder_id == EMBEDDER_ID@
            &&& c.chunker_id == CHUNKER_ID@
            &&& c.file_id == ids::file_id(
                EMBEDDER_ID@,
                CHUNKER_ID@,
                ctx.blob_id,
                ctx.relative_path,
            )
        }),
{
    let lines = text::lines(content);
    let config = partition_config(ctx, target_size);
    match chosen_strategy(ctx, strategy_override) {
        ChunkingStrategy::TypeScript => {
            let root = syntax::tree_of(
                grammar::source_nodes(content, ".tsx"@.is_suffix_of(ctx.source_uri)),
            );
            let parts = partition::partition(root, content, config, ctx.source_uri, ctx.catalog);
            lemma_ordered_member(parts, i);
            let k = choose|k: int| 0 <= k < parts.len() && parts[k] == by_line(parts)[i];
            partition::chunks_are_the_text_of_their_lines(
                root,
                content,
                config,
                ctx.source_uri,
                ctx.catalog,
                k,
            );
        },
        ChunkingStrategy::Markdown => {
            let parts = markdown_partitioner::document_chunks(
                content,
                config,
                ctx.source_uri,
                ctx.catalog,
            );
            lemma_ordered_member(parts, i);
            let k = choose|k: int| 0 <= k < parts.len() && parts[k] == by_line(parts)[i];
            markdown_partitioner::chunks_are_the_text_of_their_lines(
                content,
                config,
                ctx.source_uri,
                ctx.catalog,
                k,
            );
        },
        ChunkingStrategy::LineBased => {
            let spans = line_spans(lines, target_size, 0);
            assert forall|k: int| 0 <= k < spans.len() implies 0 <= (#[trigger] spans[k]).0
                < spans[k].1 && spans[k].1 <= lines.len() by {
                line_spans_are_filled(lines, target_size, 0, k);
            }
            lemma_span_parts(content, ctx.relative_path, "text"@, spans, i);
        },
        ChunkingStrategy::Skip => {},
    }
}

/// The name of a strategy decides how a file is divided, and files without one are not: along
/// the syntax, by headings, by lines, or not at all.
pub proof fn strategies_are_chosen_by_name(ctx: ChunkContextView, name: Seq<char>)
    ensures
        chosen_strategy(ctx, Some("typescript"@)) == ChunkingStrategy::TypeScript,
        chosen_strategy(ctx, Some("markdown"@)) == ChunkingStrategy::Markdown,
        chosen_strategy(ctx, Some("lineBased"@)) == ChunkingStrategy::LineBased,
        name != "typescript"@ && name != "markdown"@ && name != "lineBased"@ ==> chosen_strategy(
            ctx,
            Some(name),
        ) == ChunkingStrategy::Skip,
{
    reveal_strlit("typescript");
    reveal_strlit("markdown");
    reveal_strlit("lineBased");
    assert("typescript"@.len() == 10 && "markdown"@.len() == 8 && "lineBased"@.len() == 9);
}

/// Without a name the suffix of the path decides: TypeScript along the syntax, Markdown by
/// headings, and plain text formats by lines.
pub proof fn strategies_follow_the_suffix(ctx: ChunkContextView, suffix: Seq<char>)
    requires
        suffix.is_suffix_of(ctx.relative_path),
    ensures
        suffix == ".ts"@ || suffix == ".tsx"@ ==> chosen_strategy(ctx, None)
            == ChunkingStrategy::TypeScript,
        suffix == ".md"@ ==> chosen_strategy(ctx, None) == ChunkingStrategy::Markdown,
        suffix == ".yml"@ || suffix == ".yaml"@ || suffix == ".txt"@ || suffix == ".css"@ || suffix
            == ".scss"@ ==> chosen_strategy(ctx, None) == ChunkingStrategy::LineBased,
        suffix == ".js"@ || suffix == ".jsx"@ || suffix == ".cjs"@ || suffix == ".mjs"@ || suffix
            == ".json"@ ==> chosen_strategy(ctx, None) == ChunkingStrategy::Skip,
{
    crawl_config::default_strategies(ctx.relative_path, suffix);
    reveal_strlit("typescript");
    reveal_strlit("markdown");
    reveal_strlit("lineBased");
    reveal_strlit("javascript");
    reveal_strlit("simpleLine");
    assert("typescript"@.len() == 10 && "markdown"@.len() == 8 && "lineBased"@.len() == 9);
    assert("javascript"@.len() == 10 && "simpleLine"@.len() == 10);
    assert("typescript"@[0] == 't' && "javascript"@[0] == 'j' && "simpleLine"@[0] == 's');
}

/// The path of a file below a directory is what stands behind the directory and a slash.
pub proof fn paths_below_a_base(base: Seq<char>, rest: Seq<char>)
    requires
        rest.len() > 0,
        rest[0] != '/',
    ensures
        path_below(base + seq!['/'] + rest, base) == rest,
{
    let path = base + seq!['/'] + rest;
    let behind = text::after(path, base.len() as int);
    assert(base =~= path.subrange(0, base.len() as int));
    assert(behind =~= seq!['/'] + rest);
    assert(behind.drop_first() =~= rest);
    assert(text::strip_leading(rest, '/') == rest);
}

}
