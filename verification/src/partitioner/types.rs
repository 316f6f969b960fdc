//! Configuration and results of a partition.
use crate::text;
use vstd::prelude::*;

verus! {

/// Target size of a chunk, in bytes of text.
pub const TARGET_CHARS: usize = 6000;

/// Below this many bytes a chunk counts as small.
pub const SMALL_CHUNK_CHARS: usize = 500;

/// The least size of a part is the target divided by this number: a fifth of it.
pub const MIN_CHUNK_DIVISOR: usize = 5;

/// What a partition goes by.
pub struct PartitionConfig {
    /// Target size of a chunk in bytes of text; the breadcrumb comes on top.
    pub target_size: usize,
    /// File name for the breadcrumb.
    pub file_name: String,
    /// Package name for the breadcrumb.
    pub package_name: String,
    /// Whether a range is divided in the middle where the syntax tree proposes no
    /// boundary. If not, such a range stays oversized.
    pub allow_fallback: bool,
}

/// The mathematical counterpart of [`PartitionConfig`].
pub struct PartitionConfigView {
    pub target_size: int,
    pub file_name: Seq<char>,
    pub package_name: Seq<char>,
    pub allow_fallback: bool,
}

impl View for PartitionConfig {
    type V = PartitionConfigView;

    open spec fn view(&self) -> PartitionConfigView {
        PartitionConfigView {
            target_size: self.target_size as int,
            file_name: self.file_name@,
            package_name: self.package_name@,
            allow_fallback: self.allow_fallback,
        }
    }
}

impl Default for PartitionConfig {
    fn default() -> (r: Self)
        ensures
            r.target_size == 6000,
            r.file_name@ == "unknown.ts"@,
            r.package_name@ == "unknown"@,
            r.allow_fallback,
    {
        PartitionConfig {
            target_size: 6000,
            file_name: "unknown.ts".to_owned(),
            package_name: "unknown".to_owned(),
            allow_fallback: true,
        }
    }
}

/// A part of a file with its breadcrumb.
#[derive(Debug, Clone)]
pub struct PartitionedChunk {
    /// Path of the file.
    pub source_uri: String,
    /// Name of the catalog.
    pub catalog: String,
    /// Hash of the file's content.
    pub content_hash: String,
    /// Locator of the chunk.
    pub breadcrumb: String,
    /// Text of the chunk.
    pub text: String,
    /// First line, counted from one.
    pub start_line: usize,
    /// Last line.
    pub end_line: usize,
    /// Type: function, class, section and the like.
    pub chunk_type: String,
    /// Kind: content, imports, fallback-split or degraded-ast-split.
    pub chunk_kind: String,
    /// Symbol or heading that the chunk belongs to.
    pub symbol_name: Option<String>,
    /// Which part of a divided section this is, counted from one.
    pub split_part_ordinal: Option<usize>,
    /// Number of parts of a divided section.
    pub split_part_count: Option<usize>,
}

/// The mathematical counterpart of [`PartitionedChunk`].
pub struct PartitionedChunkView {
    pub source_uri: Seq<char>,
    pub catalog: Seq<char>,
    pub content_hash: Seq<char>,
    pub breadcrumb: Seq<char>,
    pub text: Seq<char>,
    pub start_line: int,
    pub end_line: int,
    pub chunk_type: Seq<char>,
    pub chunk_kind: Seq<char>,
    pub symbol_name: Option<Seq<char>>,
    pub split_part_ordinal: Option<usize>,
    pub split_part_count: Option<usize>,
}

impl View for PartitionedChunk {
    type V = PartitionedChunkView;

    open spec fn view(&self) -> PartitionedChunkView {
        PartitionedChunkView {
            source_uri: self.source_uri@,
            catalog: self.catalog@,
            content_hash: self.content_hash@,
            breadcrumb: self.breadcrumb@,
            text: self.text@,
            start_line: self.start_line as int,
            end_line: self.end_line as int,
            chunk_type: self.chunk_type@,
            chunk_kind: self.chunk_kind@,
            symbol_name: text::view_opt(self.symbol_name),
            split_part_ordinal: self.split_part_ordinal,
            split_part_count: self.split_part_count,
        }
    }
}

/// The counterparts of a list of chunks.
pub open spec fn chunk_views(chunks: Seq<PartitionedChunk>) -> Seq<PartitionedChunkView> {
    chunks.map_values(|c: PartitionedChunk| c@)
}

/// Lines that make up a chunk, and how they came to be one.
#[derive(Debug, Clone, Copy)]
pub struct ChunkRange {
    /// First line, counted from one.
    pub start_line: usize,
    /// Last line.
    pub end_line: usize,
    /// The range comes from a division in the middle.
    pub from_fallback: bool,
    /// The range comes from a degraded division.
    pub from_degraded_ast_split: bool,
}

/// The mathematical counterpart of [`ChunkRange`].
pub struct LineRange {
    pub start: int,
    pub end: int,
    pub from_fallback: bool,
    pub from_degraded: bool,
}

impl View for ChunkRange {
    type V = LineRange;

    open spec fn view(&self) -> LineRange {
        LineRange {
            start: self.start_line as int,
            end: self.end_line as int,
            from_fallback: self.from_fallback,
            from_degraded: self.from_degraded_ast_split,
        }
    }
}

/// The counterparts of a list of ranges.
pub open spec fn range_views(ranges: Seq<ChunkRange>) -> Seq<LineRange> {
    ranges.map_values(|r: ChunkRange| r@)
}

/// Outcome of the search for a boundary.
pub enum SplitResult {
    /// A boundary of the syntax tree with two parts that are large enough.
    Split(usize),
    /// A boundary of the syntax tree with a part that is too small.
    DegradedSplit(usize),
    /// The middle line: the syntax tree proposes no boundary at all.
    Fallback(usize),
    /// The range cannot be divided.
    CannotSplit,
}

/// The mathematical counterpart of [`SplitResult`].
pub enum SplitOutcome {
    Split(int),
    DegradedSplit(int),
    Fallback(int),
    CannotSplit,
}

impl View for SplitResult {
    type V = SplitOutcome;

    open spec fn view(&self) -> SplitOutcome {
        match *self {
            SplitResult::Split(line) => SplitOutcome::Split(line as int),
            SplitResult::DegradedSplit(line) => SplitOutcome::DegradedSplit(line as int),
            SplitResult::Fallback(line) => SplitOutcome::Fallback(line as int),
            SplitResult::CannotSplit => SplitOutcome::CannotSplit,
        }
    }
}

}
