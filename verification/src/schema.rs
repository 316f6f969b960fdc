//! The columns of the two tables.
use vstd::prelude::*;

verus! {

/// Version of the tables. It changes whenever a column does.
pub const MONODEX_SCHEMA_VERSION: u32 = 1;

/// Length of a vector; a part of the tables, not a setting.
pub const VECTOR_DIMENSION: usize = 768;

/// Name of the table of chunks.
pub const CHUNKS_TABLE: &'static str = "chunks";

/// Name of the table of labels.
pub const LABEL_METADATA_TABLE: &'static str = "label_metadata";

/// What the cells of a column hold.
#[derive(Debug, Clone, Copy, PartialEq, Eq, Structural)]
pub enum ColumnType {
    Text,
    /// Vectors of [`VECTOR_DIMENSION`] numbers.
    Vector,
    /// Lists of texts, none of which is null.
    TextList,
    Int32,
    Int64,
    Boolean,
}

/// A column: its name, what its cells hold, and whether they may be null.
#[derive(Debug, Clone)]
pub struct ColumnSpec {
    pub name: &'static str,
    pub column_type: ColumnType,
    pub nullable: bool,
}

impl View for ColumnSpec {
    type V = (Seq<char>, ColumnType, bool);

    open spec fn view(&self) -> (Seq<char>, ColumnType, bool) {
        (self.name@, self.column_type, self.nullable)
    }
}

/// The counterparts of a list of columns.
pub open spec fn column_views(columns: Seq<ColumnSpec>) -> Seq<(Seq<char>, ColumnType, bool)> {
    columns.map_values(|c: ColumnSpec| c@)
}

/// The columns of the table of chunks.
pub open spec fn chunk_columns() -> Seq<(Seq<char>, ColumnType, bool)> {
    seq![
        ("point_id"@, ColumnType::Text, false),
        ("text"@, ColumnType::Text, false),
        ("vector"@, ColumnType::Vector, false),
        ("catalog"@, ColumnType::Text, false),
        ("active_label_ids"@, ColumnType::TextList, false),
        ("embedder_id"@, ColumnType::Text, false),
        ("chunker_id"@, ColumnType::Text, false),
        ("blob_id"@, ColumnType::Text, false),
        ("content_hash"@, ColumnType::Text, false),
        ("file_id"@, ColumnType::Text, false),
        ("relative_path"@, ColumnType::Text, false),
        ("package_name"@, ColumnType::Text, false),
        ("source_uri"@, ColumnType::Text, false),
        ("chunk_ordinal"@, ColumnType::Int32, false),
        ("chunk_count"@, ColumnType::Int32, false),
        ("start_line"@, ColumnType::Int32, false),
        ("end_line"@, ColumnType::Int32, false),
        ("symbol_name"@, ColumnType::Text, true),
        ("chunk_type"@, ColumnType::Text, false),
        ("chunk_kind"@, ColumnType::Text, false),
        ("breadcrumb"@, ColumnType::Text, true),
        ("split_part_ordinal"@, ColumnType::Int32, true),
        ("split_part_count"@, ColumnType::Int32, true),
        ("file_complete"@, ColumnType::Boolean, false),
    ]
}

/// The columns of the table of labels.
pub open spec fn label_columns() -> Seq<(Seq<char>, ColumnType, bool)> {
    seq![
        ("label_id"@, ColumnType::Text, false),
        ("catalog"@, ColumnType::Text, false),
        ("label"@, ColumnType::Text, false),
        ("commit_oid"@, ColumnType::Text, false),
        ("source_kind"@, ColumnType::Text, false),
        ("crawl_complete"@, ColumnType::Boolean, false),
        ("updated_at_unix_secs"@, ColumnType::Int64, false),
    ]
}

fn column(name: &'static str, column_type: ColumnType, nullable: bool) -> (r: ColumnSpec)
    ensures
        r@ == (name@, column_type, nullable),
{
    ColumnSpec { name, column_type, nullable }
}

/// The columns of the table of chunks: key, content, labels, implementation, provenance,
/// file, paths, position, meaning, division and completeness.
pub fn chunks_schema() -> (r: Vec<ColumnSpec>)
    ensures
        column_views(r@) == chunk_columns(),
{
    let mut v: Vec<ColumnSpec> = Vec::new();
    v.push(column("point_id", ColumnType::Text, false));
    v.push(column("text", ColumnType::Text, false));
    v.push(column("vector", ColumnType::Vector, false));
    v.push(column("catalog", ColumnType::Text, false));
    v.push(column("active_label_ids", ColumnType::TextList, false));
    v.push(column("embedder_id", ColumnType::Text, false));
    v.push(column("chunker_id", ColumnType::Text, false));
    v.push(column("blob_id", ColumnType::Text, false));
    v.push(column("content_hash", ColumnType::Text, false));
    v.push(column("file_id", ColumnType::Text, false));
    v.push(column("relative_path", ColumnType::Text, false));
    v.push(column("package_name", ColumnType::Text, false));
    v.push(column("source_uri", ColumnType::Text, false));
    v.push(column("chunk_ordinal", ColumnType::Int32, false));
    v.push(column("chunk_count", ColumnType::Int32, false));
    v.push(column("start_line", ColumnType::Int32, false));
    v.push(column("end_line", ColumnType::Int32, false));
    v.push(column("symbol_name", ColumnType::Text, true));
    v.push(column("chunk_type", ColumnType::Text, false));
    v.push(column("chunk_kind", ColumnType::Text, false));
    v.push(column("breadcrumb", ColumnType::Text, true));
    v.push(column("split_part_ordinal", ColumnType::Int32, true));
    v.push(column("split_part_count", ColumnType::Int32, true));
    v.push(column("file_complete", ColumnType::Boolean, false));
    assert(column_views(v@) =~= chunk_columns());
    v
}

/// The columns of the table of labels.
pub fn label_metadata_schema() -> (r: Vec<ColumnSpec>)
    ensures
        column_views(r@) == label_columns(),
{
    let mut v: Vec<ColumnSpec> = Vec::new();
    v.push(column("label_id", ColumnType::Text, false));
    v.push(column("catalog", ColumnType::Text, false));
    v.push(column("label", ColumnType::Text, false));
    v.push(column("commit_oid", ColumnType::Text, false));
    v.push(column("source_kind", ColumnType::Text, false));
    v.push(column("crawl_complete", ColumnType::Boolean, false));
    v.push(column("updated_at_unix_secs", ColumnType::Int64, false));
    assert(column_views(v@) =~= label_columns());
    v
}

proof fn lemma_column_names()
    ensures
        "point_id"@.len() == 8 && "point_id"@[0] == 'p' && "point_id"@[1] == 'o',
        "text"@.len() == 4 && "text"@[0] == 't' && "text"@[1] == 'e',
        "vector"@.len() == 6 && "vector"@[0] == 'v' && "vector"@[1] == 'e',
        "catalog"@.len() == 7 && "catalog"@[0] == 'c' && "catalog"@[1] == 'a',
        "active_label_ids"@.len() == 16 && "active_label_ids"@[0] == 'a' && "active_label_ids"@[1] == 'c',
        "embedder_id"@.len() == 11 && "embedder_id"@[0] == 'e' && "embedder_id"@[1] == 'm',
        "chunker_id"@.len() == 10 && "chunker_id"@[0] == 'c' && "chunker_id"@[1] == 'h',
        "blob_id"@.len() == 7 && "blob_id"@[0] == 'b' && "blob_id"@[1] == 'l',
        "content_hash"@.len() == 12 && "content_hash"@[0] == 'c' && "content_hash"@[1] == 'o',
        "file_id"@.len() == 7 && "file_id"@[0] == 'f' && "file_id"@[1] == 'i',
        "relative_path"@.len() == 13 && "relative_path"@[0] == 'r' && "relative_path"@[1] == 'e',
        "package_name"@.len() == 12 && "package_name"@[0] == 'p' && "package_name"@[1] == 'a',
        "source_uri"@.len() == 10 && "source_uri"@[0] == 's' && "source_uri"@[1] == 'o',
        "chunk_ordinal"@.len() == 13 && "chunk_ordinal"@[0] == 'c' && "chunk_ordinal"@[1] == 'h',
        "chunk_count"@.len() == 11 && "chunk_count"@[0] == 'c' && "chunk_count"@[1] == 'h',
        "start_line"@.len() == 10 && "start_line"@[0] == 's' && "start_line"@[1] == 't',
        "end_line"@.len() == 8 && "end_line"@[0] == 'e' && "end_line"@[1] == 'n',
        "symbol_name"@.len() == 11 && "symbol_name"@[0] == 's' && "symbol_name"@[1] == 'y',
        "chunk_type"@.len() == 10 && "chunk_type"@[0] == 'c' && "chunk_type"@[1] == 'h',
        "chunk_kind"@.len() == 10 && "chunk_kind"@[0] == 'c' && "chunk_kind"@[1] == 'h',
        "breadcrumb"@.len() == 10 && "breadcrumb"@[0] == 'b' && "breadcrumb"@[1] == 'r',
        "split_part_ordinal"@.len() == 18 && "split_part_ordinal"@[0] == 's' && "split_part_ordinal"@[1] == 'p',
        "split_part_count"@.len() == 16 && "split_part_count"@[0] == 's' && "split_part_count"@[1] == 'p',
        "file_complete"@.len() == 13 && "file_complete"@[0] == 'f' && "file_complete"@[1] == 'i',
        "label_id"@.len() == 8 && "label_id"@[0] == 'l' && "label_id"@[1] == 'a',
        "label"@.len() == 5 && "label"@[0] == 'l' && "label"@[1] == 'a',
        "commit_oid"@.len() == 10 && "commit_oid"@[0] == 'c' && "commit_oid"@[1] == 'o',
        "source_kind"@.len() == 11 && "source_kind"@[0] == 's' && "source_kind"@[1] == 'o',
        "crawl_complete"@.len() == 14 && "crawl_complete"@[0] == 'c' && "crawl_complete"@[1] == 'r',
        "updated_at_unix_secs"@.len() == 20 && "updated_at_unix_secs"@[0] == 'u' && "updated_at_unix_secs"@[1] == 'p',
{
    reveal_strlit("point_id");
    reveal_strlit("text");
    reveal_strlit("vector");
    reveal_strlit("catalog");
    reveal_strlit("active_label_ids");
    reveal_strlit("embedder_id");
    reveal_strlit("chunker_id");
    reveal_strlit("blob_id");
    reveal_strlit("content_hash");
    reveal_strlit("file_id");
    reveal_strlit("relative_path");
    reveal_strlit("package_name");
    reveal_strlit("source_uri");
    reveal_strlit("chunk_ordinal");
    reveal_strlit("chunk_count");
    reveal_strlit("start_line");
    reveal_strlit("end_line");
    reveal_strlit("symbol_name");
    reveal_strlit("chunk_type");
    reveal_strlit("chunk_kind");
    reveal_strlit("breadcrumb");
    reveal_strlit("split_part_ordinal");
    reveal_strlit("split_part_count");
    reveal_strlit("file_complete");
    reveal_strlit("label_id");
    reveal_strlit("label");
    reveal_strlit("commit_oid");
    reveal_strlit("source_kind");
    reveal_strlit("crawl_complete");
    reveal_strlit("updated_at_unix_secs");
}

/// Only what a chunk may lack can be null: its symbol, its breadcrumb, and its place among the parts
/// of a larger section. Vectors, lists of labels, positions and marks are the only columns that do
/// not hold texts.
pub proof fn columns_of_the_tables(i: int)
    ensures
        0 <= i < chunk_columns().len() ==> {
            let (name, column_type, nullable) = chunk_columns()[i];
            &&& nullable <==> (name == "symbol_name"@ || name == "breadcrumb"@ || name
                == "split_part_ordinal"@ || name == "split_part_count"@)
            &&& column_type is Vector <==> name == "vector"@
            &&& column_type is TextList <==> name == "active_label_ids"@
            &&& column_type is Boolean <==> name == "file_complete"@
            &&& column_type is Int32 <==> (name == "chunk_ordinal"@ || name == "chunk_count"@
                || name == "start_line"@ || name == "end_line"@ || name == "split_part_ordinal"@
                || name == "split_part_count"@)
            &&& !(column_type is Int64)
        },
        0 <= i < label_columns().len() ==> {
            let (name, column_type, nullable) = label_columns()[i];
            &&& !nullable
            &&& column_type is Boolean <==> name == "crawl_complete"@
            &&& column_type is Int64 <==> name == "updated_at_unix_secs"@
            &&& column_type is Text || column_type is Boolean || column_type is Int64
        },
{
    lemma_column_names();
}

}
