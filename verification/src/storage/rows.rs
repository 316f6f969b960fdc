//! The rows of the two tables.
use crate::failure::Failure;
use crate::identifier;
use crate::identifier::{validate_catalog, LabelId};
use crate::ids;
use crate::text;
use vstd::prelude::*;

verus! {

/// A row of the table of chunks. The vector is kept beside it.
#[derive(Debug, Clone, PartialEq)]
pub struct ChunkRow {
    /// Identifies the chunk.
    pub point_id: String,
    /// Text of the chunk.
    pub text: String,
    /// Name of the catalog.
    pub catalog: String,
    /// The labels that the chunk belongs to, in storage form.
    pub active_label_ids: Vec<String>,
    /// Identifies the embedder.
    pub embedder_id: String,
    /// Identifies the chunker.
    pub chunker_id: String,
    /// Identifies the content of the file.
    pub blob_id: String,
    /// Hash of the file's content.
    pub content_hash: String,
    /// Identifies the file.
    pub file_id: String,
    /// Path of the file in the catalog.
    pub relative_path: String,
    /// Name of the package that the file belongs to.
    pub package_name: String,
    /// Where the file is found.
    pub source_uri: String,
    /// Which chunk of the file this is, counted from one.
    pub chunk_ordinal: i32,
    /// Number of chunks of the file.
    pub chunk_count: i32,
    /// First line, counted from one.
    pub start_line: i32,
    /// Last line.
    pub end_line: i32,
    /// Symbol or heading that the chunk belongs to.
    pub symbol_name: Option<String>,
    /// Type of the chunk.
    pub chunk_type: String,
    /// Kind of the chunk.
    pub chunk_kind: String,
    /// Locator of the chunk.
    pub breadcrumb: Option<String>,
    /// Which part of a divided section this is, counted from one.
    pub split_part_ordinal: Option<i32>,
    /// Number of parts of a divided section.
    pub split_part_count: Option<i32>,
    /// Set on the first chunk of a file all of whose chunks are stored.
    pub file_complete: bool,
}

/// The mathematical counterpart of [`ChunkRow`].
pub struct ChunkRowView {
    pub point_id: Seq<char>,
    pub text: Seq<char>,
    pub catalog: Seq<char>,
    pub active_label_ids: Seq<Seq<char>>,
    pub embedder_id: Seq<char>,
    pub chunker_id: Seq<char>,
    pub blob_id: Seq<char>,
    pub content_hash: Seq<char>,
    pub file_id: Seq<char>,
    pub relative_path: Seq<char>,
    pub package_name: Seq<char>,
    pub source_uri: Seq<char>,
    pub chunk_ordinal: i32,
    pub chunk_count: i32,
    pub start_line: i32,
    pub end_line: i32,
    pub symbol_name: Option<Seq<char>>,
    pub chunk_type: Seq<char>,
    pub chunk_kind: Seq<char>,
    pub breadcrumb: Option<Seq<char>>,
    pub split_part_ordinal: Option<i32>,
    pub split_part_count: Option<i32>,
    pub file_complete: bool,
}

impl View for ChunkRow {
    type V = ChunkRowView;

    open spec fn view(&self) -> ChunkRowView {
        ChunkRowView {
            point_id: self.point_id@,
            text: self.text@,
            catalog: self.catalog@,
            active_label_ids: text::views(self.active_label_ids@),
            embedder_id: self.embedder_id@,
            chunker_id: self.chunker_id@,
            blob_id: self.blob_id@,
            content_hash: self.content_hash@,
            file_id: self.file_id@,
            relative_path: self.relative_path@,
            package_name: self.package_name@,
            source_uri: self.source_uri@,
            chunk_ordinal: self.chunk_ordinal,
            chunk_count: self.chunk_count,
            start_line: self.start_line,
            end_line: self.end_line,
            symbol_name: text::view_opt(self.symbol_name),
            chunk_type: self.chunk_type@,
            chunk_kind: self.chunk_kind@,
            breadcrumb: text::view_opt(self.breadcrumb),
            split_part_ordinal: self.split_part_ordinal,
            split_part_count: self.split_part_count,
            file_complete: self.file_complete,
        }
    }
}

/// The counterparts of a list of rows.
pub open spec fn row_views(rows: Seq<ChunkRow>) -> Seq<ChunkRowView> {
    rows.map_values(|r: ChunkRow| r@)
}

/// The first label from position `i` on that is not in storage form, as a message.
pub open spec fn stored_label_error(labels: Seq<Seq<char>>, i: int) -> Option<Seq<char>>
    decreases labels.len() - i,
{
    if i < 0 || i >= labels.len() {
        None
    } else {
        match identifier::parsed(labels[i]) {
            Err(e) => Some("Invalid label_id in stored row active_label_ids: "@ + e.shown()),
            Ok(_) => stored_label_error(labels, i + 1),
        }
    }
}

/// What is wrong with a row of the table of chunks, if something is: the catalog, a label,
/// that there is no label, the ordinal, or an identifier that does not fit the row.
pub open spec fn chunk_row_error(row: ChunkRowView) -> Option<Seq<char>> {
    let expected = ids::point_id(row.file_id, row.chunk_ordinal as nat);
    if let Some(e) = identifier::catalog_error(row.catalog) {
        Some("Invalid catalog in stored row '"@ + row.catalog + "': "@ + e.shown())
    } else if let Some(message) = stored_label_error(row.active_label_ids, 0) {
        Some(message)
    } else if row.active_label_ids.len() == 0 {
        Some(
            "ChunkRow has empty active_label_ids - a chunk must belong to at least one label"@,
        )
    } else if row.chunk_ordinal < 1 {
        Some(
            "ChunkRow has invalid chunk_ordinal "@ + text::signed(row.chunk_ordinal as int)
                + ": must be >= 1"@,
        )
    } else if row.chunk_ordinal > row.chunk_count {
        Some(
            "ChunkRow has invalid chunk_ordinal "@ + text::signed(row.chunk_ordinal as int)
                + " > chunk_count "@ + text::signed(row.chunk_count as int),
        )
    } else if row.point_id != expected {
        Some(
            "ChunkRow point_id '"@ + row.point_id + "' does not match expected '"@ + expected
                + "' for file_id '"@ + row.file_id + "' and chunk_ordinal "@ + text::signed(
                row.chunk_ordinal as int,
            ),
        )
    } else {
        None
    }
}

impl ChunkRow {
    /// Checks what a row says of itself (see [`chunk_row_error`]).
    pub fn validate(&self) -> (r: Result<(), Failure>)
        ensures
            match r {
                Ok(_) => chunk_row_error(self@) is None,
                Err(e) => chunk_row_error(self@) == Some(e@),
            },
    {
        if let Err(e) = validate_catalog(self.catalog.as_str()) {
            let mut message = "Invalid catalog in stored row '".to_owned();
            message.append(self.catalog.as_str());
            message.append("': ");
            message.append(e.to_string().as_str());
            return Err(Failure { message });
        }
        let ghost labels = self@.active_label_ids;
        let n: usize = self.active_label_ids.len();
        for i in 0..n
            invariant
                n == self.active_label_ids@.len(),
                labels == self@.active_label_ids,
                identifier::catalog_error(self@.catalog) is None,
                stored_label_error(labels, i as int) == stored_label_error(labels, 0),
        {
            assert(labels[i as int] == self.active_label_ids@[i as int]@);
            if let Err(e) = LabelId::parse(self.active_label_ids[i].as_str()) {
                let mut message = "Invalid label_id in stored row active_label_ids: ".to_owned();
                message.append(e.to_string().as_str());
                return Err(Failure { message });
            }
        }
        if n == 0 {
            return Err(
                Failure {
                    message:
                        "ChunkRow has empty active_label_ids - a chunk must belong to at least one label".to_owned(),
                },
            );
        }
        if self.chunk_ordinal < 1 {
            let mut message = "ChunkRow has invalid chunk_ordinal ".to_owned();
            text::push_signed(&mut message, self.chunk_ordinal);
            message.append(": must be >= 1");
            return Err(Failure { message });
        }
        if self.chunk_ordinal > self.chunk_count {
            let mut message = "ChunkRow has invalid chunk_ordinal ".to_owned();
            text::push_signed(&mut message, self.chunk_ordinal);
            message.append(" > chunk_count ");
            text::push_signed(&mut message, self.chunk_count);
            return Err(Failure { message });
        }
        let expected = ids::compute_point_id(self.file_id.as_str(), self.chunk_ordinal as usize);
        if !text::same(self.point_id.as_str(), expected.as_str()) {
            let mut message = "ChunkRow point_id '".to_owned();
            message.append(self.point_id.as_str());
            message.append("' does not match expected '");
            message.append(expected.as_str());
            message.append("' for file_id '");
            message.append(self.file_id.as_str());
            message.append("' and chunk_ordinal ");
            text::push_signed(&mut message, self.chunk_ordinal);
            return Err(Failure { message });
        }
        Ok(())
    }
}

/// A row of the table of labels.
#[derive(Debug, Clone, PartialEq)]
pub struct LabelMetadataRow {
    /// The label in storage form.
    pub label_id: String,
    /// Name of the catalog.
    pub catalog: String,
    /// Name of the label.
    pub label: String,
    /// The commit that was crawled.
    pub commit_oid: String,
    /// What was crawled: a commit or a working directory.
    pub source_kind: String,
    /// Whether the crawl came to its end without failures.
    pub crawl_complete: bool,
    /// When the row was written, in seconds since 1970.
    pub updated_at_unix_secs: i64,
}

/// The mathematical counterpart of [`LabelMetadataRow`].
pub struct LabelMetadataRowView {
    pub label_id: Seq<char>,
    pub catalog: Seq<char>,
    pub label: Seq<char>,
    pub commit_oid: Seq<char>,
    pub source_kind: Seq<char>,
    pub crawl_complete: bool,
    pub updated_at_unix_secs: i64,
}

impl View for LabelMetadataRow {
    type V = LabelMetadataRowView;

    open spec fn view(&self) -> LabelMetadataRowView {
        LabelMetadataRowView {
            label_id: self.label_id@,
            catalog: self.catalog@,
            label: self.label@,
            commit_oid: self.commit_oid@,
            source_kind: self.source_kind@,
            crawl_complete: self.crawl_complete,
            updated_at_unix_secs: self.updated_at_unix_secs,
        }
    }
}

/// What is wrong with a row of the table of labels, if something is.
pub open spec fn label_row_error(row: LabelMetadataRowView) -> Option<Seq<char>> {
    let expected = identifier::storage_form(row.catalog, row.label);
    if let Some(e) = identifier::pair_error(row.catalog, row.label) {
        Some("Invalid identifier in stored metadata: "@ + e.shown())
    } else if row.label_id != expected {
        Some(
            "Label metadata has inconsistent label_id: expected '"@ + expected + "', got '"@
                + row.label_id + "'"@,
        )
    } else {
        None
    }
}

impl LabelMetadataRow {
    /// Checks the names, and that the storage form is theirs.
    pub fn validate(&self) -> (r: Result<(), Failure>)
        ensures
            match r {
                Ok(_) => label_row_error(self@) is None,
                Err(e) => label_row_error(self@) == Some(e@),
            },
    {
        match LabelId::new(self.catalog.as_str(), self.label.as_str()) {
            Err(e) => {
                let mut message = "Invalid identifier in stored metadata: ".to_owned();
                message.append(e.to_string().as_str());
                Err(Failure { message })
            },
            Ok(expected) => {
                if !text::same(self.label_id.as_str(), expected.as_str()) {
                    let mut message =
                        "Label metadata has inconsistent label_id: expected '".to_owned();
                    message.append(expected.as_str());
                    message.append("', got '");
                    message.append(self.label_id.as_str());
                    message.append("'");
                    return Err(Failure { message });
                }
                Ok(())
            },
        }
    }
}

/// A stored chunk is accepted exactly if its catalog and labels are valid, it has a label, its
/// ordinal lies between one and the number of chunks, and it is identified by its file and
/// ordinal.
pub proof fn accepted_chunk_rows(row: ChunkRowView)
    ensures
        chunk_row_error(row) is None <==> {
            &&& identifier::catalog_error(row.catalog) is None
            &&& row.active_label_ids.len() > 0
            &&& forall|i: int|
                0 <= i < row.active_label_ids.len() ==> identifier::parsed(
                    #[trigger] row.active_label_ids[i],
                ) is Ok
            &&& 1 <= row.chunk_ordinal <= row.chunk_count
            &&& row.point_id == row.file_id + seq![':'] + text::decimal(row.chunk_ordinal as nat)
        },
{
    lemma_labels_accepted(row.active_label_ids, 0);
}

proof fn lemma_labels_accepted(labels: Seq<Seq<char>>, i: int)
    requires
        0 <= i <= labels.len(),
    ensures
        stored_label_error(labels, i) is None <==> forall|k: int|
            i <= k < labels.len() ==> identifier::parsed(#[trigger] labels[k]) is Ok,
    decreases labels.len() - i,
{
    if i < labels.len() {
        lemma_labels_accepted(labels, i + 1);
    }
}

/// A stored label is accepted exactly if its names are valid and its identifier is made of
/// them.
pub proof fn accepted_label_rows(row: LabelMetadataRowView)
    ensures
        label_row_error(row) is None <==> identifier::pair_error(row.catalog, row.label) is None
            && row.label_id == row.catalog + seq![':'] + row.label,
{
}

}
