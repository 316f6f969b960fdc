use monodex::schema::{
    chunks_schema, label_metadata_schema, ColumnType, CHUNKS_TABLE, LABEL_METADATA_TABLE,
    MONODEX_SCHEMA_VERSION, VECTOR_DIMENSION,
};
use monodex::storage::batches::{
    chunk_rows_to_record_batch_with_vectors, label_metadata_rows_to_record_batch, VectorColumn,
};
use monodex::storage::cells::{parse_chunk_row, parse_chunk_rows, parse_label_metadata_row, parse_label_metadata_rows, RowBatch};
use monodex::storage::queries::{
    catalog_predicate, check_dimensions, complete_value, deleted_rows, file_label_predicate,
    file_predicate, label_predicate, label_row_predicate, labels_value, plan_upsert,
    point_predicate, points_predicate, sort_by_ordinal,
};
use monodex::storage::rows::{ChunkRow, LabelMetadataRow};

fn valid_chunk_row() -> ChunkRow {
    ChunkRow {
        point_id: "abc123:1".to_string(),
        text: "some code".to_string(),
        catalog: "my-catalog".to_string(),
        active_label_ids: vec!["my-catalog:main".to_string()],
        embedder_id: "jina-embeddings-v2-base-code:v1".to_string(),
        chunker_id: "typescript-partitioner:v1".to_string(),
        blob_id: "abc123".to_string(),
        content_hash: "def456".to_string(),
        file_id: "abc123".to_string(),
        relative_path: "src/main.ts".to_string(),
        package_name: "my-package".to_string(),
        source_uri: "/path/to/src/main.ts".to_string(),
        chunk_ordinal: 1,
        chunk_count: 3,
        start_line: 1,
        end_line: 50,
        symbol_name: Some("main".to_string()),
        chunk_type: "function".to_string(),
        chunk_kind: "content".to_string(),
        breadcrumb: Some("my-package:main.ts:main".to_string()),
        split_part_ordinal: None,
        split_part_count: None,
        file_complete: true,
    }
}

#[test]
fn test_chunk_row_validate_valid() {
    let row = valid_chunk_row();
    assert!(row.validate().is_ok());
}

#[test]
fn test_chunk_row_validate_invalid_catalog() {
    let mut row = valid_chunk_row();
    row.catalog = "Invalid-Catalog".to_string(); // uppercase not allowed
    assert!(row.validate().is_err());
}

#[test]
fn test_chunk_row_validate_empty_active_label_ids() {
    let mut row = valid_chunk_row();
    row.active_label_ids.clear();
    assert!(row.validate().is_err());
}

#[test]
fn test_chunk_row_validate_invalid_active_label_id() {
    let mut row = valid_chunk_row();
    row.active_label_ids.push("invalid_label".to_string()); // missing colon
    assert!(row.validate().is_err());
}

#[test]
fn ordinals_and_identifiers_of_rows_are_checked() {
    let mut row = valid_chunk_row();
    row.chunk_ordinal = 0;
    assert!(row.validate().unwrap_err().to_string().ends_with("chunk_ordinal 0: must be >= 1"));
    let mut row = valid_chunk_row();
    row.chunk_ordinal = 4;
    assert!(row.validate().unwrap_err().to_string().contains("4 > chunk_count 3"));
    let mut row = valid_chunk_row();
    row.point_id = "abc123:2".to_string();
    assert!(row.validate().unwrap_err().to_string().contains("does not match expected 'abc123:1'"));
}

fn valid_label_metadata_row() -> LabelMetadataRow {
    LabelMetadataRow {
        label_id: "my-catalog:main".to_string(),
        catalog: "my-catalog".to_string(),
        label: "main".to_string(),
        commit_oid: "abc123def456".to_string(),
        source_kind: "git-commit".to_string(),
        crawl_complete: true,
        updated_at_unix_secs: 1700000000,
    }
}

#[test]
fn test_label_metadata_row_validate_valid() {
    let row = valid_label_metadata_row();
    assert!(row.validate().is_ok());
}

#[test]
fn test_label_metadata_row_validate_inconsistent_label_id() {
    let mut row = valid_label_metadata_row();
    row.label_id = "my-catalog:other".to_string(); // doesn't match catalog+label
    assert!(row.validate().is_err());
}

#[test]
fn test_label_metadata_row_validate_invalid_catalog() {
    let mut row = valid_label_metadata_row();
    row.catalog = "Invalid".to_string();
    row.label_id = "Invalid:main".to_string();
    assert!(row.validate().is_err());
}

#[test]
fn test_chunks_schema_constructible() {
    let schema = chunks_schema();

    assert_eq!(schema.len(), 24, "chunks table should have 24 columns");

    // The primary key is non-nullable
    let point_id = schema.iter().find(|c| c.name == "point_id").unwrap();
    assert_eq!(point_id.column_type, ColumnType::Text);
    assert!(!point_id.nullable);

    // The vectors have the dimension of the tables
    let vector = schema.iter().find(|c| c.name == "vector").unwrap();
    assert_eq!(vector.column_type, ColumnType::Vector);
    assert_eq!(VECTOR_DIMENSION, 768);

    // The labels are lists of texts
    let labels = schema.iter().find(|c| c.name == "active_label_ids").unwrap();
    assert_eq!(labels.column_type, ColumnType::TextList);
}

#[test]
fn test_label_metadata_schema_constructible() {
    let schema = label_metadata_schema();

    assert_eq!(schema.len(), 7, "label_metadata table should have 7 columns");

    let label_id = schema.iter().find(|c| c.name == "label_id").unwrap();
    assert_eq!(label_id.column_type, ColumnType::Text);
    assert!(!label_id.nullable);

    // No vector column
    assert!(schema.iter().all(|c| c.name != "vector"));
}

#[test]
fn test_schema_version_is_one() {
    // This test documents the initial version. It will need updating
    // when the schema evolves.
    assert_eq!(MONODEX_SCHEMA_VERSION, 1);
}

#[test]
fn test_table_name_constants() {
    assert_eq!(CHUNKS_TABLE, "chunks");
    assert_eq!(LABEL_METADATA_TABLE, "label_metadata");
}

fn vectors(count: usize) -> VectorColumn {
    let field = arrow_schema::Field::new("item", arrow_schema::DataType::Float32, true);
    let values = arrow_array::Float32Array::from(vec![0.5f32; count * VECTOR_DIMENSION]);
    VectorColumn {
        array: arrow_array::FixedSizeListArray::new(
            std::sync::Arc::new(field),
            VECTOR_DIMENSION as i32,
            std::sync::Arc::new(values),
            None,
        ),
    }
}

fn second_row() -> ChunkRow {
    let mut row = valid_chunk_row();
    row.point_id = "abc123:2".to_string();
    row.chunk_ordinal = 2;
    row.symbol_name = None;
    row.breadcrumb = None;
    row.split_part_ordinal = Some(1);
    row.split_part_count = Some(4);
    row.file_complete = false;
    row.active_label_ids.push("my-catalog:feature/x".to_string());
    row.text = "zwei\n→ é".to_string();
    row
}

#[test]
fn chunk_rows_survive_a_batch() {
    let rows = vec![valid_chunk_row(), second_row()];
    let batch = chunk_rows_to_record_batch_with_vectors(&rows, &vectors(2)).unwrap();
    assert_eq!(batch.batch.num_rows(), 2);
    assert_eq!(batch.batch.num_columns(), 24);
    let again = parse_chunk_rows(&batch).unwrap().unwrap();
    assert_eq!(again, rows);
    assert_eq!(parse_chunk_row(&batch, 1).unwrap(), rows[1]);
}

#[test]
fn columns_of_a_batch_have_their_names() {
    let rows = vec![valid_chunk_row()];
    let batch = chunk_rows_to_record_batch_with_vectors(&rows, &vectors(1)).unwrap();
    let schema = batch.batch.schema();
    for (i, column) in chunks_schema().iter().enumerate() {
        assert_eq!(schema.field(i).name(), column.name);
        assert_eq!(schema.field(i).is_nullable(), column.nullable);
    }
    let given = vectors(1);
    assert_eq!(
        arrow_array::Array::to_data(batch.batch.column(2)),
        arrow_array::Array::to_data(&given.array)
    );
}

#[test]
fn rows_and_vectors_must_be_of_the_same_number() {
    let rows = vec![valid_chunk_row()];
    assert!(chunk_rows_to_record_batch_with_vectors(&rows, &vectors(2)).is_err());
    assert!(plan_upsert(&rows, 2).is_err());
}

#[test]
fn label_rows_survive_a_batch() {
    let mut other = valid_label_metadata_row();
    other.label = "next".to_string();
    other.label_id = "my-catalog:next".to_string();
    other.crawl_complete = false;
    other.updated_at_unix_secs = -5;
    let rows = vec![valid_label_metadata_row(), other];
    let batch = label_metadata_rows_to_record_batch(&rows).unwrap();
    assert_eq!(parse_label_metadata_row(&batch, 0).unwrap(), rows[0]);
    assert_eq!(parse_label_metadata_row(&batch, 1).unwrap(), rows[1]);
    assert_eq!(parse_label_metadata_rows(&batch).unwrap().unwrap(), rows);
    let empty = arrow_array::RecordBatch::new_empty(std::sync::Arc::new(arrow_schema::Schema::empty()));
    assert!(parse_label_metadata_rows(&RowBatch { batch: empty }).is_none());
    let mut bad = valid_label_metadata_row();
    bad.catalog = "not valid".to_string();
    let batch = label_metadata_rows_to_record_batch(&vec![valid_label_metadata_row(), bad]).unwrap();
    assert!(parse_label_metadata_rows(&batch).unwrap().is_err());
}

#[test]
fn a_batch_of_another_table_is_not_read() {
    let batch = label_metadata_rows_to_record_batch(&vec![valid_label_metadata_row()]).unwrap();
    assert!(parse_chunk_rows(&batch).is_none());
    let empty = RowBatch {
        batch: arrow_array::RecordBatch::new_empty(std::sync::Arc::new(
            arrow_schema::Schema::empty(),
        )),
    };
    assert!(parse_chunk_rows(&empty).is_none());
}

#[test]
fn a_bad_row_of_a_batch_is_reported() {
    let mut bad = second_row();
    bad.active_label_ids.clear();
    let rows = vec![valid_chunk_row(), bad];
    let batch = chunk_rows_to_record_batch_with_vectors(&rows, &vectors(2)).unwrap();
    assert!(parse_chunk_row(&batch, 0).is_ok());
    let err = parse_chunk_rows(&batch).unwrap().unwrap_err();
    assert!(err.to_string().contains("empty active_label_ids"));
}

#[test]
fn conditions_are_written_for_the_tables() {
    assert_eq!(point_predicate("a:1"), "point_id = 'a:1'");
    assert_eq!(file_predicate("a"), "file_id = 'a'");
    assert_eq!(catalog_predicate("c"), "catalog = 'c'");
    assert_eq!(label_row_predicate("c:l"), "label_id = 'c:l'");
    assert_eq!(label_predicate("c:l", None), "array_contains(active_label_ids, 'c:l')");
    assert!(label_predicate("c:l", Some(1)).contains("chunk_ordinal = 1"));
    assert!(file_label_predicate("a", "c:l").starts_with("file_id = 'a' AND "));
    assert_eq!(points_predicate(&vec![]), None);
    let two = vec!["a:1".to_string(), "b:2".to_string()];
    assert_eq!(points_predicate(&two).unwrap(), "point_id IN ('a:1', 'b:2')");
    assert!(labels_value(&vec![]).is_err());
    assert!(labels_value(&two).unwrap().contains("'a:1', 'b:2'"));
    assert_eq!(complete_value(true), "true");
    assert_eq!(complete_value(false), "false");
    assert_eq!(deleted_rows(7, 3), 4);
    assert_eq!(deleted_rows(3, 7), 0);
}

#[test]
fn rows_are_written_in_portions() {
    let mut rows = Vec::new();
    for _ in 0..2001 {
        rows.push(valid_chunk_row());
    }
    assert_eq!(plan_upsert(&rows, 2001).unwrap(), [(0, 1000), (1000, 2000), (2000, 2001)]);
    assert!(plan_upsert(&vec![], 5).unwrap().is_empty());
    rows[1500].catalog = "Bad".to_string();
    assert!(plan_upsert(&rows, 2001).is_err());
}

#[test]
fn vectors_must_have_the_dimension() {
    assert!(check_dimensions(&vec![768, 768], 0, 2).is_ok());
    assert!(check_dimensions(&vec![768, 12], 0, 2).unwrap_err().to_string().contains("12"));
    assert!(check_dimensions(&vec![768, 12], 0, 1).is_ok());
}

#[test]
fn rows_are_sorted_by_ordinal() {
    let sorted = sort_by_ordinal(vec![second_row(), valid_chunk_row()]);
    assert_eq!(sorted[0].chunk_ordinal, 1);
    assert_eq!(sorted[1].chunk_ordinal, 2);
}
