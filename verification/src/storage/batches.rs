//! Batches of rows as they are handed to the tables.
use crate::failure::Failure;
use crate::schema;
use crate::schema::{ColumnSpec, ColumnType};
use crate::storage::cells;
use crate::storage::cells::{
    chunk_row_to_cells, label_row_to_cells, Cell, CellView, RowBatch,
};
use crate::storage::rows;
use crate::storage::rows::{ChunkRow, ChunkRowView, LabelMetadataRow, LabelMetadataRowView};
use crate::text;
use arrow_schema::{DataType, Field, Schema};
use std::sync::Arc;
use vstd::prelude::*;

verus! {

/// The vectors of a batch, as an array of `arrow`.
#[verifier::external_body]
pub struct VectorColumn {
    pub array: arrow_array::FixedSizeListArray,
}

/// The number of vectors.
pub uninterp spec fn vector_count(vectors: VectorColumn) -> nat;

/// The number of vectors that are null.
pub uninterp spec fn null_vectors(vectors: VectorColumn) -> nat;

/// The columns of vectors that a batch holds, by their positions.
pub uninterp spec fn batch_vectors(batch: RowBatch) -> Map<nat, VectorColumn>;

/// No columns of vectors.
pub open spec fn no_vectors() -> Map<nat, VectorColumn> {
    Map::empty()
}

/// Most bytes that the texts of a column may have: the offsets of an array of texts are
/// signed 32-bit numbers.
pub const MAX_COLUMN_BYTES: u64 = 0x7fff_ffff;

/// Rows with one more cell each; if there is no column yet, as many rows as there are cells.
pub open spec fn widened(
    rows: Seq<Seq<CellView>>,
    width: nat,
    column: Seq<CellView>,
) -> Seq<Seq<CellView>> {
    Seq::new(
        column.len(),
        |i: int|
            (if width == 0 {
                Seq::empty()
            } else {
                rows[i]
            }).push(column[i]),
    )
}

/// The column fits a batch.
pub open spec fn fits(batch: RowBatch, len: nat) -> bool {
    cells::batch_width(batch) == 0 || cells::batch_cells(batch).len() == len
}

/// Bytes of the texts of a column.
pub open spec fn text_bytes(values: Seq<Option<String>>) -> int
    decreases values.len(),
{
    if values.len() == 0 {
        0
    } else {
        text_bytes(values.drop_last()) + match values.last() {
            Some(s) => text::byte_len(s@) as int,
            None => 0,
        }
    }
}

/// Bytes of texts.
pub open spec fn list_bytes(values: Seq<String>) -> int
    decreases values.len(),
{
    if values.len() == 0 {
        0
    } else {
        list_bytes(values.drop_last()) + text::byte_len(values.last()@) as int
    }
}

/// The cells of a column of texts.
pub open spec fn text_column(values: Seq<Option<String>>) -> Seq<CellView> {
    values.map_values(|v: Option<String>| cells::text_opt_cell(text::view_opt(v)))
}

/// The cells of a column of numbers.
pub open spec fn int32_column(values: Seq<Option<i32>>) -> Seq<CellView> {
    values.map_values(|v: Option<i32>| cells::int32_opt_cell(v))
}

/// `arrow_array::RecordBatch::new_empty` with a schema without fields: a batch without
/// columns.
#[verifier::external_body]
fn new_batch() -> (r: RowBatch)
    ensures
        cells::batch_fields(r).len() == 0,
        cells::batch_cells(r).len() == 0,
        batch_vectors(r) == no_vectors(),
{
    RowBatch { batch: arrow_array::RecordBatch::new_empty(Arc::new(Schema::empty())) }
}

/// `arrow_array::FixedSizeListArray::len`: the number of vectors.
#[verifier::external_body]
fn count_vectors(vectors: &VectorColumn) -> (r: usize)
    ensures
        r == vector_count(*vectors),
{
    arrow_array::Array::len(&vectors.array)
}

/// `arrow_array::RecordBatch::try_new` on the columns so far and an array of texts, made by
/// `arrow_array::StringArray::from_iter`. A null cell has an empty text.
#[verifier::external_body]
fn add_texts(batch: &mut RowBatch, name: &str, nullable: bool, values: &Vec<Option<String>>)
    requires
        fits(*old(batch), values@.len()),
        nullable || forall|i: int| 0 <= i < values@.len() ==> (#[trigger] values@[i]) is Some,
        text_bytes(values@) <= MAX_COLUMN_BYTES,
    ensures
        cells::batch_fields(*final(batch)) == cells::batch_fields(*old(batch)).push(
            (name@, nullable),
        ),
        batch_vectors(*final(batch)) == batch_vectors(*old(batch)),
        cells::batch_cells(*final(batch)) == widened(
            cells::batch_cells(*old(batch)),
            cells::batch_width(*old(batch)),
            text_column(values@),
        ),
{
    let array: arrow_array::StringArray = values.iter().map(|v| v.as_deref()).collect();
    let mut fields = batch.batch.schema().fields().to_vec();
    fields.push(Arc::new(Field::new(name, DataType::Utf8, nullable)));
    let mut columns = batch.batch.columns().to_vec();
    columns.push(Arc::new(array));
    let schema = Arc::new(Schema::new(fields));
    batch.batch = arrow_array::RecordBatch::try_new(schema, columns).expect("the column fits");
}

/// `arrow_array::RecordBatch::try_new` on the columns so far and an array of numbers, made
/// by `arrow_array::Int32Array::from_iter`. A null cell has the number zero.
#[verifier::external_body]
fn add_int32s(batch: &mut RowBatch, name: &str, nullable: bool, values: &Vec<Option<i32>>)
    requires
        fits(*old(batch), values@.len()),
        nullable || forall|i: int| 0 <= i < values@.len() ==> (#[trigger] values@[i]) is Some,
    ensures
        cells::batch_fields(*final(batch)) == cells::batch_fields(*old(batch)).push(
            (name@, nullable),
        ),
        batch_vectors(*final(batch)) == batch_vectors(*old(batch)),
        cells::batch_cells(*final(batch)) == widened(
            cells::batch_cells(*old(batch)),
            cells::batch_width(*old(batch)),
            int32_column(values@),
        ),
{
    let array: arrow_array::Int32Array = values.iter().copied().collect();
    let mut fields = batch.batch.schema().fields().to_vec();
    fields.push(Arc::new(Field::new(name, DataType::Int32, nullable)));
    let mut columns = batch.batch.columns().to_vec();
    columns.push(Arc::new(array));
    let schema = Arc::new(Schema::new(fields));
    batch.batch = arrow_array::RecordBatch::try_new(schema, columns).expect("the column fits");
}

/// `arrow_array::RecordBatch::try_new` on the columns so far and an array of large numbers,
/// made by `arrow_array::Int64Array::from`.
#[verifier::external_body]
fn add_int64s(batch: &mut RowBatch, name: &str, values: &Vec<i64>)
    requires
        fits(*old(batch), values@.len()),
    ensures
        cells::batch_fields(*final(batch)) == cells::batch_fields(*old(batch)).push(
            (name@, false),
        ),
        batch_vectors(*final(batch)) == batch_vectors(*old(batch)),
        cells::batch_cells(*final(batch)) == widened(
            cells::batch_cells(*old(batch)),
            cells::batch_width(*old(batch)),
            values@.map_values(|v: i64| (CellView::Int64 { value: v, null: false })),
        ),
{
    let array = arrow_array::Int64Array::from(values.clone());
    let mut fields = batch.batch.schema().fields().to_vec();
    fields.push(Arc::new(Field::new(name, DataType::Int64, false)));
    let mut columns = batch.batch.columns().to_vec();
    columns.push(Arc::new(array));
    let schema = Arc::new(Schema::new(fields));
    batch.batch = arrow_array::RecordBatch::try_new(schema, columns).expect("the column fits");
}

/// `arrow_array::RecordBatch::try_new` on the columns so far and an array of truth values,
/// made by `arrow_array::BooleanArray::from`.
#[verifier::external_body]
fn add_booleans(batch: &mut RowBatch, name: &str, values: &Vec<bool>)
    requires
        fits(*old(batch), values@.len()),
    ensures
        cells::batch_fields(*final(batch)) == cells::batch_fields(*old(batch)).push(
            (name@, false),
        ),
        batch_vectors(*final(batch)) == batch_vectors(*old(batch)),
        cells::batch_cells(*final(batch)) == widened(
            cells::batch_cells(*old(batch)),
            cells::batch_width(*old(batch)),
            values@.map_values(|v: bool| (CellView::Boolean { value: v, null: false })),
        ),
{
    let array = arrow_array::BooleanArray::from(values.clone());
    let mut fields = batch.batch.schema().fields().to_vec();
    fields.push(Arc::new(Field::new(name, DataType::Boolean, false)));
    let mut columns = batch.batch.columns().to_vec();
    columns.push(Arc::new(array));
    let schema = Arc::new(Schema::new(fields));
    batch.batch = arrow_array::RecordBatch::try_new(schema, columns).expect("the column fits");
}

/// `arrow_array::RecordBatch::try_new` on the columns so far and an array of lists of texts,
/// made by `arrow_array::ListArray::new` of the ends of the lists in all their texts.
#[verifier::external_body]
fn add_text_lists(batch: &mut RowBatch, name: &str, lengths: &Vec<usize>, texts: &Vec<String>)
    requires
        fits(*old(batch), lengths@.len()),
        total(lengths@) == texts@.len(),
        texts@.len() <= MAX_COLUMN_BYTES,
        list_bytes(texts@) <= MAX_COLUMN_BYTES,
    ensures
        cells::batch_fields(*final(batch)) == cells::batch_fields(*old(batch)).push(
            (name@, false),
        ),
        batch_vectors(*final(batch)) == batch_vectors(*old(batch)),
        cells::batch_cells(*final(batch)) == widened(
            cells::batch_cells(*old(batch)),
            cells::batch_width(*old(batch)),
            list_column(lengths@, text::views(texts@)),
        ),
{
    let item = Arc::new(Field::new("item", DataType::Utf8, false));
    let inner = arrow_array::StringArray::from_iter_values(texts);
    let ends = arrow_buffer::OffsetBuffer::from_lengths(lengths.iter().copied());
    let array = arrow_array::ListArray::new(item.clone(), ends, Arc::new(inner), None);
    let mut fields = batch.batch.schema().fields().to_vec();
    fields.push(Arc::new(Field::new(name, DataType::List(item), false)));
    let mut columns = batch.batch.columns().to_vec();
    columns.push(Arc::new(array));
    let schema = Arc::new(Schema::new(fields));
    batch.batch = arrow_array::RecordBatch::try_new(schema, columns).expect("the column fits");
}

/// `arrow_array::Array::null_count`: the number of vectors that are null.
#[verifier::external_body]
fn count_nulls(vectors: &VectorColumn) -> (r: usize)
    ensures
        r == null_vectors(*vectors),
{
    arrow_array::Array::null_count(&vectors.array)
}

/// `arrow_array::RecordBatch::try_new` on the columns so far and the array of vectors.
#[verifier::external_body]
fn add_vectors(batch: &mut RowBatch, name: &str, nullable: bool, vectors: &VectorColumn)
    requires
        fits(*old(batch), vector_count(*vectors)),
        nullable || null_vectors(*vectors) == 0,
    ensures
        cells::batch_fields(*final(batch)) == cells::batch_fields(*old(batch)).push(
            (name@, nullable),
        ),
        batch_vectors(*final(batch)) == batch_vectors(*old(batch)).insert(
            cells::batch_fields(*old(batch)).len(),
            *vectors,
        ),
        cells::batch_cells(*final(batch)) == widened(
            cells::batch_cells(*old(batch)),
            cells::batch_width(*old(batch)),
            Seq::new(vector_count(*vectors), |i: int| CellView::Other),
        ),
{
    let array = vectors.array.clone();
    let mut fields = batch.batch.schema().fields().to_vec();
    let data_type = arrow_array::Array::data_type(&array).clone();
    fields.push(Arc::new(Field::new(name, data_type, nullable)));
    let mut columns = batch.batch.columns().to_vec();
    columns.push(Arc::new(array));
    let schema = Arc::new(Schema::new(fields));
    batch.batch = arrow_array::RecordBatch::try_new(schema, columns).expect("the column fits");
}

/// Sum of lengths.
pub open spec fn total(lengths: Seq<usize>) -> int
    decreases lengths.len(),
{
    if lengths.len() == 0 {
        0
    } else {
        total(lengths.drop_last()) + lengths.last()
    }
}

/// The cells of a column of lists, whose texts stand one after the other.
pub open spec fn list_column(lengths: Seq<usize>, texts: Seq<Seq<char>>) -> Seq<CellView> {
    Seq::new(
        lengths.len(),
        |i: int|
            CellView::TextList(
                texts.subrange(total(lengths.take(i)), total(lengths.take(i + 1))),
            ),
    )
}

/// Whether the texts of a column have at most [`MAX_COLUMN_BYTES`] bytes.
fn texts_fit(values: &Vec<Option<String>>) -> (r: bool)
    ensures
        r == (text_bytes(values@) <= MAX_COLUMN_BYTES),
{
    let n: usize = values.len();
    let mut sum: u64 = 0;
    for i in 0..n
        invariant
            n == values@.len(),
            sum == text_bytes(values@.take(i as int)),
            sum <= MAX_COLUMN_BYTES,
    {
        assert(values@.take(i + 1).drop_last() =~= values@.take(i as int));
        let size: u64 = match &values[i] {
            Some(s) => text::len_in_bytes(s.as_str()) as u64,
            None => 0,
        };
        if size > MAX_COLUMN_BYTES - sum {
            proof {
                lemma_text_bytes(values@, i + 1);
            }
            return false;
        }
        sum = sum + size;
    }
    assert(values@.take(n as int) =~= values@);
    true
}

proof fn lemma_text_bytes(values: Seq<Option<String>>, k: int)
    requires
        0 <= k <= values.len(),
    ensures
        text_bytes(values.take(k)) <= text_bytes(values),
    decreases values.len() - k,
{
    if k < values.len() {
        lemma_text_bytes(values, k + 1);
        assert(values.take(k + 1).drop_last() =~= values.take(k));
    } else {
        assert(values.take(k) =~= values);
    }
}

/// Whether texts have at most [`MAX_COLUMN_BYTES`] bytes.
fn list_fits(values: &Vec<String>) -> (r: bool)
    ensures
        r == (list_bytes(values@) <= MAX_COLUMN_BYTES),
{
    let n: usize = values.len();
    let mut sum: u64 = 0;
    for i in 0..n
        invariant
            n == values@.len(),
            sum == list_bytes(values@.take(i as int)),
            sum <= MAX_COLUMN_BYTES,
    {
        assert(values@.take(i + 1).drop_last() =~= values@.take(i as int));
        let size: u64 = text::len_in_bytes(values[i].as_str()) as u64;
        if size > MAX_COLUMN_BYTES - sum {
            proof {
                lemma_list_bytes(values@, i + 1);
            }
            return false;
        }
        sum = sum + size;
    }
    assert(values@.take(n as int) =~= values@);
    true
}

proof fn lemma_list_bytes(values: Seq<String>, k: int)
    requires
        0 <= k <= values.len(),
    ensures
        list_bytes(values.take(k)) <= list_bytes(values),
    decreases values.len() - k,
{
    if k < values.len() {
        lemma_list_bytes(values, k + 1);
        assert(values.take(k + 1).drop_last() =~= values.take(k));
    } else {
        assert(values.take(k) =~= values);
    }
}

/// A matrix of cells.
pub open spec fn matrix_views(matrix: Seq<Vec<Cell>>) -> Seq<Seq<CellView>> {
    matrix.map_values(|row: Vec<Cell>| cells::cell_views(row@))
}

/// The first `width` cells of each row.
pub open spec fn first_cells(rows: Seq<Seq<CellView>>, width: int) -> Seq<Seq<CellView>> {
    rows.map_values(|row: Seq<CellView>| row.take(width))
}

/// The field of a batch for a column of the table: it has the column's name, and may be null
/// where the column may; a field of vectors may be null where one of them is.
pub open spec fn field_for(
    column: (Seq<char>, ColumnType, bool),
    vectors: Option<&VectorColumn>,
) -> (Seq<char>, bool) {
    (
        column.0,
        if column.1 is Vector {
            null_vectors(*vectors->0) > 0
        } else {
            column.2
        },
    )
}

/// The fields of a batch for the columns of the table.
pub open spec fn fields_for(
    columns: Seq<(Seq<char>, ColumnType, bool)>,
    vectors: Option<&VectorColumn>,
) -> Seq<(Seq<char>, bool)> {
    columns.map_values(|c: (Seq<char>, ColumnType, bool)| field_for(c, vectors))
}

/// The columns of vectors, by their positions, where all of them are the given one.
pub open spec fn vector_columns(
    columns: Seq<(Seq<char>, ColumnType, bool)>,
    vectors: Option<&VectorColumn>,
) -> Map<nat, VectorColumn> {
    Map::new(
        |c: nat| c < columns.len() && columns[c as int].1 is Vector,
        |c: nat| *vectors->0,
    )
}

/// Only columns of texts and of numbers may be null.
pub open spec fn plain_columns(columns: Seq<(Seq<char>, ColumnType, bool)>) -> bool {
    forall|c: int|
        0 <= c < columns.len() && (#[trigger] columns[c]).2 ==> columns[c].1 is Text
            || columns[c].1 is Int32
}

/// The cells that stand in column `c`.
pub open spec fn column_of(rows: Seq<Seq<CellView>>, c: int) -> Seq<CellView> {
    rows.map_values(|row: Seq<CellView>| row[c])
}

/// A cell as it is written: of its column's type, and not null unless it may be.
pub open spec fn writable(column: (Seq<char>, ColumnType, bool), cell: CellView) -> bool {
    match (column.1, cell) {
        (ColumnType::Text, CellView::Text { value, null }) => if null {
            column.2 && value.len() == 0
        } else {
            true
        },
        (ColumnType::Int32, CellView::Int32 { value, null }) => if null {
            column.2 && value == 0
        } else {
            true
        },
        (ColumnType::Int64, CellView::Int64 { value, null }) => !null,
        (ColumnType::Boolean, CellView::Boolean { value, null }) => !null,
        (ColumnType::TextList, CellView::TextList(values)) => true,
        (ColumnType::Vector, CellView::Other) => true,
        _ => false,
    }
}

/// All cells of a matrix can be written.
pub open spec fn all_writable(
    columns: Seq<(Seq<char>, ColumnType, bool)>,
    rows: Seq<Seq<CellView>>,
) -> bool {
    forall|i: int, c: int|
        0 <= i < rows.len() && 0 <= c < columns.len() ==> writable(
            #[trigger] columns[c],
            #[trigger] rows[i][c],
        )
}

/// Bytes of the texts of cells.
pub open spec fn cells_bytes(column: Seq<CellView>) -> int
    decreases column.len(),
{
    if column.len() == 0 {
        0
    } else {
        cells_bytes(column.drop_last()) + match column.last() {
            CellView::Text { value, null } => if null {
                0
            } else {
                text::byte_len(value) as int
            },
            CellView::TextList(values) => texts_bytes(values),
            _ => 0,
        }
    }
}

/// Bytes of texts.
pub open spec fn texts_bytes(values: Seq<Seq<char>>) -> int
    decreases values.len(),
{
    if values.len() == 0 {
        0
    } else {
        texts_bytes(values.drop_last()) + text::byte_len(values.last()) as int
    }
}

proof fn lemma_widened(rows: Seq<Seq<CellView>>, width: int)
    requires
        0 <= width,
        forall|i: int| 0 <= i < rows.len() ==> (#[trigger] rows[i]).len() > width,
    ensures
        widened(first_cells(rows, width), width as nat, column_of(rows, width)) == first_cells(
            rows,
            width + 1,
        ),
{
    let a = widened(first_cells(rows, width), width as nat, column_of(rows, width));
    let b = first_cells(rows, width + 1);
    assert forall|i: int| 0 <= i < rows.len() implies a[i] == b[i] by {
        assert(rows[i].take(width + 1) =~= rows[i].take(width).push(rows[i][width]));
        if width == 0 {
            assert(rows[i].take(0) =~= Seq::empty());
        }
    }
    assert(a =~= b);
}

/// Number of texts in the lists of cells.
pub open spec fn item_count(column: Seq<CellView>) -> int
    decreases column.len(),
{
    if column.len() == 0 {
        0
    } else {
        item_count(column.drop_last()) + column.last().text_list().len()
    }
}

/// The column has more text than an array can hold.
pub open spec fn too_large(column: Seq<CellView>) -> bool {
    cells_bytes(column) > MAX_COLUMN_BYTES || item_count(column) > MAX_COLUMN_BYTES
}

/// The texts of a column.
fn collect_texts(matrix: &Vec<Vec<Cell>>, c: usize) -> (r: Vec<Option<String>>)
    requires
        forall|i: int| 0 <= i < matrix@.len() ==> c < (#[trigger] matrix@[i])@.len(),
        forall|i: int|
            0 <= i < matrix@.len() ==> {
                let cell = (#[trigger] matrix@[i])@[c as int]@;
                cell matches CellView::Text { value, null } && (null ==> value.len() == 0)
            },
    ensures
        text_column(r@) == column_of(matrix_views(matrix@), c as int),
        text_bytes(r@) == cells_bytes(column_of(matrix_views(matrix@), c as int)),
        item_count(column_of(matrix_views(matrix@), c as int)) == 0,
{
    let ghost column = column_of(matrix_views(matrix@), c as int);
    let n: usize = matrix.len();
    let mut out: Vec<Option<String>> = Vec::new();
    assert(text_column(out@) =~= column.take(0));
    for i in 0..n
        invariant
            n == matrix@.len(),
            column == column_of(matrix_views(matrix@), c as int),
            forall|i: int| 0 <= i < matrix@.len() ==> c < (#[trigger] matrix@[i])@.len(),
            forall|i: int|
                0 <= i < matrix@.len() ==> {
                    let cell = (#[trigger] matrix@[i])@[c as int]@;
                    cell matches CellView::Text { value, null } && (null ==> value.len() == 0)
                },
            text_column(out@) == column.take(i as int),
            text_bytes(out@) == cells_bytes(column.take(i as int)),
            item_count(column.take(i as int)) == 0,
    {
        let cell = &matrix[i][c];
        assert(column[i as int] == cell@) by {
            assert(matrix_views(matrix@)[i as int] == cells::cell_views(matrix@[i as int]@));
        }
        let value = match cell {
            Cell::Text { value, null } => if *null {
                None
            } else {
                Some(value.clone())
            },
            _ => None,
        };
        proof {
            assert(column.take(i + 1).drop_last() =~= column.take(i as int));
            assert(column.take(i + 1).last() == cell@);
            assert(out@.push(value).drop_last() =~= out@);
            if let CellView::Text { value: v, null } = cell@ {
                if null {
                    assert(v =~= Seq::empty());
                }
            }
            assert(cells::text_opt_cell(text::view_opt(value)) == cell@);
            assert(text_column(out@.push(value)) =~= text_column(out@).push(cell@));
            assert(column.take(i + 1) =~= column.take(i as int).push(cell@));
        }
        out.push(value);
    }
    assert(column.take(n as int) =~= column);
    out
}

/// The numbers of a column.
fn collect_int32s(matrix: &Vec<Vec<Cell>>, c: usize) -> (r: Vec<Option<i32>>)
    requires
        forall|i: int| 0 <= i < matrix@.len() ==> c < (#[trigger] matrix@[i])@.len(),
        forall|i: int|
            0 <= i < matrix@.len() ==> {
                let cell = (#[trigger] matrix@[i])@[c as int]@;
                cell matches CellView::Int32 { value, null } && (null ==> value == 0)
            },
    ensures
        int32_column(r@) == column_of(matrix_views(matrix@), c as int),
        !too_large(column_of(matrix_views(matrix@), c as int)),
{
    let ghost column = column_of(matrix_views(matrix@), c as int);
    let n: usize = matrix.len();
    let mut out: Vec<Option<i32>> = Vec::new();
    assert(int32_column(out@) =~= column.take(0));
    for i in 0..n
        invariant
            n == matrix@.len(),
            column == column_of(matrix_views(matrix@), c as int),
            forall|i: int| 0 <= i < matrix@.len() ==> c < (#[trigger] matrix@[i])@.len(),
            forall|i: int|
                0 <= i < matrix@.len() ==> {
                    let cell = (#[trigger] matrix@[i])@[c as int]@;
                    cell matches CellView::Int32 { value, null } && (null ==> value == 0)
                },
            int32_column(out@) == column.take(i as int),
            cells_bytes(column.take(i as int)) == 0,
            item_count(column.take(i as int)) == 0,
    {
        let cell = &matrix[i][c];
        assert(column[i as int] == cell@) by {
            assert(matrix_views(matrix@)[i as int] == cells::cell_views(matrix@[i as int]@));
        }
        let value = match cell {
            Cell::Int32 { value, null } => if *null {
                None
            } else {
                Some(*value)
            },
            _ => None,
        };
        proof {
            assert(column.take(i + 1).drop_last() =~= column.take(i as int));
            assert(column.take(i + 1).last() == cell@);
            assert(cells::int32_opt_cell(value) == cell@);
            assert(int32_column(out@.push(value)) =~= int32_column(out@).push(cell@));
            assert(column.take(i + 1) =~= column.take(i as int).push(cell@));
        }
        out.push(value);
    }
    assert(column.take(n as int) =~= column);
    out
}

/// The large numbers of a column.
fn collect_int64s(matrix: &Vec<Vec<Cell>>, c: usize) -> (r: Vec<i64>)
    requires
        forall|i: int| 0 <= i < matrix@.len() ==> c < (#[trigger] matrix@[i])@.len(),
        forall|i: int|
            0 <= i < matrix@.len() ==> {
                let cell = (#[trigger] matrix@[i])@[c as int]@;
                cell matches CellView::Int64 { value, null } && !null
            },
    ensures
        r@.map_values(|v: i64| (CellView::Int64 { value: v, null: false })) == column_of(
            matrix_views(matrix@),
            c as int,
        ),
        !too_large(column_of(matrix_views(matrix@), c as int)),
{
    let ghost column = column_of(matrix_views(matrix@), c as int);
    let ghost wrap = |v: i64| (CellView::Int64 { value: v, null: false });
    let n: usize = matrix.len();
    let mut out: Vec<i64> = Vec::new();
    assert(out@.map_values(wrap) =~= column.take(0));
    for i in 0..n
        invariant
            n == matrix@.len(),
            column == column_of(matrix_views(matrix@), c as int),
            wrap == (|v: i64| (CellView::Int64 { value: v, null: false })),
            forall|i: int| 0 <= i < matrix@.len() ==> c < (#[trigger] matrix@[i])@.len(),
            forall|i: int|
                0 <= i < matrix@.len() ==> {
                    let cell = (#[trigger] matrix@[i])@[c as int]@;
                    cell matches CellView::Int64 { value, null } && !null
                },
            out@.map_values(wrap) == column.take(i as int),
            cells_bytes(column.take(i as int)) == 0,
            item_count(column.take(i as int)) == 0,
    {
        let cell = &matrix[i][c];
        assert(column[i as int] == cell@) by {
            assert(matrix_views(matrix@)[i as int] == cells::cell_views(matrix@[i as int]@));
        }
        let value: i64 = match cell {
            Cell::Int64 { value, null: _ } => *value,
            _ => 0,
        };
        proof {
            assert(column.take(i + 1).drop_last() =~= column.take(i as int));
            assert(column.take(i + 1).last() == cell@);
            assert(out@.push(value).map_values(wrap) =~= out@.map_values(wrap).push(cell@));
            assert(column.take(i + 1) =~= column.take(i as int).push(cell@));
        }
        out.push(value);
    }
    assert(column.take(n as int) =~= column);
    out
}

/// The truth values of a column.
fn collect_booleans(matrix: &Vec<Vec<Cell>>, c: usize) -> (r: Vec<bool>)
    requires
        forall|i: int| 0 <= i < matrix@.len() ==> c < (#[trigger] matrix@[i])@.len(),
        forall|i: int|
            0 <= i < matrix@.len() ==> {
                let cell = (#[trigger] matrix@[i])@[c as int]@;
                cell matches CellView::Boolean { value, null } && !null
            },
    ensures
        r@.map_values(|v: bool| (CellView::Boolean { value: v, null: false })) == column_of(
            matrix_views(matrix@),
            c as int,
        ),
        !too_large(column_of(matrix_views(matrix@), c as int)),
{
    let ghost column = column_of(matrix_views(matrix@), c as int);
    let ghost wrap = |v: bool| (CellView::Boolean { value: v, null: false });
    let n: usize = matrix.len();
    let mut out: Vec<bool> = Vec::new();
    assert(out@.map_values(wrap) =~= column.take(0));
    for i in 0..n
        invariant
            n == matrix@.len(),
            column == column_of(matrix_views(matrix@), c as int),
            wrap == (|v: bool| (CellView::Boolean { value: v, null: false })),
            forall|i: int| 0 <= i < matrix@.len() ==> c < (#[trigger] matrix@[i])@.len(),
            forall|i: int|
                0 <= i < matrix@.len() ==> {
                    let cell = (#[trigger] matrix@[i])@[c as int]@;
                    cell matches CellView::Boolean { value, null } && !null
                },
            out@.map_values(wrap) == column.take(i as int),
            cells_bytes(column.take(i as int)) == 0,
            item_count(column.take(i as int)) == 0,
    {
        let cell = &matrix[i][c];
        assert(column[i as int] == cell@) by {
            assert(matrix_views(matrix@)[i as int] == cells::cell_views(matrix@[i as int]@));
        }
        let value: bool = match cell {
            Cell::Boolean { value, null: _ } => *value,
            _ => false,
        };
        proof {
            assert(column.take(i + 1).drop_last() =~= column.take(i as int));
            assert(column.take(i + 1).last() == cell@);
            assert(out@.push(value).map_values(wrap) =~= out@.map_values(wrap).push(cell@));
            assert(column.take(i + 1) =~= column.take(i as int).push(cell@));
        }
        out.push(value);
    }
    assert(column.take(n as int) =~= column);
    out
}

proof fn lemma_total(lengths: Seq<usize>, k: int)
    requires
        0 <= k <= lengths.len(),
    ensures
        0 <= total(lengths.take(k)) <= total(lengths),
    decreases lengths.len() - k,
{
    lemma_total_positive(lengths.take(k));
    if k < lengths.len() {
        lemma_total(lengths, k + 1);
        assert(lengths.take(k + 1).drop_last() =~= lengths.take(k));
    } else {
        assert(lengths.take(k) =~= lengths);
    }
}

proof fn lemma_total_positive(lengths: Seq<usize>)
    ensures
        0 <= total(lengths),
    decreases lengths.len(),
{
    if lengths.len() > 0 {
        lemma_total_positive(lengths.drop_last());
    }
}

proof fn lemma_list_bytes_concat(values: Seq<String>, more: Seq<String>)
    ensures
        list_bytes(values + more) == list_bytes(values) + texts_bytes(text::views(more)),
    decreases more.len(),
{
    if more.len() == 0 {
        assert(values + more =~= values);
    } else {
        lemma_list_bytes_concat(values, more.drop_last());
        assert((values + more).drop_last() =~= values + more.drop_last());
        assert(text::views(more).drop_last() =~= text::views(more.drop_last()));
    }
}

/// The lists of a column: their lengths, and all their texts.
fn collect_lists(matrix: &Vec<Vec<Cell>>, c: usize) -> (r: (Vec<usize>, Vec<String>))
    requires
        forall|i: int| 0 <= i < matrix@.len() ==> c < (#[trigger] matrix@[i])@.len(),
        forall|i: int|
            0 <= i < matrix@.len() ==> (#[trigger] matrix@[i])@[c as int]@ is TextList,
    ensures
        list_column(r.0@, text::views(r.1@)) == column_of(matrix_views(matrix@), c as int),
        r.0@.len() == matrix@.len(),
        total(r.0@) == r.1@.len(),
        list_bytes(r.1@) == cells_bytes(column_of(matrix_views(matrix@), c as int)),
        r.1@.len() == item_count(column_of(matrix_views(matrix@), c as int)),
{
    let ghost column = column_of(matrix_views(matrix@), c as int);
    let n: usize = matrix.len();
    let mut lengths: Vec<usize> = Vec::new();
    let mut texts: Vec<String> = Vec::new();
    assert(list_column(lengths@, text::views(texts@)) =~= column.take(0));
    for i in 0..n
        invariant
            n == matrix@.len(),
            column == column_of(matrix_views(matrix@), c as int),
            forall|i: int| 0 <= i < matrix@.len() ==> c < (#[trigger] matrix@[i])@.len(),
            forall|i: int|
                0 <= i < matrix@.len() ==> (#[trigger] matrix@[i])@[c as int]@ is TextList,
            lengths@.len() == i,
            total(lengths@) == texts@.len(),
            list_column(lengths@, text::views(texts@)) == column.take(i as int),
            list_bytes(texts@) == cells_bytes(column.take(i as int)),
            texts@.len() == item_count(column.take(i as int)),
    {
        let cell = &matrix[i][c];
        assert(column[i as int] == cell@) by {
            assert(matrix_views(matrix@)[i as int] == cells::cell_views(matrix@[i as int]@));
        }
        let ghost (old_lengths, old_texts) = (lengths@, texts@);
        let mut list: Vec<String> = match cell {
            Cell::TextList(values) => {
                let copy = text::copy_strings(values, 0, values.len());
                assert(text::views(copy@) =~= text::views(values@));
                copy
            },
            _ => Vec::new(),
        };
        let ghost items = list@;
        let size: usize = list.len();
        lengths.push(size);
        texts.append(&mut list);
        proof {
            assert(column.take(i + 1).drop_last() =~= column.take(i as int));
            assert(column.take(i + 1).last() == cell@);
            assert(cell@ == CellView::TextList(text::views(items)));
            assert(text::views(items).len() == items.len());
            assert(texts@ =~= old_texts + items);
            assert(lengths@.drop_last() =~= old_lengths);
            lemma_list_bytes_concat(old_texts, items);
            let new = list_column(lengths@, text::views(texts@));
            assert forall|j: int| 0 <= j <= i implies new[j] == column.take(i + 1)[j] by {
                assert(lengths@.take(j) =~= old_lengths.take(j));
                if j < i {
                    assert(lengths@.take(j + 1) =~= old_lengths.take(j + 1));
                    lemma_total(old_lengths, j);
                    lemma_total(old_lengths, j + 1);
                    assert(list_column(old_lengths, text::views(old_texts))[j]
                        == column.take(i as int)[j]);
                    assert(text::views(texts@).subrange(
                        total(lengths@.take(j)),
                        total(lengths@.take(j + 1)),
                    ) =~= text::views(old_texts).subrange(
                        total(old_lengths.take(j)),
                        total(old_lengths.take(j + 1)),
                    )) by {
                        lemma_total_monotone(old_lengths, j);
                    }
                } else {
                    assert(lengths@.take(j + 1) =~= lengths@);
                    assert(old_lengths.take(j) =~= old_lengths);
                    assert(text::views(texts@).subrange(
                        total(old_lengths),
                        total(lengths@),
                    ) =~= text::views(items));
                }
            }
            assert(new =~= column.take(i + 1));
        }
    }
    assert(column.take(n as int) =~= column);
    (lengths, texts)
}

proof fn lemma_total_monotone(lengths: Seq<usize>, k: int)
    requires
        0 <= k < lengths.len(),
    ensures
        total(lengths.take(k)) <= total(lengths.take(k + 1)),
{
    assert(lengths.take(k + 1).drop_last() =~= lengths.take(k));
}

/// Adds column `c` of a matrix to a batch that holds the columns before it. Gives `false`
/// and leaves the batch as it is where the column is too large.
fn add_column(
    batch: &mut RowBatch,
    column: &ColumnSpec,
    matrix: &Vec<Vec<Cell>>,
    c: usize,
    vectors: Option<&VectorColumn>,
) -> (r: bool)
    requires
        forall|i: int| 0 <= i < matrix@.len() ==> c < (#[trigger] matrix@[i])@.len(),
        forall|i: int|
            0 <= i < matrix@.len() ==> writable(column@, (#[trigger] matrix@[i])@[c as int]@),
        column@.1 is Vector ==> vectors is Some && vector_count(*vectors->0) == matrix@.len(),
        column@.2 ==> column@.1 is Text || column@.1 is Int32,
        cells::batch_width(*old(batch)) == c,
        c > 0 ==> cells::batch_cells(*old(batch)) == first_cells(
            matrix_views(matrix@),
            c as int,
        ),
    ensures
        r == !too_large(column_of(matrix_views(matrix@), c as int)),
        r ==> cells::batch_width(*final(batch)) == c + 1 && cells::batch_cells(*final(batch))
            == first_cells(matrix_views(matrix@), c + 1),
        r ==> cells::batch_fields(*final(batch)) == cells::batch_fields(*old(batch)).push(
            field_for(column@, vectors),
        ),
        r ==> batch_vectors(*final(batch)) == if column@.1 is Vector {
            batch_vectors(*old(batch)).insert(c as nat, *vectors->0)
        } else {
            batch_vectors(*old(batch))
        },
        !r ==> *final(batch) == *old(batch),
{
    let ghost all = matrix_views(matrix@);
    proof {
        assert(forall|i: int|
            0 <= i < all.len() ==> (#[trigger] all[i]).len() == matrix@[i]@.len());
        lemma_widened(all, c as int);
        assert(first_cells(all, c as int).len() == matrix@.len());
        let column = column_of(all, c as int);
        if c == 0 {
            assert(widened(cells::batch_cells(*batch), 0, column) =~= widened(
                first_cells(all, 0),
                0,
                column,
            ));
        }
    }
    match column.column_type {
        ColumnType::Text => {
            let values = collect_texts(matrix, c);
            assert(text_column(values@).len() == matrix@.len());
            if !texts_fit(&values) {
                return false;
            }
            proof {
                if !column.nullable {
                    assert forall|i: int| 0 <= i < values@.len() implies (
                    #[trigger] values@[i]) is Some by {
                        assert(text_column(values@)[i] == column_of(all, c as int)[i]);
                        assert(all[i][c as int] == matrix@[i]@[c as int]@);
                    }
                }
            }
            add_texts(batch, column.name, column.nullable, &values);
        },
        ColumnType::Int32 => {
            let values = collect_int32s(matrix, c);
            assert(int32_column(values@).len() == matrix@.len());
            proof {
                if !column.nullable {
                    assert forall|i: int| 0 <= i < values@.len() implies (
                    #[trigger] values@[i]) is Some by {
                        assert(int32_column(values@)[i] == column_of(all, c as int)[i]);
                        assert(all[i][c as int] == matrix@[i]@[c as int]@);
                    }
                }
            }
            add_int32s(batch, column.name, column.nullable, &values);
        },
        ColumnType::Int64 => {
            let values = collect_int64s(matrix, c);
            assert(values@.len() == column_of(all, c as int).len());
            add_int64s(batch, column.name, &values);
        },
        ColumnType::Boolean => {
            let values = collect_booleans(matrix, c);
            assert(values@.len() == column_of(all, c as int).len());
            add_booleans(batch, column.name, &values);
        },
        ColumnType::TextList => {
            let (lengths, texts) = collect_lists(matrix, c);
            if texts.len() as u64 > MAX_COLUMN_BYTES || !list_fits(&texts) {
                return false;
            }
            add_text_lists(batch, column.name, &lengths, &texts);
        },
        ColumnType::Vector => {
            if let Some(v) = vectors {
                proof {
                    let cells = column_of(all, c as int);
                    assert forall|i: int| 0 <= i < cells.len() implies cells[i]
                        == CellView::Other by {
                        assert(all[i][c as int] == matrix@[i]@[c as int]@);
                    }
                    assert(cells =~= Seq::new(vector_count(*v), |i: int| CellView::Other));
                    lemma_no_text(cells);
                }
                add_vectors(batch, column.name, count_nulls(v) > 0, v);
            }
        },
    }
    true
}

proof fn lemma_no_text(column: Seq<CellView>)
    requires
        forall|i: int| 0 <= i < column.len() ==> (#[trigger] column[i]) == CellView::Other,
    ensures
        !too_large(column),
        cells_bytes(column) == 0,
        item_count(column) == 0,
    decreases column.len(),
{
    if column.len() > 0 {
        lemma_no_text(column.drop_last());
        assert(column.last() == column[column.len() - 1]);
    }
}

/// Makes a batch of a matrix of cells; fails where a column is too large for an array.
fn build_batch(
    columns: &Vec<ColumnSpec>,
    matrix: &Vec<Vec<Cell>>,
    vectors: Option<&VectorColumn>,
) -> (r: Option<RowBatch>)
    requires
        forall|i: int|
            0 <= i < matrix@.len() ==> (#[trigger] matrix@[i])@.len() == columns@.len(),
        all_writable(schema::column_views(columns@), matrix_views(matrix@)),
        forall|c: int|
            0 <= c < columns@.len() && (#[trigger] columns@[c])@.1 is Vector ==> vectors is Some
                && vector_count(*vectors->0) == matrix@.len(),
        columns@.len() > 0,
        plain_columns(schema::column_views(columns@)),
    ensures
        match r {
            Some(batch) => cells::batch_cells(batch) == matrix_views(matrix@)
                && cells::batch_fields(batch) == fields_for(
                schema::column_views(columns@),
                vectors,
            ) && batch_vectors(batch) == vector_columns(schema::column_views(columns@), vectors)
                && forall|c: int|
                0 <= c < columns@.len() ==> !too_large(
                    #[trigger] column_of(matrix_views(matrix@), c),
                ),
            None => exists|c: int|
                0 <= c < columns@.len() && too_large(
                    #[trigger] column_of(matrix_views(matrix@), c),
                ),
        },
{
    let ghost all = matrix_views(matrix@);
    let ghost cols = schema::column_views(columns@);
    let n: usize = columns.len();
    let mut batch = new_batch();
    assert(batch_vectors(batch) =~= vector_columns(cols.take(0), vectors));
    assert(cells::batch_fields(batch) =~= fields_for(cols.take(0), vectors));
    let mut c: usize = 0;
    while c < n
        invariant
            c <= n == columns@.len(),
            all == matrix_views(matrix@),
            cols == schema::column_views(columns@),
            forall|i: int|
                0 <= i < matrix@.len() ==> (#[trigger] matrix@[i])@.len() == columns@.len(),
            all_writable(cols, all),
            forall|c: int|
                0 <= c < columns@.len() && (#[trigger] columns@[c])@.1 is Vector ==> vectors is Some
                    && vector_count(*vectors->0) == matrix@.len(),
            plain_columns(cols),
            cells::batch_width(batch) == c,
            c > 0 ==> cells::batch_cells(batch) == first_cells(all, c as int),
            cells::batch_fields(batch) == fields_for(cols.take(c as int), vectors),
            batch_vectors(batch) == vector_columns(cols.take(c as int), vectors),
            forall|k: int| 0 <= k < c ==> !too_large(#[trigger] column_of(all, k)),
        decreases n - c,
    {
        assert forall|i: int| 0 <= i < matrix@.len() implies writable(
            columns@[c as int]@,
            (#[trigger] matrix@[i])@[c as int]@,
        ) by {
            assert(cols[c as int] == columns@[c as int]@);
            assert(all[i][c as int] == matrix@[i]@[c as int]@);
        }
        assert(cols[c as int] == columns@[c as int]@);
        if !add_column(&mut batch, &columns[c], matrix, c, vectors) {
            assert(too_large(column_of(all, c as int)));
            return None;
        }
        proof {
            assert(cells::batch_fields(batch) =~= fields_for(cols.take(c + 1), vectors));
            assert(batch_vectors(batch) =~= vector_columns(cols.take(c + 1), vectors));
        }
        c = c + 1;
    }
    proof {
        assert forall|i: int| 0 <= i < all.len() implies first_cells(all, n as int)[i]
            == all[i] by {
            assert(all[i].len() == matrix@[i]@.len());
            assert(all[i].take(n as int) =~= all[i]);
        }
        assert(first_cells(all, n as int) =~= all);
        assert(cols.take(n as int) =~= cols);
    }
    Some(batch)
}

/// The cells of rows of the table of chunks.
pub open spec fn chunk_matrix(rows: Seq<ChunkRowView>) -> Seq<Seq<CellView>> {
    rows.map_values(|r: ChunkRowView| cells::chunk_cells(r))
}

/// The cells of rows of the table of labels.
pub open spec fn label_matrix(rows: Seq<LabelMetadataRowView>) -> Seq<Seq<CellView>> {
    rows.map_values(|r: LabelMetadataRowView| cells::label_cells(r))
}

proof fn lemma_chunk_matrix_writable(rows: Seq<ChunkRowView>)
    ensures
        all_writable(schema::chunk_columns(), chunk_matrix(rows)),
{
    let columns = schema::chunk_columns();
    assert forall|i: int, c: int| 0 <= i < rows.len() && 0 <= c < columns.len() implies writable(
        #[trigger] columns[c],
        #[trigger] chunk_matrix(rows)[i][c],
    ) by {
        assert(chunk_matrix(rows)[i] == cells::chunk_cells(rows[i]));
    }
}

proof fn lemma_label_matrix_writable(rows: Seq<LabelMetadataRowView>)
    ensures
        all_writable(schema::label_columns(), label_matrix(rows)),
{
    let columns = schema::label_columns();
    assert forall|i: int, c: int| 0 <= i < rows.len() && 0 <= c < columns.len() implies writable(
        #[trigger] columns[c],
        #[trigger] label_matrix(rows)[i][c],
    ) by {
        assert(label_matrix(rows)[i] == cells::label_cells(rows[i]));
    }
}

proof fn lemma_labels_without_vectors(vectors: Option<&VectorColumn>)
    ensures
        vector_columns(schema::label_columns(), vectors) == no_vectors(),
{
    let columns = schema::label_columns();
    let made = vector_columns(columns, vectors);
    assert forall|c: nat| !(#[trigger] made.dom().contains(c)) by {
        assert(columns.len() == 7);
        if c < 7 {
            let k = c as int;
            assert(k == 0 || k == 1 || k == 2 || k == 3 || k == 4 || k == 5 || k == 6);
            assert(!(columns[k].1 is Vector));
        }
    }
    assert(made =~= no_vectors());
}

/// Some column of a matrix has more text than an array can hold.
pub open spec fn matrix_too_large(rows: Seq<Seq<CellView>>, width: int) -> bool {
    exists|c: int| 0 <= c < width && too_large(#[trigger] column_of(rows, c))
}

/// The message for rows and vectors of different number.
pub open spec fn count_mismatch(rows: nat, vectors: nat) -> Seq<char> {
    "Rows and vectors count mismatch: "@ + text::decimal(rows) + " vs "@ + text::decimal(vectors)
}

/// The error for rows and vectors of different number.
pub fn make_count_mismatch(rows: usize, vectors: usize) -> (r: Failure)
    ensures
        r@ == count_mismatch(rows as nat, vectors as nat),
{
    let mut message = "Rows and vectors count mismatch: ".to_owned();
    text::push_decimal(&mut message, rows as u64);
    message.append(" vs ");
    text::push_decimal(&mut message, vectors as u64);
    Failure { message }
}

/// The message for a batch with too much text.
pub open spec fn batch_too_large() -> Seq<char> {
    "Failed to create RecordBatch: a column holds more text than an array can"@
}

/// Makes a batch of rows of the table of chunks and their vectors.
pub fn chunk_rows_to_record_batch_with_vectors(
    rows: &Vec<ChunkRow>,
    vectors: &VectorColumn,
) -> (r: Result<RowBatch, Failure>)
    ensures
        match r {
            Ok(batch) => {
                &&& rows@.len() == vector_count(*vectors)
                &&& !matrix_too_large(chunk_matrix(rows::row_views(rows@)), 24)
                &&& cells::batch_cells(batch) == chunk_matrix(rows::row_views(rows@))
                &&& cells::batch_fields(batch) == fields_for(schema::chunk_columns(), Some(vectors))
                &&& batch_vectors(batch) == no_vectors().insert(2, *vectors)
            },
            Err(e) => if rows@.len() != vector_count(*vectors) {
                e@ == count_mismatch(rows@.len(), vector_count(*vectors))
            } else {
                matrix_too_large(chunk_matrix(rows::row_views(rows@)), 24) && e@
                    == batch_too_large()
            },
        },
{
    let n: usize = rows.len();
    let count: usize = count_vectors(vectors);
    if n != count {
        return Err(make_count_mismatch(n, count));
    }
    let columns = schema::chunks_schema();
    let ghost goal = chunk_matrix(rows::row_views(rows@));
    let mut matrix: Vec<Vec<Cell>> = Vec::new();
    assert(matrix_views(matrix@) =~= goal.take(0));
    for i in 0..n
        invariant
            n == rows@.len(),
            goal == chunk_matrix(rows::row_views(rows@)),
            matrix_views(matrix@) == goal.take(i as int),
    {
        let row = chunk_row_to_cells(&rows[i]);
        assert(goal[i as int] == cells::cell_views(row@)) by {
            assert(rows::row_views(rows@)[i as int] == rows@[i as int]@);
        }
        assert(matrix_views(matrix@.push(row)) =~= matrix_views(matrix@).push(goal[i as int]));
        assert(goal.take(i + 1) =~= goal.take(i as int).push(goal[i as int]));
        matrix.push(row);
    }
    proof {
        assert(goal.take(n as int) =~= goal);
        lemma_chunk_matrix_writable(rows::row_views(rows@));
        assert(schema::column_views(columns@).len() == columns@.len());
        assert(matrix_views(matrix@).len() == matrix@.len());
        assert forall|i: int| 0 <= i < matrix@.len() implies (#[trigger] matrix@[i])@.len()
            == columns@.len() by {
            assert(matrix_views(matrix@)[i] == cells::cell_views(matrix@[i]@));
            assert(goal[i].len() == 24);
        }
    }
    match build_batch(&columns, &matrix, Some(vectors)) {
        Some(batch) => {
            assert(batch_vectors(batch) =~= no_vectors().insert(2, *vectors));
            Ok(batch)
        },
        None => Err(
            Failure {
                message:
                    "Failed to create RecordBatch: a column holds more text than an array can".to_owned(),
            },
        ),
    }
}

/// Makes a batch of rows of the table of labels.
pub fn label_metadata_rows_to_record_batch(rows: &Vec<LabelMetadataRow>) -> (r: Result<
    RowBatch,
    Failure,
>)
    ensures
        match r {
            Ok(batch) => {
                &&& !matrix_too_large(label_matrix(cells::label_row_views(rows@)), 7)
                &&& cells::batch_cells(batch) == label_matrix(cells::label_row_views(rows@))
                &&& cells::batch_fields(batch) == fields_for(schema::label_columns(), None)
                &&& batch_vectors(batch) == no_vectors()
            },
            Err(e) => matrix_too_large(label_matrix(cells::label_row_views(rows@)), 7) && e@
                == batch_too_large(),
        },
{
    let n: usize = rows.len();
    let columns = schema::label_metadata_schema();
    let ghost goal = label_matrix(cells::label_row_views(rows@));
    let mut matrix: Vec<Vec<Cell>> = Vec::new();
    assert(matrix_views(matrix@) =~= goal.take(0));
    for i in 0..n
        invariant
            n == rows@.len(),
            goal == label_matrix(cells::label_row_views(rows@)),
            matrix_views(matrix@) == goal.take(i as int),
    {
        let row = label_row_to_cells(&rows[i]);
        assert(goal[i as int] == cells::cell_views(row@)) by {
            assert(cells::label_row_views(rows@)[i as int] == rows@[i as int]@);
        }
        assert(matrix_views(matrix@.push(row)) =~= matrix_views(matrix@).push(goal[i as int]));
        assert(goal.take(i + 1) =~= goal.take(i as int).push(goal[i as int]));
        matrix.push(row);
    }
    proof {
        assert(goal.take(n as int) =~= goal);
        lemma_label_matrix_writable(cells::label_row_views(rows@));
        assert(schema::column_views(columns@).len() == columns@.len());
        assert(matrix_views(matrix@).len() == matrix@.len());
        assert forall|i: int| 0 <= i < matrix@.len() implies (#[trigger] matrix@[i])@.len()
            == columns@.len() by {
            assert(matrix_views(matrix@)[i] == cells::cell_views(matrix@[i]@));
            assert(goal[i].len() == 7);
        }
        assert forall|c: int| 0 <= c < columns@.len() implies !((#[trigger] columns@[c])@.1
            is Vector) by {
            assert(schema::column_views(columns@)[c] == columns@[c]@);
        }
    }
    match build_batch(&columns, &matrix, None) {
        Some(batch) => {
            proof {
                lemma_labels_without_vectors(None);
            }
            Ok(batch)
        },
        None => Err(
            Failure {
                message:
                    "Failed to create RecordBatch: a column holds more text than an array can".to_owned(),
            },
        ),
    }
}

/// Reading a batch of valid rows of chunks gives the rows back, in order.
pub proof fn chunk_batch_round_trip(rows: Seq<ChunkRowView>, n: int)
    requires
        0 <= n <= rows.len(),
        forall|i: int| 0 <= i < rows.len() ==> rows::chunk_row_error(#[trigger] rows[i]) is None,
    ensures
        cells::parsed_chunk_rows(chunk_matrix(rows), n) == Ok::<_, Seq<char>>(rows.take(n)),
    decreases n,
{
    if n > 0 {
        chunk_batch_round_trip(rows, n - 1);
        cells::chunk_row_round_trip(rows[n - 1]);
        assert(rows.take(n) =~= rows.take(n - 1).push(rows[n - 1]));
    } else {
        assert(rows.take(0) =~= Seq::empty());
    }
}

/// Reading a batch of valid rows of labels gives the rows back, in order.
pub proof fn label_batch_round_trip(rows: Seq<LabelMetadataRowView>, n: int)
    requires
        0 <= n <= rows.len(),
        forall|i: int| 0 <= i < rows.len() ==> rows::label_row_error(#[trigger] rows[i]) is None,
    ensures
        cells::parsed_label_rows(label_matrix(rows), n) == Ok::<_, Seq<char>>(rows.take(n)),
    decreases n,
{
    if n > 0 {
        label_batch_round_trip(rows, n - 1);
        cells::label_row_round_trip(rows[n - 1]);
        assert(rows.take(n) =~= rows.take(n - 1).push(rows[n - 1]));
    } else {
        assert(rows.take(0) =~= Seq::empty());
    }
}

}
