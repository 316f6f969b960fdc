//! Rows as cells: what stands in each column of a table.
use crate::failure::Failure;
use crate::schema;
use crate::schema::{ColumnSpec, ColumnType};
use crate::storage::rows;
use crate::storage::rows::{ChunkRow, ChunkRowView, LabelMetadataRow, LabelMetadataRowView};
use crate::text;
use arrow_array::cast::AsArray;
use arrow_array::types::{Int32Type, Int64Type};
use arrow_array::Array;
use arrow_schema::DataType;
use vstd::prelude::*;

verus! {

/// What stands in a column at a row. A cell that is null has a value all the same, which
/// means nothing.
#[derive(Debug, Clone)]
#[allow(inconsistent_fields)]
pub enum Cell {
    Text { value: String, null: bool },
    Int32 { value: i32, null: bool },
    Int64 { value: i64, null: bool },
    Boolean { value: bool, null: bool },
    /// A list of texts.
    TextList(Vec<String>),
    /// A list of something else.
    OtherList,
    /// Anything else; vectors are kept beside the cells.
    Other,
}

/// The mathematical counterpart of [`Cell`].
#[allow(inconsistent_fields)]
pub enum CellView {
    Text { value: Seq<char>, null: bool },
    Int32 { value: i32, null: bool },
    Int64 { value: i64, null: bool },
    Boolean { value: bool, null: bool },
    TextList(Seq<Seq<char>>),
    OtherList,
    Other,
}

impl View for Cell {
    type V = CellView;

    open spec fn view(&self) -> CellView {
        match *self {
            Cell::Text { value, null } => CellView::Text { value: value@, null },
            Cell::Int32 { value, null } => CellView::Int32 { value, null },
            Cell::Int64 { value, null } => CellView::Int64 { value, null },
            Cell::Boolean { value, null } => CellView::Boolean { value, null },
            Cell::TextList(values) => CellView::TextList(text::views(values@)),
            Cell::OtherList => CellView::OtherList,
            Cell::Other => CellView::Other,
        }
    }
}

/// The counterparts of a list of cells.
pub open spec fn cell_views(cells: Seq<Cell>) -> Seq<CellView> {
    cells.map_values(|c: Cell| c@)
}

impl CellView {
    /// The text of a cell.
    pub open spec fn text(self) -> Seq<char> {
        match self {
            CellView::Text { value, null } => value,
            _ => Seq::empty(),
        }
    }

    /// The text of a cell that is not null.
    pub open spec fn text_opt(self) -> Option<Seq<char>> {
        match self {
            CellView::Text { value, null } => if null {
                None
            } else {
                Some(value)
            },
            _ => None,
        }
    }

    /// The number of a cell.
    pub open spec fn int32(self) -> i32 {
        match self {
            CellView::Int32 { value, null } => value,
            _ => 0,
        }
    }

    /// The number of a cell that is not null.
    pub open spec fn int32_opt(self) -> Option<i32> {
        match self {
            CellView::Int32 { value, null } => if null {
                None
            } else {
                Some(value)
            },
            _ => None,
        }
    }

    /// The large number of a cell.
    pub open spec fn int64(self) -> i64 {
        match self {
            CellView::Int64 { value, null } => value,
            _ => 0,
        }
    }

    /// The truth value of a cell.
    pub open spec fn boolean(self) -> bool {
        match self {
            CellView::Boolean { value, null } => value,
            _ => false,
        }
    }

    /// The texts of a cell.
    pub open spec fn text_list(self) -> Seq<Seq<char>> {
        match self {
            CellView::TextList(values) => values,
            _ => Seq::empty(),
        }
    }
}

/// What is wrong with a cell of a column, if something is. Vectors are not looked at.
pub open spec fn cell_error(
    column: (Seq<char>, ColumnType, bool),
    cell: CellView,
) -> Option<Seq<char>> {
    match (column.1, cell) {
        (ColumnType::Text, CellView::Text { value, null }) => None,
        (ColumnType::Text, _) => Some(column.0 + " column is not a StringArray"@),
        (ColumnType::Int32, CellView::Int32 { value, null }) => None,
        (ColumnType::Int32, _) => Some(column.0 + " column is not an Int32Array"@),
        (ColumnType::Int64, CellView::Int64 { value, null }) => None,
        (ColumnType::Int64, _) => Some(column.0 + " column is not an Int64Array"@),
        (ColumnType::Boolean, CellView::Boolean { value, null }) => None,
        (ColumnType::Boolean, _) => Some(column.0 + " column is not a BooleanArray"@),
        (ColumnType::TextList, CellView::TextList(values)) => None,
        (ColumnType::TextList, CellView::OtherList) => Some(
            column.0 + " inner array is not a StringArray"@,
        ),
        (ColumnType::TextList, _) => Some(column.0 + " column is not a ListArray"@),
        (ColumnType::Vector, _) => None,
    }
}

/// What is wrong with the first bad cell from position `i` on.
pub open spec fn first_cell_error(
    columns: Seq<(Seq<char>, ColumnType, bool)>,
    cells: Seq<CellView>,
    i: int,
) -> Option<Seq<char>>
    decreases columns.len() - i,
{
    if i < 0 || i >= columns.len() {
        None
    } else {
        match cell_error(columns[i], cells[i]) {
            Some(message) => Some(message),
            None => first_cell_error(columns, cells, i + 1),
        }
    }
}

/// The row of the table of chunks that the cells make.
pub open spec fn chunk_row_of(cells: Seq<CellView>) -> ChunkRowView {
    ChunkRowView {
        point_id: cells[0].text(),
        text: cells[1].text(),
        catalog: cells[3].text(),
        active_label_ids: cells[4].text_list(),
        embedder_id: cells[5].text(),
        chunker_id: cells[6].text(),
        blob_id: cells[7].text(),
        content_hash: cells[8].text(),
        file_id: cells[9].text(),
        relative_path: cells[10].text(),
        package_name: cells[11].text(),
        source_uri: cells[12].text(),
        chunk_ordinal: cells[13].int32(),
        chunk_count: cells[14].int32(),
        start_line: cells[15].int32(),
        end_line: cells[16].int32(),
        symbol_name: cells[17].text_opt(),
        chunk_type: cells[18].text(),
        chunk_kind: cells[19].text(),
        breadcrumb: cells[20].text_opt(),
        split_part_ordinal: cells[21].int32_opt(),
        split_part_count: cells[22].int32_opt(),
        file_complete: cells[23].boolean(),
    }
}

/// The row of the table of chunks that the cells make, or what is wrong with it: first a
/// cell that does not fit its column, then what the row says of itself.
pub open spec fn parsed_chunk_row(cells: Seq<CellView>) -> Result<ChunkRowView, Seq<char>> {
    match first_cell_error(schema::chunk_columns(), cells, 0) {
        Some(message) => Err(message),
        None => match rows::chunk_row_error(chunk_row_of(cells)) {
            Some(message) => Err(message),
            None => Ok(chunk_row_of(cells)),
        },
    }
}

/// The row of the table of labels that the cells make.
pub open spec fn label_row_of(cells: Seq<CellView>) -> LabelMetadataRowView {
    LabelMetadataRowView {
        label_id: cells[0].text(),
        catalog: cells[1].text(),
        label: cells[2].text(),
        commit_oid: cells[3].text(),
        source_kind: cells[4].text(),
        crawl_complete: cells[5].boolean(),
        updated_at_unix_secs: cells[6].int64(),
    }
}

/// The row of the table of labels that the cells make, or what is wrong with it.
pub open spec fn parsed_label_row(cells: Seq<CellView>) -> Result<LabelMetadataRowView, Seq<char>> {
    match first_cell_error(schema::label_columns(), cells, 0) {
        Some(message) => Err(message),
        None => match rows::label_row_error(label_row_of(cells)) {
            Some(message) => Err(message),
            None => Ok(label_row_of(cells)),
        },
    }
}

impl Cell {
    fn text(&self) -> (r: String)
        ensures
            r@ == self@.text(),
    {
        match self {
            Cell::Text { value, null: _ } => value.clone(),
            _ => String::new(),
        }
    }

    fn text_opt(&self) -> (r: Option<String>)
        ensures
            text::view_opt(r) == self@.text_opt(),
    {
        match self {
            Cell::Text { value, null } => if *null {
                None
            } else {
                Some(value.clone())
            },
            _ => None,
        }
    }

    fn int32(&self) -> (r: i32)
        ensures
            r == self@.int32(),
    {
        match self {
            Cell::Int32 { value, null: _ } => *value,
            _ => 0,
        }
    }

    fn int32_opt(&self) -> (r: Option<i32>)
        ensures
            r == self@.int32_opt(),
    {
        match self {
            Cell::Int32 { value, null } => if *null {
                None
            } else {
                Some(*value)
            },
            _ => None,
        }
    }

    fn int64(&self) -> (r: i64)
        ensures
            r == self@.int64(),
    {
        match self {
            Cell::Int64 { value, null: _ } => *value,
            _ => 0,
        }
    }

    fn boolean(&self) -> (r: bool)
        ensures
            r == self@.boolean(),
    {
        match self {
            Cell::Boolean { value, null: _ } => *value,
            _ => false,
        }
    }

    fn text_list(&self) -> (r: Vec<String>)
        ensures
            text::views(r@) == self@.text_list(),
    {
        match self {
            Cell::TextList(values) => {
                let r = text::copy_strings(values, 0, values.len());
                assert(text::views(r@) =~= text::views(values@));
                r
            },
            _ => {
                let r: Vec<String> = Vec::new();
                assert(text::views(r@) =~= Seq::empty());
                r
            },
        }
    }
}

/// What is wrong with a cell of a column, if something is.
fn check_cell(column: &ColumnSpec, cell: &Cell) -> (r: Option<String>)
    ensures
        text::view_opt(r) == cell_error(column@, cell@),
{
    let fault = match (column.column_type, cell) {
        (ColumnType::Text, Cell::Text { .. }) => None,
        (ColumnType::Text, _) => Some(" column is not a StringArray"),
        (ColumnType::Int32, Cell::Int32 { .. }) => None,
        (ColumnType::Int32, _) => Some(" column is not an Int32Array"),
        (ColumnType::Int64, Cell::Int64 { .. }) => None,
        (ColumnType::Int64, _) => Some(" column is not an Int64Array"),
        (ColumnType::Boolean, Cell::Boolean { .. }) => None,
        (ColumnType::Boolean, _) => Some(" column is not a BooleanArray"),
        (ColumnType::TextList, Cell::TextList(_)) => None,
        (ColumnType::TextList, Cell::OtherList) => Some(" inner array is not a StringArray"),
        (ColumnType::TextList, _) => Some(" column is not a ListArray"),
        (ColumnType::Vector, _) => None,
    };
    match fault {
        Some(words) => {
            let mut message = column.name.to_owned();
            message.append(words);
            Some(message)
        },
        None => None,
    }
}

/// What is wrong with the first bad cell.
fn check_cells(columns: &Vec<ColumnSpec>, cells: &Vec<Cell>) -> (r: Option<String>)
    requires
        columns@.len() <= cells@.len(),
    ensures
        text::view_opt(r) == first_cell_error(
            schema::column_views(columns@),
            cell_views(cells@),
            0,
        ),
{
    let ghost (cols, all) = (schema::column_views(columns@), cell_views(cells@));
    let n: usize = columns.len();
    for i in 0..n
        invariant
            n == columns@.len() <= cells@.len(),
            cols == schema::column_views(columns@),
            all == cell_views(cells@),
            first_cell_error(cols, all, i as int) == first_cell_error(cols, all, 0),
    {
        assert(cols[i as int] == columns@[i as int]@ && all[i as int] == cells@[i as int]@);
        let fault = check_cell(&columns[i], &cells[i]);
        if fault.is_some() {
            return fault;
        }
    }
    None
}

/// Makes a row of the table of chunks of its cells (see [`parsed_chunk_row`]).
pub fn chunk_row_from_cells(cells: &Vec<Cell>) -> (r: Result<ChunkRow, Failure>)
    requires
        cells@.len() >= 24,
    ensures
        match r {
            Ok(row) => parsed_chunk_row(cell_views(cells@)) == Ok::<_, Seq<char>>(row@),
            Err(e) => parsed_chunk_row(cell_views(cells@)) == Err::<ChunkRowView, _>(e@),
        },
{
    let columns = schema::chunks_schema();
    assert(schema::column_views(columns@).len() == columns@.len());
    if let Some(message) = check_cells(&columns, cells) {
        return Err(Failure { message });
    }
    let row = ChunkRow {
        point_id: cells[0].text(),
        text: cells[1].text(),
        catalog: cells[3].text(),
        active_label_ids: cells[4].text_list(),
        embedder_id: cells[5].text(),
        chunker_id: cells[6].text(),
        blob_id: cells[7].text(),
        content_hash: cells[8].text(),
        file_id: cells[9].text(),
        relative_path: cells[10].text(),
        package_name: cells[11].text(),
        source_uri: cells[12].text(),
        chunk_ordinal: cells[13].int32(),
        chunk_count: cells[14].int32(),
        start_line: cells[15].int32(),
        end_line: cells[16].int32(),
        symbol_name: cells[17].text_opt(),
        chunk_type: cells[18].text(),
        chunk_kind: cells[19].text(),
        breadcrumb: cells[20].text_opt(),
        split_part_ordinal: cells[21].int32_opt(),
        split_part_count: cells[22].int32_opt(),
        file_complete: cells[23].boolean(),
    };
    assert(row@ == chunk_row_of(cell_views(cells@)));
    match row.validate() {
        Ok(_) => Ok(row),
        Err(e) => Err(e),
    }
}

/// Makes a row of the table of labels of its cells (see [`parsed_label_row`]).
pub fn label_row_from_cells(cells: &Vec<Cell>) -> (r: Result<LabelMetadataRow, Failure>)
    requires
        cells@.len() >= 7,
    ensures
        match r {
            Ok(row) => parsed_label_row(cell_views(cells@)) == Ok::<_, Seq<char>>(row@),
            Err(e) => parsed_label_row(cell_views(cells@)) == Err::<LabelMetadataRowView, _>(e@),
        },
{
    let columns = schema::label_metadata_schema();
    assert(schema::column_views(columns@).len() == columns@.len());
    if let Some(message) = check_cells(&columns, cells) {
        return Err(Failure { message });
    }
    let row = LabelMetadataRow {
        label_id: cells[0].text(),
        catalog: cells[1].text(),
        label: cells[2].text(),
        commit_oid: cells[3].text(),
        source_kind: cells[4].text(),
        crawl_complete: cells[5].boolean(),
        updated_at_unix_secs: cells[6].int64(),
    };
    assert(row@ == label_row_of(cell_views(cells@)));
    match row.validate() {
        Ok(_) => Ok(row),
        Err(e) => Err(e),
    }
}

/// A batch of rows of `arrow`.
#[verifier::external_body]
pub struct RowBatch {
    pub batch: arrow_array::RecordBatch,
}

/// The rows of a batch, each with its cells in the order of the columns.
pub uninterp spec fn batch_cells(batch: RowBatch) -> Seq<Seq<CellView>>;

/// The columns of a batch: the name of each, and whether its cells may be null.
pub uninterp spec fn batch_fields(batch: RowBatch) -> Seq<(Seq<char>, bool)>;

/// The number of columns of a batch.
pub open spec fn batch_width(batch: RowBatch) -> nat {
    batch_fields(batch).len()
}

/// `arrow_array::RecordBatch::num_rows`: the number of rows.
#[verifier::external_body]
fn row_count(batch: &RowBatch) -> (r: usize)
    ensures
        r == batch_cells(*batch).len(),
{
    batch.batch.num_rows()
}

/// `arrow_array::RecordBatch::num_columns`: the number of cells that every row has.
#[verifier::external_body]
fn column_count(batch: &RowBatch) -> (r: usize)
    ensures
        r == batch_fields(*batch).len(),
        forall|i: int|
            0 <= i < batch_cells(*batch).len() ==> r == (#[trigger] batch_cells(*batch)[i]).len(),
{
    batch.batch.num_columns()
}

/// The cell holds a single text, number or truth value.
pub open spec fn is_scalar(cell: CellView) -> bool {
    cell is Text || cell is Int32 || cell is Int64 || cell is Boolean
}

/// `arrow_array::RecordBatch::column` and the accessors of its arrays: the text, number or
/// truth value that stands in a column at a row, told apart by the data type of the array.
/// A value is read also where the cell is null. Columns of other data types have none.
#[verifier::external_body]
fn scalar_at(batch: &RowBatch, row: usize, column: usize) -> (r: Option<Cell>)
    requires
        row < batch_cells(*batch).len(),
        column < batch_cells(*batch)[row as int].len(),
    ensures
        r is Some <==> is_scalar(batch_cells(*batch)[row as int][column as int]),
        r matches Some(cell) ==> cell@ == batch_cells(*batch)[row as int][column as int],
{
    let array = batch.batch.column(column);
    let null = array.is_null(row);
    match array.data_type() {
        DataType::Utf8 => Some(Cell::Text { value: array.as_string::<i32>().value(row).to_string(), null }),
        DataType::Int32 => Some(Cell::Int32 { value: array.as_primitive::<Int32Type>().value(row), null }),
        DataType::Int64 => Some(Cell::Int64 { value: array.as_primitive::<Int64Type>().value(row), null }),
        DataType::Boolean => Some(Cell::Boolean { value: array.as_boolean().value(row), null }),
        _ => None,
    }
}

/// `arrow_array::RecordBatch::column` and `arrow_array::ListArray::value`: the texts of the
/// list that stands in a column at a row.
#[verifier::external_body]
fn list_at(batch: &RowBatch, row: usize, column: usize) -> (r: Cell)
    requires
        row < batch_cells(*batch).len(),
        column < batch_cells(*batch)[row as int].len(),
        !is_scalar(batch_cells(*batch)[row as int][column as int]),
    ensures
        r@ == batch_cells(*batch)[row as int][column as int],
{
    match batch.batch.column(column).as_list_opt::<i32>() {
        None => Cell::Other,
        Some(lists) => match lists.value(row).as_string_opt::<i32>() {
            None => Cell::OtherList,
            Some(texts) => Cell::TextList((0..texts.len()).map(|i| texts.value(i).to_string()).collect()),
        },
    }
}

/// Reads the cells of a row.
fn row_cells(batch: &RowBatch, row: usize, columns: usize) -> (r: Vec<Cell>)
    requires
        row < batch_cells(*batch).len(),
        columns == batch_cells(*batch)[row as int].len(),
    ensures
        cell_views(r@) == batch_cells(*batch)[row as int],
{
    let ghost all = batch_cells(*batch)[row as int];
    let mut out: Vec<Cell> = Vec::new();
    assert(cell_views(out@) =~= all.take(0));
    for i in 0..columns
        invariant
            row < batch_cells(*batch).len(),
            all == batch_cells(*batch)[row as int],
            columns == all.len(),
            cell_views(out@) == all.take(i as int),
    {
        let cell = match scalar_at(batch, row, i) {
            Some(cell) => cell,
            None => list_at(batch, row, i),
        };
        assert(cell_views(out@.push(cell)) =~= cell_views(out@).push(cell@));
        assert(all.take(i + 1) =~= all.take(i as int).push(all[i as int]));
        out.push(cell);
    }
    assert(all.take(columns as int) =~= all);
    out
}

/// Reads a row of the table of chunks.
pub fn parse_chunk_row(batch: &RowBatch, row_idx: usize) -> (r: Result<
    ChunkRow,
    Failure,
>)
    requires
        row_idx < batch_cells(*batch).len(),
        batch_cells(*batch)[row_idx as int].len() >= 24,
    ensures
        match r {
            Ok(row) => parsed_chunk_row(batch_cells(*batch)[row_idx as int]) == Ok::<_, Seq<char>>(
                row@,
            ),
            Err(e) => parsed_chunk_row(batch_cells(*batch)[row_idx as int]) == Err::<
                ChunkRowView,
                _,
            >(e@),
        },
{
    let columns: usize = column_count(batch);
    let cells = row_cells(batch, row_idx, columns);
    assert(cell_views(cells@).len() == cells@.len());
    chunk_row_from_cells(&cells)
}

/// Reads a row of the table of labels.
pub fn parse_label_metadata_row(batch: &RowBatch, row_idx: usize) -> (r: Result<
    LabelMetadataRow,
    Failure,
>)
    requires
        row_idx < batch_cells(*batch).len(),
        batch_cells(*batch)[row_idx as int].len() >= 7,
    ensures
        match r {
            Ok(row) => parsed_label_row(batch_cells(*batch)[row_idx as int]) == Ok::<_, Seq<char>>(
                row@,
            ),
            Err(e) => parsed_label_row(batch_cells(*batch)[row_idx as int]) == Err::<
                LabelMetadataRowView,
                _,
            >(e@),
        },
{
    let columns: usize = column_count(batch);
    let cells = row_cells(batch, row_idx, columns);
    assert(cell_views(cells@).len() == cells@.len());
    label_row_from_cells(&cells)
}

/// The first `n` rows, or what is wrong with the first bad one.
pub open spec fn parsed_chunk_rows(rows: Seq<Seq<CellView>>, n: int) -> Result<
    Seq<ChunkRowView>,
    Seq<char>,
>
    decreases n,
{
    if n <= 0 {
        Ok(Seq::empty())
    } else {
        match parsed_chunk_rows(rows, n - 1) {
            Err(message) => Err(message),
            Ok(before) => match parsed_chunk_row(rows[n - 1]) {
                Err(message) => Err(message),
                Ok(row) => Ok(before.push(row)),
            },
        }
    }
}

/// Reads all rows of a batch of the table of chunks. A batch with fewer columns than the
/// table has is not read.
pub fn parse_chunk_rows(batch: &RowBatch) -> (r: Option<
    Result<Vec<ChunkRow>, Failure>,
>)
    ensures
        match r {
            None => batch_width(*batch) < 24,
            Some(Ok(read)) => batch_width(*batch) >= 24 && parsed_chunk_rows(
                batch_cells(*batch),
                batch_cells(*batch).len() as int,
            ) == Ok::<_, Seq<char>>(rows::row_views(read@)),
            Some(Err(e)) => batch_width(*batch) >= 24 && parsed_chunk_rows(
                batch_cells(*batch),
                batch_cells(*batch).len() as int,
            ) == Err::<Seq<ChunkRowView>, _>(e@),
        },
{
    if column_count(batch) < 24 {
        return None;
    }
    let ghost all = batch_cells(*batch);
    let n: usize = row_count(batch);
    let mut out: Vec<ChunkRow> = Vec::new();
    assert(rows::row_views(out@) =~= Seq::empty());
    for i in 0..n
        invariant
            n == all.len(),
            all == batch_cells(*batch),
            batch_width(*batch) >= 24,
            forall|i: int| 0 <= i < all.len() ==> (#[trigger] all[i]).len() >= 24,
            parsed_chunk_rows(all, i as int) == Ok::<_, Seq<char>>(rows::row_views(out@)),
    {
        assert(all[i as int].len() >= 24);
        match parse_chunk_row(batch, i) {
            Ok(row) => {
                assert(rows::row_views(out@.push(row)) =~= rows::row_views(out@).push(row@));
                out.push(row);
            },
            Err(e) => {
                proof {
                    lemma_rows_error(all, i + 1, n as int);
                }
                return Some(Err(e));
            },
        }
    }
    Some(Ok(out))
}

proof fn lemma_rows_error(rows: Seq<Seq<CellView>>, k: int, n: int)
    requires
        k <= n,
        parsed_chunk_rows(rows, k) is Err,
    ensures
        parsed_chunk_rows(rows, n) == parsed_chunk_rows(rows, k),
    decreases n - k,
{
    if k < n {
        lemma_rows_error(rows, k, n - 1);
    }
}

/// The first `n` rows, or what is wrong with the first bad one.
pub open spec fn parsed_label_rows(rows: Seq<Seq<CellView>>, n: int) -> Result<
    Seq<LabelMetadataRowView>,
    Seq<char>,
>
    decreases n,
{
    if n <= 0 {
        Ok(Seq::empty())
    } else {
        match parsed_label_rows(rows, n - 1) {
            Err(message) => Err(message),
            Ok(before) => match parsed_label_row(rows[n - 1]) {
                Err(message) => Err(message),
                Ok(row) => Ok(before.push(row)),
            },
        }
    }
}

/// The counterparts of rows of the table of labels.
pub open spec fn label_row_views(rows: Seq<LabelMetadataRow>) -> Seq<LabelMetadataRowView> {
    rows.map_values(|r: LabelMetadataRow| r@)
}

/// Reads all rows of a batch of the table of labels. A batch with fewer columns than the
/// table has is not read.
pub fn parse_label_metadata_rows(batch: &RowBatch) -> (r: Option<
    Result<Vec<LabelMetadataRow>, Failure>,
>)
    ensures
        match r {
            None => batch_width(*batch) < 7,
            Some(Ok(read)) => batch_width(*batch) >= 7 && parsed_label_rows(
                batch_cells(*batch),
                batch_cells(*batch).len() as int,
            ) == Ok::<_, Seq<char>>(label_row_views(read@)),
            Some(Err(e)) => batch_width(*batch) >= 7 && parsed_label_rows(
                batch_cells(*batch),
                batch_cells(*batch).len() as int,
            ) == Err::<Seq<LabelMetadataRowView>, _>(e@),
        },
{
    if column_count(batch) < 7 {
        return None;
    }
    let ghost all = batch_cells(*batch);
    let n: usize = row_count(batch);
    let mut out: Vec<LabelMetadataRow> = Vec::new();
    assert(label_row_views(out@) =~= Seq::empty());
    for i in 0..n
        invariant
            n == all.len(),
            all == batch_cells(*batch),
            batch_width(*batch) >= 7,
            forall|i: int| 0 <= i < all.len() ==> (#[trigger] all[i]).len() >= 7,
            parsed_label_rows(all, i as int) == Ok::<_, Seq<char>>(label_row_views(out@)),
    {
        assert(all[i as int].len() >= 7);
        match parse_label_metadata_row(batch, i) {
            Ok(row) => {
                assert(label_row_views(out@.push(row)) =~= label_row_views(out@).push(row@));
                out.push(row);
            },
            Err(e) => {
                proof {
                    lemma_label_rows_error(all, i + 1, n as int);
                }
                return Some(Err(e));
            },
        }
    }
    Some(Ok(out))
}

proof fn lemma_label_rows_error(rows: Seq<Seq<CellView>>, k: int, n: int)
    requires
        k <= n,
        parsed_label_rows(rows, k) is Err,
    ensures
        parsed_label_rows(rows, n) == parsed_label_rows(rows, k),
    decreases n - k,
{
    if k < n {
        lemma_label_rows_error(rows, k, n - 1);
    }
}

/// A text that is not null.
pub open spec fn text_cell(value: Seq<char>) -> CellView {
    CellView::Text { value, null: false }
}

/// A text, or null.
pub open spec fn text_opt_cell(value: Option<Seq<char>>) -> CellView {
    match value {
        Some(v) => CellView::Text { value: v, null: false },
        None => CellView::Text { value: Seq::empty(), null: true },
    }
}

/// A number that is not null.
pub open spec fn int32_cell(value: i32) -> CellView {
    CellView::Int32 { value, null: false }
}

/// A number, or null.
pub open spec fn int32_opt_cell(value: Option<i32>) -> CellView {
    match value {
        Some(v) => CellView::Int32 { value: v, null: false },
        None => CellView::Int32 { value: 0, null: true },
    }
}

/// The cells of a row of the table of chunks.
pub open spec fn chunk_cells(row: ChunkRowView) -> Seq<CellView> {
    seq![
        text_cell(row.point_id),
        text_cell(row.text),
        CellView::Other,
        text_cell(row.catalog),
        CellView::TextList(row.active_label_ids),
        text_cell(row.embedder_id),
        text_cell(row.chunker_id),
        text_cell(row.blob_id),
        text_cell(row.content_hash),
        text_cell(row.file_id),
        text_cell(row.relative_path),
        text_cell(row.package_name),
        text_cell(row.source_uri),
        int32_cell(row.chunk_ordinal),
        int32_cell(row.chunk_count),
        int32_cell(row.start_line),
        int32_cell(row.end_line),
        text_opt_cell(row.symbol_name),
        text_cell(row.chunk_type),
        text_cell(row.chunk_kind),
        text_opt_cell(row.breadcrumb),
        int32_opt_cell(row.split_part_ordinal),
        int32_opt_cell(row.split_part_count),
        CellView::Boolean { value: row.file_complete, null: false },
    ]
}

/// The cells of a row of the table of labels.
pub open spec fn label_cells(row: LabelMetadataRowView) -> Seq<CellView> {
    seq![
        text_cell(row.label_id),
        text_cell(row.catalog),
        text_cell(row.label),
        text_cell(row.commit_oid),
        text_cell(row.source_kind),
        CellView::Boolean { value: row.crawl_complete, null: false },
        CellView::Int64 { value: row.updated_at_unix_secs, null: false },
    ]
}

fn make_text(value: &str) -> (r: Cell)
    ensures
        r@ == text_cell(value@),
{
    Cell::Text { value: value.to_owned(), null: false }
}

fn make_text_opt(value: &Option<String>) -> (r: Cell)
    ensures
        r@ == text_opt_cell(text::view_opt(*value)),
{
    match value {
        Some(v) => Cell::Text { value: v.clone(), null: false },
        None => Cell::Text { value: String::new(), null: true },
    }
}

fn make_int32_opt(value: Option<i32>) -> (r: Cell)
    ensures
        r@ == int32_opt_cell(value),
{
    match value {
        Some(v) => Cell::Int32 { value: v, null: false },
        None => Cell::Int32 { value: 0, null: true },
    }
}

/// The cells of a row of the table of chunks, with a gap for the vector.
pub fn chunk_row_to_cells(row: &ChunkRow) -> (r: Vec<Cell>)
    ensures
        cell_views(r@) == chunk_cells(row@),
{
    let labels = text::copy_strings(&row.active_label_ids, 0, row.active_label_ids.len());
    assert(text::views(labels@) =~= text::views(row.active_label_ids@));
    let mut v: Vec<Cell> = Vec::new();
    v.push(make_text(row.point_id.as_str()));
    v.push(make_text(row.text.as_str()));
    v.push(Cell::Other);
    v.push(make_text(row.catalog.as_str()));
    v.push(Cell::TextList(labels));
    v.push(make_text(row.embedder_id.as_str()));
    v.push(make_text(row.chunker_id.as_str()));
    v.push(make_text(row.blob_id.as_str()));
    v.push(make_text(row.content_hash.as_str()));
    v.push(make_text(row.file_id.as_str()));
    v.push(make_text(row.relative_path.as_str()));
    v.push(make_text(row.package_name.as_str()));
    v.push(make_text(row.source_uri.as_str()));
    v.push(Cell::Int32 { value: row.chunk_ordinal, null: false });
    v.push(Cell::Int32 { value: row.chunk_count, null: false });
    v.push(Cell::Int32 { value: row.start_line, null: false });
    v.push(Cell::Int32 { value: row.end_line, null: false });
    v.push(make_text_opt(&row.symbol_name));
    v.push(make_text(row.chunk_type.as_str()));
    v.push(make_text(row.chunk_kind.as_str()));
    v.push(make_text_opt(&row.breadcrumb));
    v.push(make_int32_opt(row.split_part_ordinal));
    v.push(make_int32_opt(row.split_part_count));
    v.push(Cell::Boolean { value: row.file_complete, null: false });
    assert(cell_views(v@) =~= chunk_cells(row@));
    v
}

/// The cells of a row of the table of labels.
pub fn label_row_to_cells(row: &LabelMetadataRow) -> (r: Vec<Cell>)
    ensures
        cell_views(r@) == label_cells(row@),
{
    let mut v: Vec<Cell> = Vec::new();
    v.push(make_text(row.label_id.as_str()));
    v.push(make_text(row.catalog.as_str()));
    v.push(make_text(row.label.as_str()));
    v.push(make_text(row.commit_oid.as_str()));
    v.push(make_text(row.source_kind.as_str()));
    v.push(Cell::Boolean { value: row.crawl_complete, null: false });
    v.push(Cell::Int64 { value: row.updated_at_unix_secs, null: false });
    assert(cell_views(v@) =~= label_cells(row@));
    v
}

/// Reading the cells of a valid row of chunks gives the row back.
pub proof fn chunk_row_round_trip(row: ChunkRowView)
    requires
        rows::chunk_row_error(row) is None,
    ensures
        parsed_chunk_row(chunk_cells(row)) == Ok::<_, Seq<char>>(row),
{
    let cells = chunk_cells(row);
    let columns = schema::chunk_columns();
    assert forall|i: int| 0 <= i < 24 implies cell_error(columns[i], cells[i]) is None by {}
    lemma_no_cell_error(columns, cells, 0);
    assert(chunk_row_of(cells) == row);
}

/// Reading the cells of a valid row of labels gives the row back.
pub proof fn label_row_round_trip(row: LabelMetadataRowView)
    requires
        rows::label_row_error(row) is None,
    ensures
        parsed_label_row(label_cells(row)) == Ok::<_, Seq<char>>(row),
{
    let cells = label_cells(row);
    let columns = schema::label_columns();
    assert forall|i: int| 0 <= i < 7 implies cell_error(columns[i], cells[i]) is None by {}
    lemma_no_cell_error(columns, cells, 0);
    assert(label_row_of(cells) == row);
}

proof fn lemma_no_cell_error(
    columns: Seq<(Seq<char>, ColumnType, bool)>,
    cells: Seq<CellView>,
    i: int,
)
    requires
        0 <= i,
        forall|j: int|
            0 <= j < columns.len() ==> cell_error(#[trigger] columns[j], cells[j]) is None,
    ensures
        first_cell_error(columns, cells, i) is None,
    decreases columns.len() - i,
{
    if i < columns.len() {
        lemma_no_cell_error(columns, cells, i + 1);
    }
}

/// What was read from a batch can be relied on: the row is valid.
pub proof fn parsed_rows_are_valid(cells: Seq<CellView>)
    requires
        parsed_chunk_row(cells) is Ok,
    ensures
        rows::chunk_row_error(parsed_chunk_row(cells)->Ok_0) is None,
{
}

/// In the table of chunks each column holds the field of its name.
pub proof fn chunk_columns_hold_the_fields_of_their_names(row: ChunkRowView)
    ensures
        schema::chunk_columns().len() == 24,
        chunk_cells(row).len() == 24,
        schema::chunk_columns()[0].0 == "point_id"@,
        chunk_cells(row)[0] == (CellView::Text { value: row.point_id, null: false }),
        schema::chunk_columns()[1].0 == "text"@,
        chunk_cells(row)[1] == (CellView::Text { value: row.text, null: false }),
        schema::chunk_columns()[2].0 == "vector"@,
        schema::chunk_columns()[3].0 == "catalog"@,
        chunk_cells(row)[3] == (CellView::Text { value: row.catalog, null: false }),
        schema::chunk_columns()[4].0 == "active_label_ids"@,
        chunk_cells(row)[4] == CellView::TextList(row.active_label_ids),
        schema::chunk_columns()[5].0 == "embedder_id"@,
        chunk_cells(row)[5] == (CellView::Text { value: row.embedder_id, null: false }),
        schema::chunk_columns()[6].0 == "chunker_id"@,
        chunk_cells(row)[6] == (CellView::Text { value: row.chunker_id, null: false }),
        schema::chunk_columns()[7].0 == "blob_id"@,
        chunk_cells(row)[7] == (CellView::Text { value: row.blob_id, null: false }),
        schema::chunk_columns()[8].0 == "content_hash"@,
        chunk_cells(row)[8] == (CellView::Text { value: row.content_hash, null: false }),
        schema::chunk_columns()[9].0 == "file_id"@,
        chunk_cells(row)[9] == (CellView::Text { value: row.file_id, null: false }),
        schema::chunk_columns()[10].0 == "relative_path"@,
        chunk_cells(row)[10] == (CellView::Text { value: row.relative_path, null: false }),
        schema::chunk_columns()[11].0 == "package_name"@,
        chunk_cells(row)[11] == (CellView::Text { value: row.package_name, null: false }),
        schema::chunk_columns()[12].0 == "source_uri"@,
        chunk_cells(row)[12] == (CellView::Text { value: row.source_uri, null: false }),
        schema::chunk_columns()[13].0 == "chunk_ordinal"@,
        chunk_cells(row)[13] == (CellView::Int32 { value: row.chunk_ordinal, null: false }),
        schema::chunk_columns()[14].0 == "chunk_count"@,
        chunk_cells(row)[14] == (CellView::Int32 { value: row.chunk_count, null: false }),
        schema::chunk_columns()[15].0 == "start_line"@,
        chunk_cells(row)[15] == (CellView::Int32 { value: row.start_line, null: false }),
        schema::chunk_columns()[16].0 == "end_line"@,
        chunk_cells(row)[16] == (CellView::Int32 { value: row.end_line, null: false }),
        schema::chunk_columns()[17].0 == "symbol_name"@,
        row.symbol_name matches Some(value) ==> chunk_cells(row)[17] == (CellView::Text { value, null: false }),
        row.symbol_name is None ==> (chunk_cells(row)[17] matches CellView::Text { value, null } && null),
        schema::chunk_columns()[18].0 == "chunk_type"@,
        chunk_cells(row)[18] == (CellView::Text { value: row.chunk_type, null: false }),
        schema::chunk_columns()[19].0 == "chunk_kind"@,
        chunk_cells(row)[19] == (CellView::Text { value: row.chunk_kind, null: false }),
        schema::chunk_columns()[20].0 == "breadcrumb"@,
        row.breadcrumb matches Some(value) ==> chunk_cells(row)[20] == (CellView::Text { value, null: false }),
        row.breadcrumb is None ==> (chunk_cells(row)[20] matches CellView::Text { value, null } && null),
        schema::chunk_columns()[21].0 == "split_part_ordinal"@,
        row.split_part_ordinal matches Some(value) ==> chunk_cells(row)[21] == (CellView::Int32 { value, null: false }),
        row.split_part_ordinal is None ==> (chunk_cells(row)[21] matches CellView::Int32 { value, null } && null),
        schema::chunk_columns()[22].0 == "split_part_count"@,
        row.split_part_count matches Some(value) ==> chunk_cells(row)[22] == (CellView::Int32 { value, null: false }),
        row.split_part_count is None ==> (chunk_cells(row)[22] matches CellView::Int32 { value, null } && null),
        schema::chunk_columns()[23].0 == "file_complete"@,
        chunk_cells(row)[23] == (CellView::Boolean { value: row.file_complete, null: false }),
{
}

/// In the table of labels each column holds the field of its name.
pub proof fn label_columns_hold_the_fields_of_their_names(row: LabelMetadataRowView)
    ensures
        schema::label_columns().len() == 7,
        label_cells(row).len() == 7,
        schema::label_columns()[0].0 == "label_id"@,
        label_cells(row)[0] == (CellView::Text { value: row.label_id, null: false }),
        schema::label_columns()[1].0 == "catalog"@,
        label_cells(row)[1] == (CellView::Text { value: row.catalog, null: false }),
        schema::label_columns()[2].0 == "label"@,
        label_cells(row)[2] == (CellView::Text { value: row.label, null: false }),
        schema::label_columns()[3].0 == "commit_oid"@,
        label_cells(row)[3] == (CellView::Text { value: row.commit_oid, null: false }),
        schema::label_columns()[4].0 == "source_kind"@,
        label_cells(row)[4] == (CellView::Text { value: row.source_kind, null: false }),
        schema::label_columns()[5].0 == "crawl_complete"@,
        label_cells(row)[5] == (CellView::Boolean { value: row.crawl_complete, null: false }),
        schema::label_columns()[6].0 == "updated_at_unix_secs"@,
        label_cells(row)[6] == (CellView::Int64 { value: row.updated_at_unix_secs, null: false }),
{
}

/// What is read from a table comes from the columns of the fields' names, whatever else the
/// cells hold.
pub proof fn rows_are_read_from_the_columns_of_their_fields(cells: Seq<CellView>)
    requires
        cells.len() == 24,
    ensures
        ({
            let row = chunk_row_of(cells);
            &&& row.point_id == cells[0].text()
            &&& row.text == cells[1].text()
            &&& row.catalog == cells[3].text()
            &&& row.active_label_ids == cells[4].text_list()
            &&& row.embedder_id == cells[5].text()
            &&& row.chunker_id == cells[6].text()
            &&& row.blob_id == cells[7].text()
            &&& row.content_hash == cells[8].text()
            &&& row.file_id == cells[9].text()
            &&& row.relative_path == cells[10].text()
            &&& row.package_name == cells[11].text()
            &&& row.source_uri == cells[12].text()
            &&& row.chunk_ordinal == cells[13].int32()
            &&& row.chunk_count == cells[14].int32()
            &&& row.start_line == cells[15].int32()
            &&& row.end_line == cells[16].int32()
            &&& row.symbol_name == cells[17].text_opt()
            &&& row.chunk_type == cells[18].text()
            &&& row.chunk_kind == cells[19].text()
            &&& row.breadcrumb == cells[20].text_opt()
            &&& row.split_part_ordinal == cells[21].int32_opt()
            &&& row.split_part_count == cells[22].int32_opt()
            &&& row.file_complete == cells[23].boolean()
        }),
        forall|i: int|
            0 <= i < 24 ==> match #[trigger] cells[i] {
                CellView::Text { value, null } => cells[i].text() == value && cells[i].text_opt()
                    == if null {
                    None
                } else {
                    Some(value)
                },
                CellView::Int32 { value, null } => cells[i].int32() == value
                    && cells[i].int32_opt() == if null {
                    None
                } else {
                    Some(value)
                },
                CellView::Boolean { value, null } => cells[i].boolean() == value,
                CellView::TextList(values) => cells[i].text_list() == values,
                _ => true,
            },
{
}

}
