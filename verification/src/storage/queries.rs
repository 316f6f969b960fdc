//! What is asked of the tables, and in which portions rows are written.
use crate::failure::Failure;
use crate::schema::VECTOR_DIMENSION;
use crate::storage::batches;
use crate::storage::batches::make_count_mismatch;
use crate::storage::rows;
use crate::storage::rows::{ChunkRow, ChunkRowView};
use crate::text;
use vstd::prelude::*;

verus! {

/// Most rows that are written at once.
pub const UPSERT_BATCH_SIZE: usize = 1000;

/// A text in single quotes.
pub open spec fn quoted(s: Seq<char>) -> Seq<char> {
    seq!['\''] + s + seq!['\'']
}

/// The texts in single quotes, with commas between them.
pub open spec fn quoted_list(items: Seq<Seq<char>>) -> Seq<char> {
    text::join(items.map_values(|s: Seq<char>| quoted(s)), ", "@)
}

/// A condition that a column equals a text.
pub open spec fn equals(column: Seq<char>, value: Seq<char>) -> Seq<char> {
    column + " = "@ + quoted(value)
}

/// The condition that a row belongs to a label.
pub open spec fn has_label(label_id: Seq<char>) -> Seq<char> {
    "array_contains(active_label_ids, "@ + quoted(label_id) + ")"@
}

fn push_quoted(out: &mut String, s: &str)
    ensures
        final(out)@ == old(out)@ + quoted(s@),
{
    let ghost before = out@;
    out.push('\'');
    out.append(s);
    out.push('\'');
    assert(out@ =~= before + quoted(s@));
}

fn make_equals(column: &str, value: &str) -> (r: String)
    ensures
        r@ == equals(column@, value@),
{
    let mut out = column.to_owned();
    out.append(" = ");
    push_quoted(&mut out, value);
    out
}

fn push_list(out: &mut String, items: &Vec<String>)
    ensures
        final(out)@ == old(out)@ + quoted_list(text::views(items@)),
{
    let ghost before = out@;
    let ghost quotes = text::views(items@).map_values(|s: Seq<char>| quoted(s));
    let n: usize = items.len();
    assert(before + text::join(quotes.take(0), ", "@) =~= before);
    for i in 0..n
        invariant
            n == items@.len(),
            quotes == text::views(items@).map_values(|s: Seq<char>| quoted(s)),
            out@ == before + text::join(quotes.take(i as int), ", "@),
    {
        let ghost so_far = out@;
        if i > 0 {
            out.append(", ");
        }
        push_quoted(out, items[i].as_str());
        proof {
            let next = quotes.take(i + 1);
            assert(next.drop_last() =~= quotes.take(i as int));
            assert(next.last() == quoted(items@[i as int]@)) by {
                assert(text::views(items@)[i as int] == items@[i as int]@);
            }
            if i > 0 {
                assert(out@ =~= before + text::join(next, ", "@));
            } else {
                assert(next[0] == next.last());
                assert(quotes.take(0) =~= Seq::empty());
                assert(out@ =~= before + text::join(next, ", "@));
            }
        }
    }
    assert(quotes.take(n as int) =~= quotes);
}

/// The condition for a chunk.
pub fn point_predicate(point_id: &str) -> (r: String)
    ensures
        r@ == equals("point_id"@, point_id@),
{
    make_equals("point_id", point_id)
}

/// The condition for the chunks of a file.
pub fn file_predicate(file_id: &str) -> (r: String)
    ensures
        r@ == equals("file_id"@, file_id@),
{
    make_equals("file_id", file_id)
}

/// The condition for the rows of a catalog.
pub fn catalog_predicate(catalog: &str) -> (r: String)
    ensures
        r@ == equals("catalog"@, catalog@),
{
    make_equals("catalog", catalog)
}

/// The condition for the row of a label.
pub fn label_row_predicate(label_id: &str) -> (r: String)
    ensures
        r@ == equals("label_id"@, label_id@),
{
    make_equals("label_id", label_id)
}

/// The condition for the chunks of a label; with an ordinal, for those that have it.
pub fn label_predicate(label_id: &str, chunk_ordinal: Option<i32>) -> (r: String)
    ensures
        r@ == match chunk_ordinal {
            Some(ordinal) => has_label(label_id@) + " AND chunk_ordinal = "@ + text::signed(
                ordinal as int,
            ),
            None => has_label(label_id@),
        },
{
    let mut out = "array_contains(active_label_ids, ".to_owned();
    push_quoted(&mut out, label_id);
    out.append(")");
    if let Some(ordinal) = chunk_ordinal {
        out.append(" AND chunk_ordinal = ");
        text::push_signed(&mut out, ordinal);
    }
    out
}

/// The condition for the chunks of a file that belong to a label.
pub fn file_label_predicate(file_id: &str, label_id: &str) -> (r: String)
    ensures
        r@ == equals("file_id"@, file_id@) + " AND "@ + has_label(label_id@),
{
    let mut out = make_equals("file_id", file_id);
    out.append(" AND ");
    out.append(label_predicate(label_id, None).as_str());
    out
}

/// The condition for a list of chunks; there is none for an empty list.
pub fn points_predicate(point_ids: &Vec<String>) -> (r: Option<String>)
    ensures
        r is None <==> point_ids@.len() == 0,
        r matches Some(p) ==> p@ == "point_id IN ("@ + quoted_list(text::views(point_ids@)) + ")"@,
{
    if point_ids.len() == 0 {
        return None;
    }
    let mut out = "point_id IN (".to_owned();
    push_list(&mut out, point_ids);
    out.append(")");
    Some(out)
}

/// The message for a chunk that would be left without a label.
pub open spec fn no_labels_message() -> Seq<char> {
    "Cannot update active_label_ids to empty list - a chunk must belong to at least one label"@
}

/// The value to which the labels of a chunk are set. A chunk is never left without a label.
pub fn labels_value(new_labels: &Vec<String>) -> (r: Result<String, Failure>)
    ensures
        match r {
            Ok(value) => new_labels@.len() > 0 && value@ == "["@ + quoted_list(
                text::views(new_labels@),
            ) + "]"@,
            Err(e) => new_labels@.len() == 0 && e@ == no_labels_message(),
        },
{
    if new_labels.len() == 0 {
        return Err(
            Failure {
                message:
                    "Cannot update active_label_ids to empty list - a chunk must belong to at least one label".to_owned(),
            },
        );
    }
    let mut out = "[".to_owned();
    push_list(&mut out, new_labels);
    out.append("]");
    Ok(out)
}

/// The value to which the completeness of a file is set.
pub fn complete_value(complete: bool) -> (r: &'static str)
    ensures
        r@ == (if complete {
            "true"@
        } else {
            "false"@
        }),
{
    if complete {
        "true"
    } else {
        "false"
    }
}

/// How many rows a deletion removed, by the counts before and after it.
pub fn deleted_rows(before: usize, after: usize) -> (r: u64)
    ensures
        r == (if before >= after {
            before - after
        } else {
            0
        }),
{
    if before >= after {
        (before - after) as u64
    } else {
        0
    }
}

/// What is wrong with the first bad row from position `i` on.
pub open spec fn first_row_error(rows: Seq<ChunkRowView>, i: int) -> Option<Seq<char>>
    decreases rows.len() - i,
{
    if i < 0 || i >= rows.len() {
        None
    } else {
        match rows::chunk_row_error(rows[i]) {
            Some(message) => Some(message),
            None => first_row_error(rows, i + 1),
        }
    }
}

/// The portions in which `n` rows are written, from row `from` on.
pub open spec fn portions(from: int, n: int) -> Seq<(int, int)>
    decreases n - from,
{
    if from >= n {
        Seq::empty()
    } else {
        let to = if n - from <= UPSERT_BATCH_SIZE {
            n
        } else {
            from + UPSERT_BATCH_SIZE
        };
        seq![(from, to)] + portions(to, n)
    }
}

/// What is wrong with an upsert, if something is: rows and vectors of different number, or
/// a bad row. With no rows there is nothing to be wrong.
pub open spec fn upsert_error(rows: Seq<ChunkRowView>, vectors: nat) -> Option<Seq<char>> {
    if rows.len() == 0 {
        None
    } else if rows.len() != vectors {
        Some(batches::count_mismatch(rows.len(), vectors))
    } else {
        first_row_error(rows, 0)
    }
}

/// The numbers of a list of portions.
pub open spec fn int_pairs(v: Seq<(usize, usize)>) -> Seq<(int, int)> {
    v.map_values(|p: (usize, usize)| (p.0 as int, p.1 as int))
}

/// Checks rows before they are written, and says in which portions that is done.
pub fn plan_upsert(rows: &Vec<ChunkRow>, vectors: usize) -> (r: Result<
    Vec<(usize, usize)>,
    Failure,
>)
    ensures
        match r {
            Ok(plan) => upsert_error(rows::row_views(rows@), vectors as nat) is None && int_pairs(
                plan@,
            ) == portions(0, rows@.len() as int),
            Err(e) => upsert_error(rows::row_views(rows@), vectors as nat) == Some(e@),
        },
{
    let ghost all = rows::row_views(rows@);
    let n: usize = rows.len();
    let mut plan: Vec<(usize, usize)> = Vec::new();
    assert(all.len() == n);
    if n == 0 {
        assert(int_pairs(plan@) =~= Seq::empty());
        return Ok(plan);
    }
    if n != vectors {
        return Err(make_count_mismatch(n, vectors));
    }
    for i in 0..n
        invariant
            n == rows@.len() == vectors == all.len(),
            n > 0,
            all == rows::row_views(rows@),
            first_row_error(all, i as int) == first_row_error(all, 0),
    {
        assert(all[i as int] == rows@[i as int]@);
        if let Err(e) = rows[i].validate() {
            return Err(e);
        }
    }
    let mut from: usize = 0;
    assert(int_pairs(plan@) + portions(0, n as int) =~= portions(0, n as int));
    while from < n
        invariant
            from <= n,
            int_pairs(plan@) + portions(from as int, n as int) == portions(0, n as int),
        decreases n - from,
    {
        let to: usize = if n - from <= UPSERT_BATCH_SIZE {
            n
        } else {
            from + UPSERT_BATCH_SIZE
        };
        proof {
            assert(int_pairs(plan@.push((from, to))) =~= int_pairs(plan@).push(
                (from as int, to as int),
            ));
            assert(int_pairs(plan@.push((from, to))) + portions(to as int, n as int) =~= int_pairs(
                plan@,
            ) + portions(from as int, n as int));
        }
        plan.push((from, to));
        from = to;
    }
    assert(int_pairs(plan@) + portions(n as int, n as int) =~= int_pairs(plan@));
    Ok(plan)
}

/// The first length from position `i` up to position `to` that is not that of a vector.
pub open spec fn bad_dimension(lengths: Seq<usize>, i: int, to: int) -> Option<usize>
    decreases to - i,
{
    if i >= to {
        None
    } else if lengths[i] != VECTOR_DIMENSION {
        Some(lengths[i])
    } else {
        bad_dimension(lengths, i + 1, to)
    }
}

/// The message for a vector of the wrong length.
pub open spec fn dimension_message(len: nat) -> Seq<char> {
    "Vector dimension mismatch: expected "@ + text::decimal(VECTOR_DIMENSION as nat) + ", got "@
        + text::decimal(len)
}

/// Checks the lengths of the vectors of a portion.
pub fn check_dimensions(lengths: &Vec<usize>, from: usize, to: usize) -> (r: Result<(), Failure>)
    requires
        from <= to <= lengths@.len(),
    ensures
        match r {
            Ok(_) => bad_dimension(lengths@, from as int, to as int) is None,
            Err(e) => bad_dimension(lengths@, from as int, to as int) matches Some(len) && e@
                == dimension_message(len as nat),
        },
{
    let mut i: usize = from;
    while i < to
        invariant
            from <= i <= to <= lengths@.len(),
            bad_dimension(lengths@, i as int, to as int) == bad_dimension(
                lengths@,
                from as int,
                to as int,
            ),
        decreases to - i,
    {
        if lengths[i] != VECTOR_DIMENSION {
            let mut message = "Vector dimension mismatch: expected ".to_owned();
            text::push_decimal(&mut message, VECTOR_DIMENSION as u64);
            message.append(", got ");
            text::push_decimal(&mut message, lengths[i] as u64);
            return Err(Failure { message });
        }
        i = i + 1;
    }
    Ok(())
}

/// A row inserted into an ordered list, after all rows that do not have a larger ordinal.
pub open spec fn inserted(rows: Seq<ChunkRowView>, row: ChunkRowView) -> Seq<ChunkRowView>
    decreases rows.len(),
{
    if rows.len() == 0 || rows.last().chunk_ordinal <= row.chunk_ordinal {
        rows.push(row)
    } else {
        inserted(rows.drop_last(), row).push(rows.last())
    }
}

/// The rows in the order of their ordinals; those with the same ordinal keep their order.
pub open spec fn by_ordinal(rows: Seq<ChunkRowView>) -> Seq<ChunkRowView>
    decreases rows.len(),
{
    if rows.len() == 0 {
        Seq::empty()
    } else {
        inserted(by_ordinal(rows.drop_last()), rows.last())
    }
}

/// Inserts a row into an ordered list (see [`inserted`]).
fn insert_by_ordinal(rows: &mut Vec<ChunkRow>, row: ChunkRow)
    ensures
        rows::row_views(final(rows)@) == inserted(rows::row_views(old(rows)@), row@),
{
    let ghost all = rows::row_views(rows@);
    let n: usize = rows.len();
    let mut i: usize = n;
    assert(all.take(n as int) =~= all);
    assert(inserted(all, row@) + all.subrange(n as int, n as int) =~= inserted(all, row@));
    while i > 0 && rows[i - 1].chunk_ordinal > row.chunk_ordinal
        invariant
            i <= n == rows@.len(),
            all == rows::row_views(rows@),
            inserted(all.take(i as int), row@) + all.subrange(i as int, n as int) == inserted(
                all,
                row@,
            ),
        decreases i,
    {
        proof {
            let head = all.take(i as int);
            assert(head.last() == rows@[i - 1]@);
            assert(head.drop_last() =~= all.take(i - 1));
            assert(inserted(head, row@) + all.subrange(i as int, n as int) =~= inserted(
                all.take(i - 1),
                row@,
            ) + all.subrange(i - 1, n as int));
        }
        i = i - 1;
    }
    proof {
        let head = all.take(i as int);
        if i > 0 {
            assert(head.last() == rows@[i - 1]@);
        }
        assert(inserted(head, row@) == head.push(row@));
        assert(rows::row_views(rows@.insert(i as int, row)) =~= head.push(row@) + all.subrange(
            i as int,
            n as int,
        ));
    }
    rows.insert(i, row);
}

/// Puts the rows of a file in the order of their ordinals.
pub fn sort_by_ordinal(rows: Vec<ChunkRow>) -> (r: Vec<ChunkRow>)
    ensures
        rows::row_views(r@) == by_ordinal(rows::row_views(rows@)),
{
    let ghost all = rows::row_views(rows@);
    let mut out: Vec<ChunkRow> = Vec::new();
    assert(rows::row_views(out@) =~= by_ordinal(all.take(0)));
    for row in it: rows
        invariant
            it.seq() == rows@,
            all == rows::row_views(rows@),
            rows::row_views(out@) == by_ordinal(all.take(it.index() as int)),
    {
        proof {
            let i = it.index() as int;
            assert(all.take(i + 1).drop_last() =~= all.take(i));
            assert(all.take(i + 1).last() == row@);
        }
        insert_by_ordinal(&mut out, row);
    }
    assert(all.take(all.len() as int) =~= all);
    out
}

/// The portions of an upsert follow each other without gap from the first row to the last,
/// and none has more than [`UPSERT_BATCH_SIZE`] rows.
pub proof fn portions_cover_all_rows(from: int, n: int, k: int)
    requires
        from <= n,
        0 <= k < portions(from, n).len(),
    ensures
        ({
            let p = portions(from, n);
            &&& p[0].0 == from
            &&& p.last().1 == n
            &&& p[k].0 < p[k].1 <= p[k].0 + UPSERT_BATCH_SIZE
            &&& (k + 1 < p.len() ==> p[k + 1].0 == p[k].1)
        }),
    decreases n - from,
{
    let p = portions(from, n);
    if from < n {
        let to = if n - from <= UPSERT_BATCH_SIZE {
            n
        } else {
            from + UPSERT_BATCH_SIZE
        };
        let rest = portions(to, n);
        assert(p =~= seq![(from, to)] + rest);
        if rest.len() > 0 {
            portions_cover_all_rows(to, n, if k > 0 {
                k - 1
            } else {
                0
            });
            assert(p.last() == rest.last());
        } else {
            if to < n {
                assert(portions(to, n).len() > 0);
            }
        }
    }
}

/// A condition compares a column with a text in single quotes; that of a label asks for it among
/// the labels; and a list has commas between its texts.
pub proof fn conditions_name_column_and_value(
    column: Seq<char>,
    a: Seq<char>,
    b: Seq<char>,
)
    ensures
        equals(column, a) == column + " = '"@ + a + "'"@,
        has_label(a) == "array_contains(active_label_ids, '"@ + a + "')"@,
        quoted_list(seq![a]) == "'"@ + a + "'"@,
        quoted_list(seq![a, b]) == "'"@ + a + "', '"@ + b + "'"@,
{
    reveal_strlit(" = ");
    reveal_strlit(" = '");
    reveal_strlit("'");
    reveal_strlit("array_contains(active_label_ids, ");
    reveal_strlit("array_contains(active_label_ids, '");
    reveal_strlit(")");
    reveal_strlit("')");
    reveal_strlit(", ");
    reveal_strlit("', '");
    assert(equals(column, a) =~= column + " = '"@ + a + "'"@);
    assert(has_label(a) =~= "array_contains(active_label_ids, '"@ + a + "')"@);
    let f = |s: Seq<char>| quoted(s);
    assert(seq![a].map_values(f) =~= seq![quoted(a)]);
    assert(quoted(a) =~= "'"@ + a + "'"@);
    let two = seq![quoted(a), quoted(b)];
    assert(seq![a, b].map_values(f) =~= two);
    assert(two.drop_last() =~= seq![quoted(a)]);
    assert(text::join(two, ", "@) == text::join(two.drop_last(), ", "@) + ", "@ + quoted(b));
    assert(quoted_list(seq![a, b]) =~= "'"@ + a + "', '"@ + b + "'"@);
}

/// Rows are written only if there is a vector for each and all of them are accepted.
pub proof fn only_accepted_rows_are_written(rows: Seq<ChunkRowView>, vectors: nat)
    requires
        rows.len() > 0,
    ensures
        upsert_error(rows, vectors) is None <==> {
            &&& rows.len() == vectors
            &&& forall|i: int|
                0 <= i < rows.len() ==> rows::chunk_row_error(#[trigger] rows[i]) is None
        },
{
    lemma_no_row_error(rows, 0);
}

proof fn lemma_no_row_error(rows: Seq<ChunkRowView>, i: int)
    requires
        0 <= i <= rows.len(),
    ensures
        first_row_error(rows, i) is None <==> forall|k: int|
            i <= k < rows.len() ==> rows::chunk_row_error(#[trigger] rows[k]) is None,
    decreases rows.len() - i,
{
    if i < rows.len() {
        lemma_no_row_error(rows, i + 1);
    }
}

/// Vectors have 768 numbers each.
pub proof fn vectors_have_one_length(lengths: Seq<usize>, from: int, to: int)
    requires
        0 <= from <= to <= lengths.len(),
    ensures
        bad_dimension(lengths, from, to) is None <==> forall|i: int|
            from <= i < to ==> #[trigger] lengths[i] == 768,
        bad_dimension(lengths, from, to) matches Some(len) ==> len != 768,
    decreases to - from,
{
    if from < to {
        vectors_have_one_length(lengths, from + 1, to);
    }
}

/// No more than a thousand rows are written at once.
pub proof fn portions_have_a_size()
    ensures
        UPSERT_BATCH_SIZE == 1000,
{
}

/// The rows are in the order of their ordinals.
pub open spec fn ordered(rows: Seq<ChunkRowView>) -> bool {
    forall|i: int, j: int|
        0 <= i <= j < rows.len() ==> (#[trigger] rows[i]).chunk_ordinal <= (
        #[trigger] rows[j]).chunk_ordinal
}

proof fn lemma_inserted(rows: Seq<ChunkRowView>, row: ChunkRowView)
    requires
        ordered(rows),
    ensures
        ordered(inserted(rows, row)),
        inserted(rows, row).to_multiset() == rows.to_multiset().insert(row),
        inserted(rows, row).len() == rows.len() + 1,
        forall|i: int|
            0 <= i < inserted(rows, row).len() ==> (#[trigger] inserted(rows, row)[i]) == row
                || rows.contains(inserted(rows, row)[i]),
    decreases rows.len(),
{
    broadcast use vstd::seq_lib::group_to_multiset_ensures;

    let all = inserted(rows, row);
    if rows.len() == 0 || rows.last().chunk_ordinal <= row.chunk_ordinal {
        assert(forall|i: int| 0 <= i < rows.len() ==> rows.contains(#[trigger] rows[i]));
    } else {
        let head = rows.drop_last();
        lemma_inserted(head, row);
        let rest = inserted(head, row);
        assert(rows =~= head.push(rows.last()));
        assert forall|i: int| 0 <= i < rest.len() implies (#[trigger] rest[i]).chunk_ordinal
            <= rows.last().chunk_ordinal by {
            if rest[i] != row {
                let k = choose|k: int| 0 <= k < head.len() && head[k] == rest[i];
                assert(rows[k] == head[k]);
            }
        }
        assert forall|i: int| 0 <= i < all.len() implies (#[trigger] all[i]) == row
            || rows.contains(all[i]) by {
            if i < rest.len() {
                assert(all[i] == rest[i]);
                if rest[i] != row {
                    let k = choose|k: int| 0 <= k < head.len() && head[k] == rest[i];
                    assert(rows[k] == rest[i]);
                }
            } else {
                assert(rows[rows.len() - 1] == all[i]);
            }
        }
        assert(all.to_multiset() =~= rows.to_multiset().insert(row));
    }
}

/// The rows of a file come out in the order of their ordinals; none is lost and none is added.
pub proof fn rows_come_in_order(rows: Seq<ChunkRowView>)
    ensures
        ordered(by_ordinal(rows)),
        by_ordinal(rows).len() == rows.len(),
        by_ordinal(rows).to_multiset() == rows.to_multiset(),
    decreases rows.len(),
{
    broadcast use vstd::seq_lib::group_to_multiset_ensures;

    if rows.len() > 0 {
        rows_come_in_order(rows.drop_last());
        lemma_inserted(by_ordinal(rows.drop_last()), rows.last());
        assert(rows =~= rows.drop_last().push(rows.last()));
    }
}

}
