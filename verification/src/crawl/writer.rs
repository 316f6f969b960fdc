//! How embedded chunks are gathered and written.
use crate::chunker;
use crate::chunker::{Chunk, ChunkContextView, ChunkView};
use crate::identifier;
use crate::ids;
use crate::ids::compute_point_id;
use crate::names::NameSet;
use crate::storage::rows;
use crate::storage::rows::{ChunkRow, ChunkRowView};
use crate::text;
use vstd::prelude::*;

verus! {

/// The row for a chunk. The first chunk of a file says that the file is complete.
pub open spec fn row_of(c: ChunkView) -> ChunkRowView {
    ChunkRowView {
        point_id: ids::point_id(c.file_id, c.chunk_ordinal as nat),
        text: c.text,
        catalog: c.catalog,
        active_label_ids: c.active_label_ids,
        embedder_id: c.embedder_id,
        chunker_id: c.chunker_id,
        blob_id: c.blob_id,
        content_hash: c.content_hash,
        file_id: c.file_id,
        relative_path: c.relative_path,
        package_name: c.package_name,
        source_uri: c.source_uri,
        chunk_ordinal: c.chunk_ordinal as i32,
        chunk_count: c.chunk_count as i32,
        start_line: c.start_line as i32,
        end_line: c.end_line as i32,
        symbol_name: c.symbol_name,
        chunk_type: c.chunk_type,
        chunk_kind: c.chunk_kind,
        breadcrumb: if c.breadcrumb.len() == 0 {
            None
        } else {
            Some(c.breadcrumb)
        },
        split_part_ordinal: match c.split_part_ordinal {
            Some(n) => Some(n as i32),
            None => None,
        },
        split_part_count: match c.split_part_count {
            Some(n) => Some(n as i32),
            None => None,
        },
        file_complete: c.chunk_ordinal == 1,
    }
}

fn copy_opt(s: &Option<String>) -> (r: Option<String>)
    ensures
        text::view_opt(r) == text::view_opt(*s),
{
    match s {
        Some(x) => Some(x.clone()),
        None => None,
    }
}

fn copy_labels(labels: &Vec<String>) -> (r: Vec<String>)
    ensures
        text::views(r@) == text::views(labels@),
{
    let n: usize = labels.len();
    let r = text::copy_strings(labels, 0, n);
    assert(text::views(r@) =~= text::views(labels@));
    r
}

/// The row for a chunk, see [`row_of`].
pub fn chunk_to_row(chunk: &Chunk) -> (r: ChunkRow)
    ensures
        r@ == row_of(chunk@),
        r.text@ == chunk.text@,
        r.catalog@ == chunk.catalog@,
        r.embedder_id@ == chunk.embedder_id@,
        r.chunker_id@ == chunk.chunker_id@,
        r.blob_id@ == chunk.blob_id@,
        r.content_hash@ == chunk.content_hash@,
        r.file_id@ == chunk.file_id@,
        r.relative_path@ == chunk.relative_path@,
        r.package_name@ == chunk.package_name@,
        r.source_uri@ == chunk.source_uri@,
        r.chunk_type@ == chunk.chunk_type@,
        r.chunk_kind@ == chunk.chunk_kind@,
        chunk.chunk_ordinal <= i32::MAX ==> r.chunk_ordinal == chunk.chunk_ordinal,
        chunk.chunk_count <= i32::MAX ==> r.chunk_count == chunk.chunk_count,
        chunk.start_line <= i32::MAX ==> r.start_line == chunk.start_line,
        chunk.end_line <= i32::MAX ==> r.end_line == chunk.end_line,
        text::views(r.active_label_ids@) == text::views(chunk.active_label_ids@),
        r.symbol_name is Some <==> chunk.symbol_name is Some,
        r.symbol_name matches Some(name) ==> name@ == chunk.symbol_name->0@,
        r.breadcrumb is Some <==> chunk.breadcrumb@.len() > 0,
        r.breadcrumb matches Some(breadcrumb) ==> breadcrumb@ == chunk.breadcrumb@,
        r.split_part_ordinal is Some <==> chunk.split_part_ordinal is Some,
        r.split_part_ordinal matches Some(n) ==> chunk.split_part_ordinal->0 <= i32::MAX ==> n
            == chunk.split_part_ordinal->0,
        r.split_part_count is Some <==> chunk.split_part_count is Some,
        r.split_part_count matches Some(n) ==> chunk.split_part_count->0 <= i32::MAX ==> n
            == chunk.split_part_count->0,
        r.file_complete <==> chunk.chunk_ordinal == 1,
{
    let breadcrumb = if chunk.breadcrumb.as_str().is_empty() {
        None
    } else {
        Some(chunk.breadcrumb.clone())
    };
    let split_part_ordinal: Option<i32> = match chunk.split_part_ordinal {
        Some(n) => Some(n as i32),
        None => None,
    };
    let split_part_count: Option<i32> = match chunk.split_part_count {
        Some(n) => Some(n as i32),
        None => None,
    };
    ChunkRow {
        point_id: chunk.point_id(),
        text: chunk.text.clone(),
        catalog: chunk.catalog.clone(),
        active_label_ids: copy_labels(&chunk.active_label_ids),
        embedder_id: chunk.embedder_id.clone(),
        chunker_id: chunk.chunker_id.clone(),
        blob_id: chunk.blob_id.clone(),
        content_hash: chunk.content_hash.clone(),
        file_id: chunk.file_id.clone(),
        relative_path: chunk.relative_path.clone(),
        package_name: chunk.package_name.clone(),
        source_uri: chunk.source_uri.clone(),
        chunk_ordinal: chunk.chunk_ordinal as i32,
        chunk_count: chunk.chunk_count as i32,
        start_line: chunk.start_line as i32,
        end_line: chunk.end_line as i32,
        symbol_name: copy_opt(&chunk.symbol_name),
        chunk_type: chunk.chunk_type.clone(),
        chunk_kind: chunk.chunk_kind.clone(),
        breadcrumb,
        split_part_ordinal,
        split_part_count,
        file_complete: chunk.chunk_ordinal == 1,
    }
}

/// A chunk can be read back from its row: all that a row holds of a chunk is as it was,
/// as long as its lines and numbers fit in 32 bits. The row is found by an identifier
/// of file and position, and the first chunk's row alone says that the file is
/// complete.
pub proof fn rows_keep_the_chunk(c: ChunkView)
    requires
        0 <= c.start_line <= i32::MAX,
        0 <= c.end_line <= i32::MAX,
        0 <= c.chunk_ordinal <= i32::MAX,
        0 <= c.chunk_count <= i32::MAX,
        c.split_part_ordinal matches Some(n) ==> n <= i32::MAX,
        c.split_part_count matches Some(n) ==> n <= i32::MAX,
    ensures
        ({
            let row = row_of(c);
            &&& c == (ChunkView {
                text: row.text,
                source_uri: row.source_uri,
                source_type: c.source_type,
                catalog: row.catalog,
                content_hash: row.content_hash,
                start_line: row.start_line as int,
                end_line: row.end_line as int,
                symbol_name: row.symbol_name,
                chunk_type: row.chunk_type,
                chunk_kind: row.chunk_kind,
                breadcrumb: match row.breadcrumb {
                    Some(breadcrumb) => breadcrumb,
                    None => Seq::empty(),
                },
                label_id: c.label_id,
                active_label_ids: row.active_label_ids,
                embedder_id: row.embedder_id,
                chunker_id: row.chunker_id,
                blob_id: row.blob_id,
                package_name: row.package_name,
                file_id: row.file_id,
                relative_path: row.relative_path,
                chunk_ordinal: row.chunk_ordinal as int,
                chunk_count: row.chunk_count as int,
                split_part_ordinal: match row.split_part_ordinal {
                    Some(n) => Some(n as usize),
                    None => None,
                },
                split_part_count: match row.split_part_count {
                    Some(n) => Some(n as usize),
                    None => None,
                },
            })
            &&& row.point_id == c.file_id + seq![':'] + text::decimal(c.chunk_ordinal as nat)
            &&& row.file_complete <==> c.chunk_ordinal == 1
        }),
{
    if c.breadcrumb.len() == 0 {
        assert(c.breadcrumb =~= Seq::empty());
    }
}

/// The rows for the chunks of a file are valid, if the names in the file's context are and
/// the chunks can be counted in 32 bits.
pub proof fn rows_of_chunks_are_valid(
    content: Seq<char>,
    ctx: ChunkContextView,
    target: int,
    strategy: Option<Seq<char>>,
    i: int,
)
    requires
        identifier::catalog_error(ctx.catalog) is None,
        identifier::parsed(ctx.label_id) is Ok,
        0 <= i < chunker::content_chunks(content, ctx, target, strategy).len() <= i32::MAX,
    ensures
        rows::chunk_row_error(
            row_of(chunker::content_chunks(content, ctx, target, strategy)[i]),
        ) is None,
{
    let c = chunker::content_chunks(content, ctx, target, strategy)[i];
    let row = row_of(c);
    assert(row.active_label_ids == seq![ctx.label_id]);
    assert(row.chunk_ordinal == i + 1);
    reveal_with_fuel(rows::stored_label_error, 3);
}

/// The files that a list of chunks belongs to, each once, in the order of the first chunks.
pub open spec fn files_of(chunks: Seq<ChunkView>) -> Seq<Seq<char>>
    decreases chunks.len(),
{
    if chunks.len() == 0 {
        Seq::empty()
    } else {
        let before = files_of(chunks.drop_last());
        if before.contains(chunks.last().file_id) {
            before
        } else {
            before.push(chunks.last().file_id)
        }
    }
}

fn list_files(chunks: &Vec<Chunk>) -> (r: Vec<String>)
    ensures
        text::views(r@) == files_of(chunker::chunk_views(chunks@)),
{
    let mut out: Vec<String> = Vec::new();
    let mut seen = NameSet::new();
    let ghost all = chunker::chunk_views(chunks@);
    let n: usize = chunks.len();
    assert(text::views(out@) =~= files_of(all.take(0)));
    assert(text::views(out@).to_set() =~= Set::empty());
    for i in 0..n
        invariant
            n == chunks@.len(),
            all == chunker::chunk_views(chunks@),
            text::views(out@) == files_of(all.take(i as int)),
            seen@ == text::views(out@).to_set(),
    {
        let ghost before = text::views(out@);
        assert(all.take(i + 1).drop_last() =~= all.take(i as int));
        assert(all[i as int] == chunks@[i as int]@);
        let id = chunks[i].file_id.as_str();
        if !seen.contains(id) {
            out.push(id.to_owned());
            seen.insert(id);
            proof {
                assert(text::views(out@) =~= before.push(id@));
                assert forall|s: Seq<char>| before.push(id@).to_set().contains(s)
                    == before.to_set().insert(id@).contains(s) by {
                    broadcast use vstd::seq_lib::group_seq_properties;

                }
                assert(seen@ =~= text::views(out@).to_set());
            }
        }
    }
    assert(all.take(n as int) =~= all);
    out
}

/// The identifiers of the files that chunks belong to; chunks without one do not count.
pub open spec fn touched(chunks: Seq<ChunkView>) -> Set<Seq<char>> {
    Set::new(
        |id: Seq<char>|
            id.len() > 0 && exists|i: int|
                0 <= i < chunks.len() && (#[trigger] chunks[i]).file_id == id,
    )
}

/// The identifiers of the files that chunks belong to, see [`touched`].
pub fn touched_files(chunks: &Vec<Chunk>) -> (r: NameSet)
    ensures
        r@ == touched(chunker::chunk_views(chunks@)),
{
    let mut out = NameSet::new();
    let ghost all = chunker::chunk_views(chunks@);
    let n: usize = chunks.len();
    assert(out@ =~= touched(all.take(0)));
    for i in 0..n
        invariant
            n == chunks@.len(),
            all == chunker::chunk_views(chunks@),
            out@ == touched(all.take(i as int)),
    {
        let ghost before = out@;
        let id = chunks[i].file_id.as_str();
        assert(all[i as int] == chunks@[i as int]@);
        if !id.is_empty() {
            out.insert(id);
        }
        proof {
            let (now, then) = (all.take(i + 1), all.take(i as int));
            assert forall|s: Seq<char>| out@.contains(s) == touched(now).contains(s) by {
                if touched(now).contains(s) {
                    let k = choose|k: int| 0 <= k < now.len() && (#[trigger] now[k]).file_id == s;
                    if k < i {
                        assert(then[k].file_id == s);
                    }
                }
                if before.contains(s) {
                    let k = choose|k: int| 0 <= k < then.len() && (#[trigger] then[k]).file_id == s;
                    assert(now[k].file_id == s);
                }
                if s == id@ && s.len() > 0 {
                    assert(now[i as int].file_id == s);
                }
            }
            assert(out@ =~= touched(now));
        }
    }
    assert(all.take(n as int) =~= all);
    out
}

/// A table of numbers by file.
pub open spec fn count_views(counts: Seq<(String, usize)>) -> Seq<(Seq<char>, usize)> {
    counts.map_values(|c: (String, usize)| (c.0@, c.1))
}

/// The number for a file, from a position of the table on; zero where there is none.
pub open spec fn count_of(counts: Seq<(Seq<char>, usize)>, id: Seq<char>, i: int) -> usize
    decreases counts.len() - i,
{
    if i >= counts.len() {
        0
    } else if counts[i].0 == id {
        counts[i].1
    } else {
        count_of(counts, id, i + 1)
    }
}

fn find_count(counts: &Vec<(String, usize)>, id: &str) -> (r: Option<usize>)
    ensures
        match r {
            Some(k) => k < counts@.len() && counts@[k as int].0@ == id@ && count_of(
                count_views(counts@),
                id@,
                0,
            ) == counts@[k as int].1 && forall|j: int|
                0 <= j < k ==> (#[trigger] counts@[j]).0@ != id@,
            None => count_of(count_views(counts@), id@, 0) == 0 && forall|j: int|
                0 <= j < counts@.len() ==> (#[trigger] counts@[j]).0@ != id@,
        },
{
    let ghost all = count_views(counts@);
    let n: usize = counts.len();
    for i in 0..n
        invariant
            n == counts@.len(),
            all == count_views(counts@),
            count_of(all, id@, i as int) == count_of(all, id@, 0),
            forall|j: int| 0 <= j < i ==> (#[trigger] counts@[j]).0@ != id@,
    {
        assert(all[i as int] == (counts@[i as int].0@, counts@[i as int].1));
        if text::same(counts[i].0.as_str(), id) {
            return Some(i);
        }
    }
    None
}

/// What is sent to the storage at once.
#[derive(Debug)]
pub struct Upload {
    /// The rows, in the order in which their chunks came.
    pub rows: Vec<ChunkRow>,
    /// First chunks of files that are confirmed, with their labels.
    pub confirmed: Vec<(String, Vec<String>)>,
}

/// What an [`Upload`] stands for.
pub struct UploadView {
    pub rows: Seq<ChunkRowView>,
    pub confirmed: Seq<(Seq<char>, Seq<Seq<char>>)>,
}

impl View for Upload {
    type V = UploadView;

    open spec fn view(&self) -> UploadView {
        UploadView {
            rows: rows::row_views(self.rows@),
            confirmed: confirm_views(self.confirmed@),
        }
    }
}

/// What confirmations stand for.
pub open spec fn confirm_views(v: Seq<(String, Vec<String>)>) -> Seq<(Seq<char>, Seq<Seq<char>>)> {
    v.map_values(|c: (String, Vec<String>)| (c.0@, text::views(c.1@)))
}

/// The first chunk of a file among others, from a position on.
pub open spec fn first_chunk(chunks: Seq<ChunkView>, id: Seq<char>, i: int) -> Option<ChunkView>
    decreases chunks.len() - i,
{
    if i >= chunks.len() {
        None
    } else if chunks[i].file_id == id && chunks[i].chunk_ordinal == 1 {
        Some(chunks[i])
    } else {
        first_chunk(chunks, id, i + 1)
    }
}

fn find_first_chunk(chunks: &Vec<Chunk>, id: &str) -> (r: Option<usize>)
    ensures
        match r {
            Some(k) => k < chunks@.len() && first_chunk(chunker::chunk_views(chunks@), id@, 0)
                == Some(chunks@[k as int]@),
            None => first_chunk(chunker::chunk_views(chunks@), id@, 0) is None,
        },
{
    let ghost all = chunker::chunk_views(chunks@);
    let n: usize = chunks.len();
    for i in 0..n
        invariant
            n == chunks@.len(),
            all == chunker::chunk_views(chunks@),
            first_chunk(all, id@, i as int) == first_chunk(all, id@, 0),
    {
        assert(all[i as int] == chunks@[i as int]@);
        if text::same(chunks[i].file_id.as_str(), id) && chunks[i].chunk_ordinal == 1 {
            return Some(i);
        }
    }
    None
}

/// The confirmations for files whose first chunks are among the given ones.
pub open spec fn confirmations(files: Seq<Seq<char>>, chunks: Seq<ChunkView>) -> Seq<
    (Seq<char>, Seq<Seq<char>>),
>
    decreases files.len(),
{
    if files.len() == 0 {
        Seq::empty()
    } else {
        let before = confirmations(files.drop_last(), chunks);
        match first_chunk(chunks, files.last(), 0) {
            Some(c) => before.push((ids::point_id(files.last(), 1), c.active_label_ids)),
            None => before,
        }
    }
}

/// What is known while chunks are written.
#[derive(Debug)]
pub struct Writer {
    /// Chunks that are embedded but not written.
    pub waiting: Vec<Chunk>,
    /// Number of chunks of each file that has been seen.
    pub expected: Vec<(String, usize)>,
    /// Number of checkpoints that each file had chunks in.
    pub checkpoints: Vec<(String, usize)>,
}

/// What a [`Writer`] stands for.
pub struct WriterView {
    pub waiting: Seq<ChunkView>,
    pub expected: Seq<(Seq<char>, usize)>,
    pub checkpoints: Seq<(Seq<char>, usize)>,
}

impl View for Writer {
    type V = WriterView;

    open spec fn view(&self) -> WriterView {
        WriterView {
            waiting: chunker::chunk_views(self.waiting@),
            expected: count_views(self.expected@),
            checkpoints: count_views(self.checkpoints@),
        }
    }
}

/// Whether a table holds a file.
pub open spec fn has_count(counts: Seq<(Seq<char>, usize)>, id: Seq<char>) -> bool {
    exists|i: int| 0 <= i < counts.len() && (#[trigger] counts[i]).0 == id
}

/// What is known once one more chunk has been embedded.
pub open spec fn received(w: WriterView, c: ChunkView) -> WriterView {
    WriterView {
        waiting: w.waiting.push(c),
        expected: if has_count(w.expected, c.file_id) {
            w.expected
        } else {
            w.expected.push((c.file_id, c.chunk_count as usize))
        },
        checkpoints: w.checkpoints,
    }
}

/// A table of numbers with one file's number raised by one, from a position on.
pub open spec fn raised(counts: Seq<(Seq<char>, usize)>, id: Seq<char>, i: int) -> Seq<
    (Seq<char>, usize),
>
    decreases counts.len() - i,
{
    if i >= counts.len() {
        counts.push((id, 1))
    } else if counts[i].0 == id {
        counts.update(i, (id, (counts[i].1 + 1) as usize))
    } else {
        raised(counts, id, i + 1)
    }
}

/// A table of numbers with the numbers of some files raised by one.
pub open spec fn all_raised(counts: Seq<(Seq<char>, usize)>, files: Seq<Seq<char>>) -> Seq<
    (Seq<char>, usize),
>
    decreases files.len(),
{
    if files.len() == 0 {
        counts
    } else {
        raised(all_raised(counts, files.drop_last()), files.last(), 0)
    }
}

/// Whether a file has had chunks in as many checkpoints as it has chunks.
pub open spec fn is_due(
    expected: Seq<(Seq<char>, usize)>,
    checkpoints: Seq<(Seq<char>, usize)>,
    id: Seq<char>,
) -> bool {
    count_of(checkpoints, id, 0) == count_of(expected, id, 0) && count_of(expected, id, 0) > 0
}

/// What a checkpoint writes, and what is known after it.
pub open spec fn checkpointed(w: WriterView) -> (UploadView, WriterView) {
    let files = files_of(w.waiting);
    let checkpoints = all_raised(w.checkpoints, files);
    (
        UploadView {
            rows: w.waiting.map_values(|c: ChunkView| row_of(c)),
            confirmed: confirmations(
                files.filter(|id: Seq<char>| is_due(w.expected, checkpoints, id)),
                w.waiting,
            ),
        },
        WriterView { waiting: Seq::empty(), expected: w.expected, checkpoints },
    )
}

/// What is written at the end: all that waits, and all files of which the first chunk does.
pub open spec fn last_upload(waiting: Seq<ChunkView>) -> UploadView {
    UploadView {
        rows: waiting.map_values(|c: ChunkView| row_of(c)),
        confirmed: confirmations(files_of(waiting), waiting),
    }
}

/// Whether all numbers of a table can still be raised.
pub open spec fn can_be_raised(counts: Seq<(Seq<char>, usize)>) -> bool {
    forall|i: int| 0 <= i < counts.len() ==> (#[trigger] counts[i]).1 < usize::MAX
}

fn make_rows(chunks: &Vec<Chunk>) -> (r: Vec<ChunkRow>)
    ensures
        rows::row_views(r@) == chunker::chunk_views(chunks@).map_values(
            |c: ChunkView| row_of(c),
        ),
{
    let mut out: Vec<ChunkRow> = Vec::new();
    let ghost all = chunker::chunk_views(chunks@);
    let ghost f = |c: ChunkView| row_of(c);
    let n: usize = chunks.len();
    assert(rows::row_views(out@) =~= all.take(0).map_values(f));
    for i in 0..n
        invariant
            n == chunks@.len(),
            all == chunker::chunk_views(chunks@),
            f == (|c: ChunkView| row_of(c)),
            rows::row_views(out@) == all.take(i as int).map_values(f),
    {
        let ghost before = rows::row_views(out@);
        assert(all[i as int] == chunks@[i as int]@);
        out.push(chunk_to_row(&chunks[i]));
        assert(rows::row_views(out@) =~= before.push(f(all[i as int])));
        assert(all.take(i + 1).map_values(f) =~= all.take(i as int).map_values(f).push(
            f(all[i as int]),
        ));
    }
    assert(all.take(n as int) =~= all);
    out
}

fn make_confirmations(files: &Vec<String>, chunks: &Vec<Chunk>) -> (r: Vec<(String, Vec<String>)>)
    ensures
        confirm_views(r@) == confirmations(
            text::views(files@),
            chunker::chunk_views(chunks@),
        ),
{
    let mut out: Vec<(String, Vec<String>)> = Vec::new();
    let ghost all = text::views(files@);
    let ghost cs = chunker::chunk_views(chunks@);
    let n: usize = files.len();
    assert(confirm_views(out@) =~= confirmations(all.take(0), cs));
    for i in 0..n
        invariant
            n == files@.len(),
            all == text::views(files@),
            cs == chunker::chunk_views(chunks@),
            confirm_views(out@) == confirmations(all.take(i as int), cs),
    {
        let ghost before = confirm_views(out@);
        assert(all.take(i + 1).drop_last() =~= all.take(i as int));
        assert(all[i as int] == files@[i as int]@);
        if let Some(k) = find_first_chunk(chunks, files[i].as_str()) {
            let entry = (
                compute_point_id(files[i].as_str(), 1),
                copy_labels(&chunks[k].active_label_ids),
            );
            out.push(entry);
            assert(confirm_views(out@) =~= before.push((entry.0@, text::views(entry.1@))));
        }
    }
    assert(all.take(n as int) =~= all);
    out
}

fn raise(counts: &mut Vec<(String, usize)>, id: &str)
    requires
        count_of(count_views(old(counts)@), id@, 0) < usize::MAX,
    ensures
        count_views(final(counts)@) == raised(count_views(old(counts)@), id@, 0),
{
    let ghost all = count_views(counts@);
    let n: usize = counts.len();
    for i in 0..n
        invariant
            n == counts@.len(),
            all == count_views(counts@),
            all == count_views(old(counts)@),
            count_of(all, id@, 0) < usize::MAX,
            raised(all, id@, i as int) == raised(all, id@, 0),
            count_of(all, id@, i as int) == count_of(all, id@, 0),
    {
        assert(all[i as int] == (counts@[i as int].0@, counts@[i as int].1));
        if text::same(counts[i].0.as_str(), id) {
            let now: usize = counts[i].1 + 1;
            counts.set(i, (id.to_owned(), now));
            assert(count_views(counts@) =~= all.update(i as int, (id@, now)));
            return;
        }
    }
    counts.push((id.to_owned(), 1));
    assert(count_views(counts@) =~= all.push((id@, 1usize)));
}

impl Writer {
    /// Nothing has come yet.
    pub fn new() -> (r: Self)
        ensures
            r@.waiting.len() == 0,
            r@.expected.len() == 0,
            r@.checkpoints.len() == 0,
    {
        Writer { waiting: Vec::new(), expected: Vec::new(), checkpoints: Vec::new() }
    }

    /// Takes a chunk that has been embedded.
    pub fn receive(&mut self, chunk: Chunk)
        ensures
            final(self)@ == received(old(self)@, chunk@),
    {
        let ghost before = self@;
        let ghost e = self.expected@;
        if find_count(&self.expected, chunk.file_id.as_str()).is_none() {
            assert(!has_count(before.expected, chunk@.file_id)) by {
                if has_count(before.expected, chunk@.file_id) {
                    let k = choose|k: int|
                        0 <= k < before.expected.len() && (#[trigger] before.expected[k]).0
                            == chunk@.file_id;
                    assert(e[k].0@ == chunk@.file_id);
                }
            }
            self.expected.push((chunk.file_id.clone(), chunk.chunk_count));
            assert(count_views(self.expected@) =~= before.expected.push(
                (chunk@.file_id, chunk@.chunk_count as usize),
            ));
        } else {
            let ghost k = choose|k: int| 0 <= k < e.len() && (#[trigger] e[k]).0@ == chunk@.file_id;
            assert(before.expected[k].0 == chunk@.file_id);
        }
        let ghost w = self.waiting@;
        self.waiting.push(chunk);
        assert(chunker::chunk_views(self.waiting@) =~= chunker::chunk_views(w).push(chunk@));
    }

    /// Writes all that waits, if anything does.
    pub fn checkpoint(&mut self) -> (r: Option<Upload>)
        requires
            can_be_raised(old(self)@.checkpoints),
        ensures
            match r {
                Some(upload) => old(self)@.waiting.len() > 0 && (upload@, final(self)@)
                    == checkpointed(old(self)@),
                None => old(self)@.waiting.len() == 0 && final(self)@ == old(self)@,
            },
    {
        let ghost before = self@;
        assert(self@.waiting.len() == self.waiting@.len());
        if self.waiting.len() == 0 {
            return None;
        }
        let rows = make_rows(&self.waiting);
        let files = list_files(&self.waiting);
        let ghost all = files_of(before.waiting);
        proof {
            lemma_files_differ(before.waiting);
            assert forall|j: int| 0 <= j < all.len() implies count_of(
                before.checkpoints,
                #[trigger] all[j],
                0,
            ) < usize::MAX by {
                lemma_count_below(before.checkpoints, all[j], 0);
            }
        }
        let n: usize = files.len();
        for i in 0..n
            invariant
                n == files@.len(),
                all == text::views(files@),
                all.no_duplicates(),
                self@.waiting == before.waiting,
                self.expected@ == old(self).expected@,
                before == old(self)@,
                self@.checkpoints == all_raised(before.checkpoints, all.take(i as int)),
                forall|j: int|
                    i <= j < all.len() ==> count_of(self@.checkpoints, #[trigger] all[j], 0)
                        < usize::MAX,
        {
            let ghost counts = self@.checkpoints;
            assert(all[i as int] == files@[i as int]@);
            assert(all.take(i + 1).drop_last() =~= all.take(i as int));
            raise(&mut self.checkpoints, files[i].as_str());
            assert forall|j: int| i + 1 <= j < all.len() implies count_of(
                self@.checkpoints,
                #[trigger] all[j],
                0,
            ) < usize::MAX by {
                lemma_others_keep_their_count(counts, all[i as int], all[j], 0, 0);
            }
        }
        assert(all.take(n as int) =~= all);
        let due = self.due_files(&files);
        let confirmed = make_confirmations(&due, &self.waiting);
        self.waiting = Vec::new();
        assert(chunker::chunk_views(self.waiting@) =~= Seq::empty());
        Some(Upload { rows, confirmed })
    }

    fn due_files(&self, files: &Vec<String>) -> (r: Vec<String>)
        ensures
            text::views(r@) == text::views(files@).filter(
                |id: Seq<char>| is_due(self@.expected, self@.checkpoints, id),
            ),
    {
        let mut out: Vec<String> = Vec::new();
        let ghost all = text::views(files@);
        let ghost pred = |id: Seq<char>| is_due(self@.expected, self@.checkpoints, id);
        let n: usize = files.len();
        proof {
            reveal(Seq::filter);
            assert(text::views(out@) =~= all.take(0).filter(pred));
        }
        for i in 0..n
            invariant
                n == files@.len(),
                all == text::views(files@),
                pred == (|id: Seq<char>| is_due(self@.expected, self@.checkpoints, id)),
                text::views(out@) == all.take(i as int).filter(pred),
        {
            let ghost before = text::views(out@);
            proof {
                reveal(Seq::filter);
                assert(all.take(i + 1).drop_last() =~= all.take(i as int));
                assert(all[i as int] == files@[i as int]@);
            }
            let id = files[i].as_str();
            let seen: usize = match find_count(&self.checkpoints, id) {
                Some(k) => self.checkpoints[k].1,
                None => 0,
            };
            let wanted: usize = match find_count(&self.expected, id) {
                Some(k) => self.expected[k].1,
                None => 0,
            };
            if seen == wanted && wanted > 0 {
                out.push(id.to_owned());
                assert(text::views(out@) =~= before.push(id@));
            }
        }
        assert(all.take(n as int) =~= all);
        out
    }

    /// Writes what is left when no more chunks come, if anything is.
    pub fn finish(&mut self) -> (r: Option<Upload>)
        ensures
            final(self)@.waiting.len() == 0,
            match r {
                Some(upload) => old(self)@.waiting.len() > 0 && upload@ == last_upload(
                    old(self)@.waiting,
                ),
                None => old(self)@.waiting.len() == 0,
            },
    {
        assert(self@.waiting.len() == self.waiting@.len());
        if self.waiting.len() == 0 {
            return None;
        }
        let rows = make_rows(&self.waiting);
        let files = list_files(&self.waiting);
        let confirmed = make_confirmations(&files, &self.waiting);
        self.waiting = Vec::new();
        Some(Upload { rows, confirmed })
    }
}

proof fn lemma_count_below(counts: Seq<(Seq<char>, usize)>, id: Seq<char>, i: int)
    requires
        0 <= i,
        can_be_raised(counts),
    ensures
        count_of(counts, id, i) < usize::MAX,
    decreases counts.len() - i,
{
    if i < counts.len() && counts[i].0 != id {
        lemma_count_below(counts, id, i + 1);
    }
}

proof fn lemma_files_differ(chunks: Seq<ChunkView>)
    ensures
        files_of(chunks).no_duplicates(),
    decreases chunks.len(),
{
    if chunks.len() > 0 {
        lemma_files_differ(chunks.drop_last());
    }
}

proof fn lemma_others_keep_their_count(
    counts: Seq<(Seq<char>, usize)>,
    id: Seq<char>,
    other: Seq<char>,
    i: int,
    k: int,
)
    requires
        id != other,
        0 <= i,
        0 <= k,
    ensures
        count_of(raised(counts, id, i), other, k) == count_of(counts, other, k),
    decreases counts.len() - i,
{
    if i >= counts.len() {
        lemma_count_pushed(counts, id, other, k);
    } else if counts[i].0 == id {
        lemma_count_updated(counts, id, other, i, k);
    } else {
        lemma_others_keep_their_count(counts, id, other, i + 1, k);
    }
}

proof fn lemma_count_pushed(
    counts: Seq<(Seq<char>, usize)>,
    id: Seq<char>,
    other: Seq<char>,
    k: int,
)
    requires
        id != other,
        0 <= k,
    ensures
        count_of(counts.push((id, 1usize)), other, k) == count_of(counts, other, k),
    decreases counts.len() - k,
{
    if k < counts.len() {
        lemma_count_pushed(counts, id, other, k + 1);
    } else if k == counts.len() {
        assert(count_of(counts.push((id, 1usize)), other, k + 1) == 0);
    }
}

proof fn lemma_count_updated(
    counts: Seq<(Seq<char>, usize)>,
    id: Seq<char>,
    other: Seq<char>,
    i: int,
    k: int,
)
    requires
        id != other,
        0 <= i < counts.len(),
        0 <= k,
        counts[i].0 == id,
    ensures
        count_of(counts.update(i, (id, (counts[i].1 + 1) as usize)), other, k) == count_of(
            counts,
            other,
            k,
        ),
    decreases counts.len() - k,
{
    if k < counts.len() {
        lemma_count_updated(counts, id, other, i, k + 1);
    }
}

proof fn lemma_own_count(counts: Seq<(Seq<char>, usize)>, id: Seq<char>, i: int)
    requires
        0 <= i <= counts.len(),
        count_of(counts, id, i) < usize::MAX,
    ensures
        raised(counts, id, i).len() >= counts.len(),
        forall|j: int| 0 <= j < i ==> raised(counts, id, i)[j] == counts[j],
        count_of(raised(counts, id, i), id, i) == count_of(counts, id, i) + 1,
    decreases counts.len() - i,
{
    if i < counts.len() && counts[i].0 != id {
        lemma_own_count(counts, id, i + 1);
        assert(raised(counts, id, i)[i] == counts[i]);
    }
}

proof fn lemma_all_raised(
    counts: Seq<(Seq<char>, usize)>,
    files: Seq<Seq<char>>,
    id: Seq<char>,
)
    requires
        files.no_duplicates(),
        count_of(counts, id, 0) < usize::MAX,
    ensures
        count_of(all_raised(counts, files), id, 0) == count_of(counts, id, 0) + if files.contains(
            id,
        ) {
            1int
        } else {
            0
        },
    decreases files.len(),
{
    if files.len() > 0 {
        let rest = files.drop_last();
        lemma_all_raised(counts, rest, id);
        let before = all_raised(counts, rest);
        let last = files.last();
        if last == id {
            assert(files[files.len() - 1] == id);
            if rest.contains(id) {
                let k = choose|k: int| 0 <= k < rest.len() && rest[k] == id;
                assert(files[k] == id);
            }
            lemma_own_count(before, id, 0);
        } else {
            lemma_others_keep_their_count(before, last, id, 0, 0);
            if files.contains(id) {
                let k = choose|k: int| 0 <= k < files.len() && files[k] == id;
                assert(rest[k] == id);
            }
            if rest.contains(id) {
                let k = choose|k: int| 0 <= k < rest.len() && rest[k] == id;
                assert(files[k] == id);
            }
        }
    }
}

/// What happens to a writer.
pub enum WriterEvent {
    /// A chunk comes.
    Received(ChunkView),
    /// It is time for a checkpoint.
    Checkpoint,
}

/// The rows that are written in the course of events, and what is known after them.
pub open spec fn history(events: Seq<WriterEvent>) -> (Seq<ChunkRowView>, WriterView)
    decreases events.len(),
{
    if events.len() == 0 {
        (
            Seq::empty(),
            WriterView {
                waiting: Seq::empty(),
                expected: Seq::empty(),
                checkpoints: Seq::empty(),
            },
        )
    } else {
        let (written, w) = history(events.drop_last());
        match events.last() {
            WriterEvent::Received(c) => (written, received(w, c)),
            WriterEvent::Checkpoint => if w.waiting.len() > 0 {
                (written + checkpointed(w).0.rows, checkpointed(w).1)
            } else {
                (written, w)
            },
        }
    }
}

/// The chunks that come in the course of events.
pub open spec fn arrivals(events: Seq<WriterEvent>) -> Seq<ChunkView>
    decreases events.len(),
{
    if events.len() == 0 {
        Seq::empty()
    } else {
        match events.last() {
            WriterEvent::Received(c) => arrivals(events.drop_last()).push(c),
            WriterEvent::Checkpoint => arrivals(events.drop_last()),
        }
    }
}

/// Whenever checkpoints are made, every chunk that comes is written exactly once and in its
/// turn: the rows of all checkpoints, followed by those of the last upload, are the rows of
/// the chunks that came.
pub proof fn every_chunk_is_written_once(events: Seq<WriterEvent>)
    ensures
        history(events).0 + last_upload(history(events).1.waiting).rows == arrivals(
            events,
        ).map_values(|c: ChunkView| row_of(c)),
    decreases events.len(),
{
    let f = |c: ChunkView| row_of(c);
    if events.len() == 0 {
        assert(history(events).0 + last_upload(history(events).1.waiting).rows =~= arrivals(
            events,
        ).map_values(f));
    } else {
        let before = events.drop_last();
        every_chunk_is_written_once(before);
        let (written, w) = history(before);
        match events.last() {
            WriterEvent::Received(c) => {
                assert(w.waiting.push(c).map_values(f) =~= w.waiting.map_values(f).push(f(c)));
                assert(arrivals(before).push(c).map_values(f) =~= arrivals(before).map_values(
                    f,
                ).push(f(c)));
            },
            WriterEvent::Checkpoint => {},
        }
        assert(history(events).0 + last_upload(history(events).1.waiting).rows =~= arrivals(
            events,
        ).map_values(f));
    }
}

/// Number of checkpoints at which chunks of a file were waiting.
pub open spec fn checkpoints_with(events: Seq<WriterEvent>, id: Seq<char>) -> nat
    decreases events.len(),
{
    if events.len() == 0 {
        0
    } else {
        let before = events.drop_last();
        checkpoints_with(before, id) + if events.last() is Checkpoint && files_of(
            history(before).1.waiting,
        ).contains(id) {
            1nat
        } else {
            0
        }
    }
}

/// The writer counts right: for each file it knows at how many checkpoints chunks of it were
/// waiting.
pub proof fn checkpoints_are_counted(events: Seq<WriterEvent>, id: Seq<char>)
    requires
        events.len() <= usize::MAX,
    ensures
        count_of(history(events).1.checkpoints, id, 0) == checkpoints_with(events, id),
        checkpoints_with(events, id) <= events.len(),
    decreases events.len(),
{
    if events.len() > 0 {
        let before = events.drop_last();
        checkpoints_are_counted(before, id);
        let w = history(before).1;
        if events.last() is Checkpoint {
            lemma_files_differ(w.waiting);
            lemma_all_raised(w.checkpoints, files_of(w.waiting), id);
        }
    }
}

/// Only first chunks are confirmed that are written in the same upload.
pub proof fn confirmed_chunks_are_written(
    files: Seq<Seq<char>>,
    chunks: Seq<ChunkView>,
    k: int,
)
    requires
        0 <= k < confirmations(files, chunks).len(),
    ensures
        exists|i: int|
            0 <= i < chunks.len() && (#[trigger] chunks[i]).chunk_ordinal == 1 && row_of(
                chunks[i],
            ).point_id == confirmations(files, chunks)[k].0,
    decreases files.len(),
{
    let rest = files.drop_last();
    let before = confirmations(rest, chunks);
    if k < before.len() {
        confirmed_chunks_are_written(rest, chunks, k);
    } else {
        lemma_first_chunk(chunks, files.last(), 0);
    }
}

proof fn lemma_first_chunk(chunks: Seq<ChunkView>, id: Seq<char>, i: int)
    requires
        0 <= i,
    ensures
        first_chunk(chunks, id, i) matches Some(c) ==> exists|j: int|
            0 <= j < chunks.len() && #[trigger] chunks[j] == c && c.file_id == id
                && c.chunk_ordinal == 1,
    decreases chunks.len() - i,
{
    if i < chunks.len() {
        if chunks[i].file_id == id && chunks[i].chunk_ordinal == 1 {
        } else {
            lemma_first_chunk(chunks, id, i + 1);
        }
    }
}

/// Which of several sessions embeds a chunk: they take turns.
pub fn worker_for(index: usize, workers: usize) -> (r: usize)
    requires
        workers > 0,
    ensures
        r == index as int % workers as int,
        r < workers,
{
    index % workers
}

/// The message for a chunk that could not be embedded.
pub fn embedding_failure(chunk: &Chunk, reason: &str) -> (r: String)
    ensures
        r@ == chunk@.relative_path + ":"@ + text::decimal(chunk@.chunk_ordinal as nat) + ": "@
            + reason@,
{
    let mut out = chunk.relative_path.clone();
    out.append(":");
    text::push_decimal(&mut out, chunk.chunk_ordinal as u64);
    out.append(": ");
    out.append(reason);
    out
}

/// The files of a list of chunks are exactly those that its chunks belong to.
pub proof fn files_are_those_of_the_chunks(chunks: Seq<ChunkView>, id: Seq<char>)
    ensures
        files_of(chunks).contains(id) <==> exists|i: int|
            0 <= i < chunks.len() && (#[trigger] chunks[i]).file_id == id,
    decreases chunks.len(),
{
    if chunks.len() > 0 {
        let rest = chunks.drop_last();
        files_are_those_of_the_chunks(rest, id);
        let before = files_of(rest);
        let all = files_of(chunks);
        let last = chunks.last();
        assert(chunks[chunks.len() - 1] == last);
        if before.contains(id) {
            let k = choose|k: int| 0 <= k < before.len() && before[k] == id;
            assert(all[k] == id);
            let i = choose|i: int| 0 <= i < rest.len() && (#[trigger] rest[i]).file_id == id;
            assert(chunks[i].file_id == id);
        }
        if last.file_id == id && !before.contains(id) {
            assert(all[before.len() as int] == id);
        }
        if all.contains(id) {
            let k = choose|k: int| 0 <= k < all.len() && all[k] == id;
            if k < before.len() {
                assert(before[k] == id);
            }
        }
        if exists|i: int| 0 <= i < chunks.len() && (#[trigger] chunks[i]).file_id == id {
            let i = choose|i: int| 0 <= i < chunks.len() && (#[trigger] chunks[i]).file_id == id;
            if i < rest.len() {
                assert(rest[i].file_id == id);
            }
        }
    }
}

proof fn lemma_has_first_chunk(chunks: Seq<ChunkView>, id: Seq<char>, i: int)
    requires
        0 <= i,
    ensures
        first_chunk(chunks, id, i) is Some <==> exists|j: int|
            i <= j < chunks.len() && (#[trigger] chunks[j]).file_id == id && chunks[j].chunk_ordinal
                == 1,
    decreases chunks.len() - i,
{
    if i < chunks.len() {
        lemma_has_first_chunk(chunks, id, i + 1);
    }
}

proof fn lemma_confirmed(files: Seq<Seq<char>>, chunks: Seq<ChunkView>, id: Seq<char>)
    requires
        files.contains(id),
        first_chunk(chunks, id, 0) is Some,
    ensures
        exists|k: int|
            0 <= k < confirmations(files, chunks).len() && (#[trigger] confirmations(
                files,
                chunks,
            )[k]) == (
                id + seq![':'] + text::decimal(1),
                (first_chunk(chunks, id, 0)->0).active_label_ids,
            ),
    decreases files.len(),
{
    let all = confirmations(files, chunks);
    let rest = files.drop_last();
    let before = confirmations(rest, chunks);
    if files.last() == id {
        assert(all[before.len() as int] == (
            id + seq![':'] + text::decimal(1),
            (first_chunk(chunks, id, 0)->0).active_label_ids,
        ));
    } else {
        let i = choose|i: int| 0 <= i < files.len() && files[i] == id;
        assert(rest[i] == id);
        lemma_confirmed(rest, chunks, id);
        let k = choose|k: int|
            0 <= k < before.len() && (#[trigger] before[k]) == (
                id + seq![':'] + text::decimal(1),
                (first_chunk(chunks, id, 0)->0).active_label_ids,
            );
        assert(all[k] == before[k]);
    }
}

/// At the end every file is confirmed whose first chunk waits: under the identifier of that
/// chunk, and with the labels of one that has the file's identifier and comes first.
pub proof fn waiting_first_chunks_are_confirmed_at_the_end(waiting: Seq<ChunkView>, i: int)
    requires
        0 <= i < waiting.len(),
        waiting[i].chunk_ordinal == 1,
    ensures
        exists|k: int|
            0 <= k < last_upload(waiting).confirmed.len() && (#[trigger] last_upload(
                waiting,
            ).confirmed[k]).0 == waiting[i].file_id + seq![':'] + text::decimal(1),
{
    let id = waiting[i].file_id;
    files_are_those_of_the_chunks(waiting, id);
    assert(waiting[i].file_id == id);
    lemma_has_first_chunk(waiting, id, 0);
    lemma_confirmed(files_of(waiting), waiting, id);
    let all = last_upload(waiting).confirmed;
    let k = choose|k: int|
        0 <= k < all.len() && (#[trigger] all[k]) == (
            id + seq![':'] + text::decimal(1),
            (first_chunk(waiting, id, 0)->0).active_label_ids,
        );
    assert(all[k].0 == id + seq![':'] + text::decimal(1));
}

/// At a checkpoint a file is confirmed whose first chunk waits, once chunks of it have waited at
/// as many checkpoints, this one counted, as the file has chunks.
pub proof fn due_files_are_confirmed_at_a_checkpoint(w: WriterView, i: int)
    requires
        0 <= i < w.waiting.len(),
        w.waiting[i].chunk_ordinal == 1,
        count_of(w.checkpoints, w.waiting[i].file_id, 0) < usize::MAX,
        count_of(w.expected, w.waiting[i].file_id, 0) > 0,
        count_of(w.checkpoints, w.waiting[i].file_id, 0) + 1 == count_of(
            w.expected,
            w.waiting[i].file_id,
            0,
        ),
    ensures
        exists|k: int|
            0 <= k < checkpointed(w).0.confirmed.len() && (#[trigger] checkpointed(
                w,
            ).0.confirmed[k]).0 == w.waiting[i].file_id + seq![':'] + text::decimal(1),
{
    let id = w.waiting[i].file_id;
    let files = files_of(w.waiting);
    files_are_those_of_the_chunks(w.waiting, id);
    assert(w.waiting[i].file_id == id);
    lemma_has_first_chunk(w.waiting, id, 0);
    lemma_files_differ(w.waiting);
    lemma_all_raised(w.checkpoints, files, id);
    let checkpoints = all_raised(w.checkpoints, files);
    let pred = |id: Seq<char>| is_due(w.expected, checkpoints, id);
    let j = choose|j: int| 0 <= j < files.len() && files[j] == id;
    files.lemma_filter_contains(pred, j);
    lemma_confirmed(files.filter(pred), w.waiting, id);
    let all = checkpointed(w).0.confirmed;
    let k = choose|k: int|
        0 <= k < all.len() && (#[trigger] all[k]) == (
            id + seq![':'] + text::decimal(1),
            (first_chunk(w.waiting, id, 0)->0).active_label_ids,
        );
    assert(all[k].0 == id + seq![':'] + text::decimal(1));
}

/// The number of chunks that is expected of a file is what its first arrival says, and no later
/// one changes it or that of another file.
pub proof fn first_arrival_tells_the_number(w: WriterView, c: ChunkView, other: Seq<char>)
    requires
        0 <= c.chunk_count <= usize::MAX,
    ensures
        !has_count(w.expected, c.file_id) ==> count_of(received(w, c).expected, c.file_id, 0)
            == c.chunk_count,
        has_count(w.expected, c.file_id) ==> received(w, c).expected == w.expected,
        other != c.file_id ==> count_of(received(w, c).expected, other, 0) == count_of(
            w.expected,
            other,
            0,
        ),
        received(w, c).waiting == w.waiting.push(c),
        received(w, c).checkpoints == w.checkpoints,
{
    if !has_count(w.expected, c.file_id) {
        lemma_count_behind(w.expected, c.file_id, c.chunk_count as usize, 0);
        if other != c.file_id {
            lemma_count_beside(w.expected, c.file_id, c.chunk_count as usize, other, 0);
        }
    }
}

proof fn lemma_count_behind(counts: Seq<(Seq<char>, usize)>, id: Seq<char>, n: usize, i: int)
    requires
        0 <= i <= counts.len(),
        !has_count(counts, id),
    ensures
        count_of(counts.push((id, n)), id, i) == n,
    decreases counts.len() - i,
{
    if i < counts.len() {
        assert(counts[i].0 != id);
        assert(counts.push((id, n))[i] == counts[i]);
        lemma_count_behind(counts, id, n, i + 1);
    }
}

proof fn lemma_count_beside(
    counts: Seq<(Seq<char>, usize)>,
    id: Seq<char>,
    n: usize,
    other: Seq<char>,
    i: int,
)
    requires
        0 <= i,
        other != id,
    ensures
        count_of(counts.push((id, n)), other, i) == count_of(counts, other, i),
    decreases counts.len() - i,
{
    if i < counts.len() {
        lemma_count_beside(counts, id, n, other, i + 1);
    } else if i == counts.len() {
        assert(count_of(counts.push((id, n)), other, i + 1) == 0);
    }
}

}
