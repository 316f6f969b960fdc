//! Showing stored chunks of files.
use crate::display;
use crate::display::{make_report_form, sanitize_for_terminal, say_marked};
use crate::failure::{failure, Failure};
use crate::ids;
use crate::names::NameSet;
use crate::numbers;
use crate::numbers::read_number;
use crate::report;
use crate::report::{no_lines, say, Line, LineView};
use crate::settings;
use crate::settings::{CatalogConfig, CatalogConfigView};
use crate::storage::rows;
use crate::storage::rows::{ChunkRow, ChunkRowView};
use crate::text;
use vstd::prelude::*;

verus! {

/// Which chunks of a file are shown; they are counted from one.
#[derive(Debug, Clone, Copy, PartialEq, Eq, Structural)]
pub enum ChunkSelector {
    /// All of them.
    All,
    /// One of them.
    Single(usize),
    /// Those from one to another.
    Range(usize, usize),
    /// Those from one on.
    ToEnd(usize),
}

/// Whether a text can be a file's identifier.
pub open spec fn is_id(s: Seq<char>) -> bool {
    text::byte_len(s) == 16 && forall|i: int|
        0 <= i < s.len() ==> ids::hex_digit_char(#[trigger] s[i])
}

/// The message for a text that cannot be a file's identifier.
pub open spec fn bad_id(s: Seq<char>) -> Seq<char> {
    "Invalid file ID '"@ + s + "'. Expected 16 hex characters."@
}

/// A number of a selector.
pub open spec fn ordinal(s: Seq<char>) -> Option<nat> {
    numbers::number(s, usize::MAX as nat)
}

/// The message for a number of a selector that cannot be read.
pub open spec fn bad_number(which: Seq<char>, selector: Seq<char>) -> Seq<char> {
    "Invalid "@ + which + " in selector '"@ + selector + "'"@
}

/// What a number of a selector stands for.
pub open spec fn counted_number(s: Seq<char>, selector: Seq<char>) -> Result<usize, Seq<char>> {
    match ordinal(s) {
        None => Err(bad_number("chunk number"@, selector)),
        Some(n) => if n < 1 {
            Err("Chunk numbers are 1-indexed, got "@ + text::decimal(n))
        } else {
            Ok(n as usize)
        },
    }
}

/// What two numbers of a selector stand for.
pub open spec fn range_of(selector: Seq<char>) -> Result<ChunkSelector, Seq<char>> {
    let parts = text::split(selector, '-');
    if parts.len() != 2 {
        Err("Invalid selector '"@ + selector + "'. Expected ':N-M' format."@)
    } else {
        match (ordinal(parts[0]), ordinal(parts[1])) {
            (None, _) => Err(bad_number("start chunk"@, selector)),
            (_, None) => Err(bad_number("end chunk"@, selector)),
            (Some(start), Some(end)) => if start < 1 || end < 1 {
                Err(
                    "Chunk numbers are 1-indexed, got "@ + text::decimal(start) + ":"@
                        + text::decimal(end),
                )
            } else if start > end {
                Err(
                    "Start chunk "@ + text::decimal(start) + " > end chunk "@ + text::decimal(end),
                )
            } else {
                Ok(ChunkSelector::Range(start as usize, end as usize))
            },
        }
    }
}

/// What a selector stands for.
pub open spec fn selector_of(selector: Seq<char>) -> Result<ChunkSelector, Seq<char>> {
    if selector == "end"@ {
        Err("Invalid selector ':end'. Use ':N-end' format."@)
    } else if "-end"@.is_suffix_of(selector) {
        match counted_number(selector.take(selector.len() - "-end"@.len()), selector) {
            Ok(start) => Ok(ChunkSelector::ToEnd(start)),
            Err(e) => Err(e),
        }
    } else if selector.contains('-') {
        range_of(selector)
    } else {
        match counted_number(selector, selector) {
            Ok(n) => Ok(ChunkSelector::Single(n)),
            Err(e) => Err(e),
        }
    }
}

/// What a request stands for: a file's identifier, and a selector after a colon.
pub open spec fn request_of(s: Seq<char>) -> Result<(Seq<char>, ChunkSelector), Seq<char>> {
    let t = text::trimmed(s);
    let n = text::first_index(t, ':');
    if n < t.len() {
        if !is_id(t.take(n)) {
            Err(bad_id(t.take(n)))
        } else {
            match selector_of(text::after(t, n + 1)) {
                Ok(selector) => Ok((t.take(n), selector)),
                Err(e) => Err(e),
            }
        }
    } else if !is_id(t) {
        Err(bad_id(t))
    } else {
        Ok((t, ChunkSelector::All))
    }
}

fn check_id(s: &str) -> (r: bool)
    ensures
        r == is_id(s@),
{
    if text::len_in_bytes(s) != 16 {
        return false;
    }
    let cs = text::chars(s);
    let n: usize = cs.len();
    for i in 0..n
        invariant
            n == cs@.len(),
            cs@ == s@,
            text::byte_len(s@) == 16,
            forall|j: int| 0 <= j < i ==> ids::hex_digit_char(#[trigger] s@[j]),
    {
        let c = cs[i];
        if !((c >= '0' && c <= '9') || (c >= 'a' && c <= 'f') || (c >= 'A' && c <= 'F')) {
            assert(!ids::hex_digit_char(s@[i as int]));
            return false;
        }
    }
    true
}

fn make_bad_number(which: &str, selector: &str) -> (r: Failure)
    ensures
        r@ == bad_number(which@, selector@),
{
    let mut message = text::around("Invalid ", which, " in selector '");
    message.append(selector);
    message.append("'");
    failure(message)
}

fn read_counted(s: &str, selector: &str) -> (r: Result<usize, Failure>)
    ensures
        match r {
            Ok(n) => counted_number(s@, selector@) == Ok::<_, Seq<char>>(n),
            Err(e) => counted_number(s@, selector@) == Err::<usize, _>(e@),
        },
{
    match read_number(s, usize::MAX as u64) {
        None => Err(make_bad_number("chunk number", selector)),
        Some(n) => {
            if n < 1 {
                let mut message = "Chunk numbers are 1-indexed, got ".to_owned();
                text::push_decimal(&mut message, n);
                Err(failure(message))
            } else {
                Ok(n as usize)
            }
        },
    }
}

fn read_range(selector: &str) -> (r: Result<ChunkSelector, Failure>)
    ensures
        match r {
            Ok(x) => range_of(selector@) == Ok::<_, Seq<char>>(x),
            Err(e) => range_of(selector@) == Err::<ChunkSelector, _>(e@),
        },
{
    let parts = text::split_on(selector, '-');
    let ghost all = text::split(selector@, '-');
    assert(all.len() == parts@.len());
    if parts.len() != 2 {
        return Err(
            failure(
                text::around("Invalid selector '", selector, "'. Expected ':N-M' format."),
            ),
        );
    }
    assert(all[0] == parts@[0]@ && all[1] == parts@[1]@);
    let Some(start) = read_number(parts[0].as_str(), usize::MAX as u64) else {
        return Err(make_bad_number("start chunk", selector));
    };
    let Some(end) = read_number(parts[1].as_str(), usize::MAX as u64) else {
        return Err(make_bad_number("end chunk", selector));
    };
    if start < 1 || end < 1 {
        let mut message = text::around_number("Chunk numbers are 1-indexed, got ", start, ":");
        text::push_decimal(&mut message, end);
        return Err(failure(message));
    }
    if start > end {
        let mut message = text::around_number("Start chunk ", start, " > end chunk ");
        text::push_decimal(&mut message, end);
        return Err(failure(message));
    }
    Ok(ChunkSelector::Range(start as usize, end as usize))
}

fn read_selector(selector: &str) -> (r: Result<ChunkSelector, Failure>)
    ensures
        match r {
            Ok(x) => selector_of(selector@) == Ok::<_, Seq<char>>(x),
            Err(e) => selector_of(selector@) == Err::<ChunkSelector, _>(e@),
        },
{
    if text::same(selector, "end") {
        return Err(failure("Invalid selector ':end'. Use ':N-end' format.".to_owned()));
    }
    let cs = text::chars(selector);
    if text::ends_with(selector, "-end") {
        proof {
            reveal_strlit("-end");
        }
        let start = text::part_of(&cs, 0, cs.len() - 4);
        assert(start@ =~= selector@.take(selector@.len() - 4));
        return match read_counted(start.as_str(), selector) {
            Ok(n) => Ok(ChunkSelector::ToEnd(n)),
            Err(e) => Err(e),
        };
    }
    proof {
        text::lemma_first_index(selector@, '-');
    }
    if text::find_char(&cs, '-') < cs.len() {
        return read_range(selector);
    }
    match read_counted(selector, selector) {
        Ok(n) => Ok(ChunkSelector::Single(n)),
        Err(e) => Err(e),
    }
}

/// Reads a file's identifier with a selector: `:3`, `:2-3`, `:3-end`, or none for all chunks.
pub fn parse_file_id_with_selector(s: &str) -> (r: Result<(String, ChunkSelector), Failure>)
    ensures
        match r {
            Ok((id, selector)) => request_of(s@) == Ok::<_, Seq<char>>((id@, selector)),
            Err(e) => request_of(s@) == Err::<(Seq<char>, ChunkSelector), _>(e@),
        },
{
    let t = text::trim(s);
    let cs = text::chars(t.as_str());
    let n: usize = text::find_char(&cs, ':');
    proof {
        text::lemma_first_index(t@, ':');
    }
    if n < cs.len() {
        let id = text::part_of(&cs, 0, n);
        let selector = text::part_of(&cs, n + 1, cs.len());
        assert(id@ =~= t@.take(n as int));
        assert(selector@ =~= text::after(t@, n + 1));
        if !check_id(id.as_str()) {
            return Err(
                failure(
                    text::around(
                        "Invalid file ID '",
                        id.as_str(),
                        "'. Expected 16 hex characters.",
                    ),
                ),
            );
        }
        match read_selector(selector.as_str()) {
            Ok(x) => Ok((id, x)),
            Err(e) => Err(e),
        }
    } else {
        if !check_id(t.as_str()) {
            return Err(
                failure(
                    text::around("Invalid file ID '", t.as_str(), "'. Expected 16 hex characters."),
                ),
            );
        }
        Ok((t, ChunkSelector::All))
    }
}

/// What requests stand for.
pub open spec fn request_views(requests: Seq<(String, ChunkSelector)>) -> Seq<
    (Seq<char>, ChunkSelector),
> {
    requests.map_values(|r: (String, ChunkSelector)| (r.0@, r.1))
}

/// What several requests stand for, or what is wrong with the first bad one.
pub open spec fn requests_of(specs: Seq<Seq<char>>) -> Result<
    Seq<(Seq<char>, ChunkSelector)>,
    Seq<char>,
>
    decreases specs.len(),
{
    if specs.len() == 0 {
        Ok(Seq::empty())
    } else {
        match requests_of(specs.drop_last()) {
            Err(e) => Err(e),
            Ok(before) => match request_of(specs.last()) {
                Err(e) => Err(e),
                Ok(request) => Ok(before.push(request)),
            },
        }
    }
}

/// The message where nothing is requested.
pub open spec fn no_requests() -> Seq<char> {
    "No IDs provided. Use --id <file_id>[:<selector>]"@
}

/// Checks that something is requested.
pub fn check_requests(specs: &Vec<String>) -> (r: Result<(), Failure>)
    ensures
        match r {
            Ok(_) => specs@.len() > 0,
            Err(e) => specs@.len() == 0 && e@ == no_requests(),
        },
{
    if specs.len() == 0 {
        return Err(failure("No IDs provided. Use --id <file_id>[:<selector>]".to_owned()));
    }
    Ok(())
}

/// Reads several requests.
pub fn parse_requests(specs: &Vec<String>) -> (r: Result<Vec<(String, ChunkSelector)>, Failure>)
    ensures
        match r {
            Ok(v) => requests_of(text::views(specs@)) == Ok::<_, Seq<char>>(request_views(v@)),
            Err(e) => requests_of(text::views(specs@)) == Err::<
                Seq<(Seq<char>, ChunkSelector)>,
                _,
            >(e@),
        },
{
    let mut out: Vec<(String, ChunkSelector)> = Vec::new();
    let ghost all = text::views(specs@);
    let n: usize = specs.len();
    assert(request_views(out@) =~= Seq::empty());
    for i in 0..n
        invariant
            n == specs@.len(),
            all == text::views(specs@),
            requests_of(all.take(i as int)) == Ok::<_, Seq<char>>(request_views(out@)),
    {
        let ghost before = request_views(out@);
        proof {
            assert(all.take(i + 1).drop_last() =~= all.take(i as int));
            assert(all[i as int] == specs@[i as int]@);
        }
        match parse_file_id_with_selector(specs[i].as_str()) {
            Ok(request) => {
                out.push(request);
                assert(request_views(out@) =~= before.push((request.0@, request.1)));
            },
            Err(e) => {
                proof {
                    lemma_first_fault(all, i + 1, e@);
                }
                return Err(e);
            },
        }
    }
    assert(all.take(n as int) =~= all);
    Ok(out)
}

proof fn lemma_first_fault(specs: Seq<Seq<char>>, n: int, e: Seq<char>)
    requires
        0 <= n <= specs.len(),
        requests_of(specs.take(n)) == Err::<Seq<(Seq<char>, ChunkSelector)>, _>(e),
    ensures
        requests_of(specs) == Err::<Seq<(Seq<char>, ChunkSelector)>, _>(e),
    decreases specs.len() - n,
{
    if n < specs.len() {
        assert(specs.take(n + 1).drop_last() =~= specs.take(n));
        lemma_first_fault(specs, n + 1, e);
    } else {
        assert(specs.take(n) =~= specs);
    }
}

/// Whether a selector takes a chunk.
pub open spec fn takes(selector: ChunkSelector, row: ChunkRowView) -> bool {
    let n = row.chunk_ordinal as usize;
    match selector {
        ChunkSelector::All => true,
        ChunkSelector::Single(k) => n == k,
        ChunkSelector::Range(start, end) => start <= n <= end,
        ChunkSelector::ToEnd(start) => start <= n,
    }
}

/// The chunks that a selector takes, in their order.
pub fn select_chunks(chunks: Vec<ChunkRow>, selector: ChunkSelector) -> (r: Vec<ChunkRow>)
    ensures
        rows::row_views(r@) == rows::row_views(chunks@).filter(
            |row: ChunkRowView| takes(selector, row),
        ),
{
    let mut out: Vec<ChunkRow> = Vec::new();
    let ghost all = rows::row_views(chunks@);
    let ghost pred = |row: ChunkRowView| takes(selector, row);
    proof {
        reveal(Seq::filter);
        assert(rows::row_views(out@) =~= all.take(0).filter(pred));
    }
    for row in it: chunks
        invariant
            it.seq() == chunks@,
            all == rows::row_views(chunks@),
            pred == (|row: ChunkRowView| takes(selector, row)),
            rows::row_views(out@) == all.take(it.index() as int).filter(pred),
    {
        let ghost before = rows::row_views(out@);
        proof {
            reveal(Seq::filter);
            let i = it.index() as int;
            assert(all.take(i + 1).drop_last() =~= all.take(i));
            assert(all[i] == row@);
        }
        let n: usize = row.chunk_ordinal as usize;
        let taken = match selector {
            ChunkSelector::All => true,
            ChunkSelector::Single(k) => n == k,
            ChunkSelector::Range(start, end) => n >= start && n <= end,
            ChunkSelector::ToEnd(start) => n >= start,
        };
        if taken {
            out.push(row);
            assert(rows::row_views(out@) =~= before.push(row@));
        }
    }
    assert(all.take(all.len() as int) =~= all);
    out
}

/// How a selector is written.
pub open spec fn shown_selector(selector: ChunkSelector) -> Seq<char> {
    match selector {
        ChunkSelector::All => ""@,
        ChunkSelector::Single(n) => ":"@ + text::decimal(n as nat),
        ChunkSelector::Range(start, end) => ":"@ + text::decimal(start as nat) + "-"@
            + text::decimal(end as nat),
        ChunkSelector::ToEnd(start) => ":"@ + text::decimal(start as nat) + "-end"@,
    }
}

/// How a selector is written, see [`shown_selector`].
pub fn show_selector(selector: ChunkSelector) -> (r: String)
    ensures
        r@ == shown_selector(selector),
{
    match selector {
        ChunkSelector::All => "".to_owned(),
        ChunkSelector::Single(n) => {
            let mut out = ":".to_owned();
            text::push_decimal(&mut out, n as u64);
            out
        },
        ChunkSelector::Range(start, end) => {
            let mut out = text::around_number(":", start as u64, "-");
            text::push_decimal(&mut out, end as u64);
            out
        },
        ChunkSelector::ToEnd(start) => text::around_number(":", start as u64, "-end"),
    }
}

/// How a chunk is shown.
pub open spec fn chunk_lines(file_id: Seq<char>, row: ChunkRowView, full_paths: bool) -> Seq<
    LineView,
> {
    let n = text::signed(row.chunk_ordinal as int);
    let head = seq![
        LineView::Out(
            file_id + ":"@ + n + " ("@ + n + "/"@ + text::signed(row.chunk_count as int) + ") "@
                + display::report_form(row),
        ),
        LineView::Out(
            "Source: ("@ + display::sanitized(row.catalog) + ") "@ + display::sanitized(
                row.relative_path,
            ),
        ),
    ];
    let path = if full_paths {
        seq![LineView::Out("Full path: "@ + display::sanitized(row.source_uri))]
    } else {
        seq![]
    };
    head + path + seq![
        LineView::Out(
            "Lines: "@ + text::signed(row.start_line as int) + "-"@ + text::signed(
                row.end_line as int,
            ),
        ),
        LineView::Out("Type: "@ + display::sanitized(row.chunk_type)),
        LineView::Out(""@),
    ] + display::marked(text::lines(row.text), "> "@) + seq![LineView::Out(""@)]
}

fn say_chunk(lines: &mut Vec<Line>, file_id: &str, row: &ChunkRow, full_paths: bool)
    ensures
        report::line_views(final(lines)@) == report::line_views(old(lines)@) + chunk_lines(
            file_id@,
            row@,
            full_paths,
        ),
{
    let ghost start = report::line_views(lines@);
    let mut head = file_id.to_owned();
    head.append(":");
    text::push_signed(&mut head, row.chunk_ordinal);
    head.append(" (");
    text::push_signed(&mut head, row.chunk_ordinal);
    head.append("/");
    text::push_signed(&mut head, row.chunk_count);
    head.append(") ");
    head.append(make_report_form(row).as_str());
    say(lines, head);
    let catalog = sanitize_for_terminal(row.catalog.as_str());
    let mut source = text::around("Source: (", catalog.as_str(), ") ");
    source.append(sanitize_for_terminal(row.relative_path.as_str()).as_str());
    say(lines, source);
    if full_paths {
        let mut path = "Full path: ".to_owned();
        path.append(sanitize_for_terminal(row.source_uri.as_str()).as_str());
        say(lines, path);
    }
    let mut range = "Lines: ".to_owned();
    text::push_signed(&mut range, row.start_line);
    range.append("-");
    text::push_signed(&mut range, row.end_line);
    say(lines, range);
    let mut kind = "Type: ".to_owned();
    kind.append(sanitize_for_terminal(row.chunk_type.as_str()).as_str());
    say(lines, kind);
    say(lines, "".to_owned());
    let texts = text::split_lines(row.text.as_str());
    let n: usize = texts.len();
    say_marked(lines, &texts, n, "> ");
    assert(text::views(texts@).take(n as int) =~= text::views(texts@));
    say(lines, "".to_owned());
    assert(report::line_views(lines@) =~= start + chunk_lines(file_id@, row@, full_paths));
}

/// How several chunks are shown.
pub open spec fn rows_lines(file_id: Seq<char>, rows: Seq<ChunkRowView>, full_paths: bool) -> Seq<
    LineView,
>
    decreases rows.len(),
{
    if rows.len() == 0 {
        Seq::empty()
    } else {
        rows_lines(file_id, rows.drop_last(), full_paths) + chunk_lines(
            file_id,
            rows.last(),
            full_paths,
        )
    }
}

/// How the answer to a request is shown.
pub open spec fn answer_lines(
    file_id: Seq<char>,
    selector: ChunkSelector,
    rows: Seq<ChunkRowView>,
    full_paths: bool,
) -> Seq<LineView> {
    if rows.len() == 0 {
        seq![LineView::Out(file_id + shown_selector(selector) + " ERROR: CHUNK NOT FOUND"@)]
    } else {
        rows_lines(file_id, rows, full_paths)
    }
}

/// Shows the answer to a request, see [`answer_lines`].
pub fn show_answer(
    file_id: &str,
    selector: ChunkSelector,
    chunks: &Vec<ChunkRow>,
    full_paths: bool,
) -> (r: Vec<Line>)
    ensures
        report::line_views(r@) == answer_lines(
            file_id@,
            selector,
            rows::row_views(chunks@),
            full_paths,
        ),
{
    let mut lines = no_lines();
    let ghost all = rows::row_views(chunks@);
    let n: usize = chunks.len();
    assert(all.len() == n);
    if n == 0 {
        say(
            &mut lines,
            text::around(
                file_id,
                show_selector(selector).as_str(),
                " ERROR: CHUNK NOT FOUND",
            ),
        );
        assert(report::line_views(lines@) =~= answer_lines(file_id@, selector, all, full_paths));
        return lines;
    }
    for i in 0..n
        invariant
            n == chunks@.len(),
            all == rows::row_views(chunks@),
            report::line_views(lines@) == rows_lines(file_id@, all.take(i as int), full_paths),
    {
        assert(all.take(i + 1).drop_last() =~= all.take(i as int));
        assert(all[i as int] == chunks@[i as int]@);
        say_chunk(&mut lines, file_id, &chunks[i], full_paths);
    }
    assert(all.take(n as int) =~= all);
    lines
}

/// The catalogs of chunks.
pub open spec fn catalogs_of(rows: Seq<ChunkRowView>) -> Set<Seq<char>> {
    rows.map_values(|r: ChunkRowView| r.catalog).to_set()
}

/// Adds the catalogs of chunks to others.
pub fn note_catalogs(names: &mut NameSet, chunks: &Vec<ChunkRow>)
    ensures
        final(names)@ == old(names)@.union(catalogs_of(rows::row_views(chunks@))),
{
    let ghost start = names@;
    let ghost all = rows::row_views(chunks@);
    let n: usize = chunks.len();
    assert(start.union(catalogs_of(all.take(0))) =~= start);
    for i in 0..n
        invariant
            n == chunks@.len(),
            all == rows::row_views(chunks@),
            names@ == start.union(catalogs_of(all.take(i as int))),
    {
        names.insert(chunks[i].catalog.as_str());
        proof {
            let f = |r: ChunkRowView| r.catalog;
            let (then, now) = (all.take(i as int).map_values(f), all.take(i + 1).map_values(f));
            let c = all[i as int].catalog;
            assert(all[i as int] == chunks@[i as int]@);
            assert(now =~= then.push(c));
            assert forall|s: Seq<char>| then.push(c).to_set().contains(s)
                == then.to_set().insert(c).contains(s) by {
                broadcast use vstd::seq_lib::group_seq_properties;

            }
            assert(names@ =~= start.union(catalogs_of(all.take(i + 1))));
        }
    }
    assert(all.take(n as int) =~= all);
}

/// What is said of a catalog.
pub open spec fn catalog_lines(name: Seq<char>, catalog: Option<CatalogConfigView>) -> Seq<LineView> {
    match catalog {
        Some(c) => seq![
            LineView::Out("- "@ + display::sanitized(name)),
            LineView::Out("  Catalog path: "@ + display::sanitized(c.path)),
        ],
        None => seq![],
    }
}

/// What is said of catalogs in the order of their names.
pub open spec fn catalogs_lines(
    names: Seq<Seq<char>>,
    catalogs: Seq<(Seq<char>, CatalogConfigView)>,
) -> Seq<LineView>
    decreases names.len(),
{
    if names.len() == 0 {
        Seq::empty()
    } else {
        catalogs_lines(names.drop_last(), catalogs) + catalog_lines(
            names.last(),
            settings::catalog_named(catalogs, names.last(), 0),
        )
    }
}

/// What is said before the chunks.
pub open spec fn preamble_lines(
    names: Seq<Seq<char>>,
    catalogs: Seq<(Seq<char>, CatalogConfigView)>,
) -> Seq<LineView> {
    if names.len() == 0 {
        Seq::empty()
    } else {
        seq![LineView::Out("Catalogs:"@)] + catalogs_lines(names, catalogs) + seq![
            LineView::Out(""@),
        ]
    }
}

/// Says where the catalogs with the given names are, see [`preamble_lines`].
pub fn show_catalogs(names: &Vec<String>, catalogs: &Vec<(String, CatalogConfig)>) -> (r: Vec<
    Line,
>)
    ensures
        report::line_views(r@) == preamble_lines(
            text::views(names@),
            settings::catalog_views(catalogs@),
        ),
{
    let mut lines = no_lines();
    let ghost all = text::views(names@);
    let ghost known = settings::catalog_views(catalogs@);
    let n: usize = names.len();
    assert(all.len() == n);
    if n == 0 {
        return lines;
    }
    say(&mut lines, "Catalogs:".to_owned());
    let ghost head = seq![LineView::Out("Catalogs:"@)];
    assert(report::line_views(lines@) =~= head + catalogs_lines(all.take(0), known));
    for i in 0..n
        invariant
            n == names@.len(),
            all == text::views(names@),
            known == settings::catalog_views(catalogs@),
            report::line_views(lines@) == head + catalogs_lines(all.take(i as int), known),
    {
        let ghost before = report::line_views(lines@);
        let name = names[i].as_str();
        proof {
            assert(all.take(i + 1).drop_last() =~= all.take(i as int));
            assert(all[i as int] == name@);
        }
        if let Some(k) = settings::find_catalog(catalogs, name) {
            let mut first = "- ".to_owned();
            first.append(sanitize_for_terminal(name).as_str());
            say(&mut lines, first);
            let mut second = "  Catalog path: ".to_owned();
            second.append(sanitize_for_terminal(catalogs[k].1.path.as_str()).as_str());
            say(&mut lines, second);
            assert(report::line_views(lines@) =~= before + catalog_lines(
                name@,
                Some(catalogs@[k as int].1@),
            ));
        } else {
            assert(report::line_views(lines@) =~= before + catalog_lines(name@, None));
        }
        assert(report::line_views(lines@) =~= head + catalogs_lines(all.take(i + 1), known));
    }
    assert(all.take(n as int) =~= all);
    say(&mut lines, "".to_owned());
    assert(report::line_views(lines@) =~= preamble_lines(all, known));
    lines
}

/// Whether a selector can be asked for: its numbers count from one and are in order.
pub open spec fn is_proper(selector: ChunkSelector) -> bool {
    match selector {
        ChunkSelector::All => true,
        ChunkSelector::Single(n) => n >= 1,
        ChunkSelector::Range(start, end) => 1 <= start <= end,
        ChunkSelector::ToEnd(start) => start >= 1,
    }
}

/// A request that is written with a file's identifier and a selector is read back.
pub proof fn requests_are_read_back(file_id: Seq<char>, selector: ChunkSelector)
    requires
        ids::is_file_id(file_id),
        is_proper(selector),
    ensures
        request_of(file_id + shown_selector(selector)) == Ok::<_, Seq<char>>((file_id, selector)),
{
    let t = file_id + shown_selector(selector);
    reveal_strlit("");
    reveal_strlit(":");
    reveal_strlit("-");
    reveal_strlit("end");
    reveal_strlit("-end");
    lemma_id_bytes(file_id);
    match selector {
        ChunkSelector::All => {
            assert(t =~= file_id);
        },
        ChunkSelector::Single(n) => {
            numbers::lemma_decimal(n as nat);
            lemma_plain_selector(n as nat);
        },
        ChunkSelector::Range(start, end) => {
            numbers::lemma_decimal(start as nat);
            numbers::lemma_decimal(end as nat);
            lemma_range_selector(start as nat, end as nat);
        },
        ChunkSelector::ToEnd(start) => {
            numbers::lemma_decimal(start as nat);
            let d = text::decimal(start as nat);
            let s = d + "-end"@;
            assert(s.subrange(s.len() - 4, s.len() as int) =~= "-end"@);
            assert(s.take(s.len() - 4) =~= d);
            assert(s != "end"@) by {
                assert(s.len() > "end"@.len());
            }
            numbers::reading_undoes_writing(start as nat, usize::MAX as nat);
        },
    }
    lemma_trimmed(t);
    if selector == ChunkSelector::All {
        text::lemma_first_index(t, ':');
        if text::first_index(t, ':') < t.len() {
            assert(ids::hex_digit_char(t[text::first_index(t, ':')]));
        }
    } else {
        assert forall|k: int| 0 <= k < 16 implies t[k] != ':' by {
            assert(ids::hex_digit_char(file_id[k]));
        }
        text::lemma_first_index_is(t, ':', 16);
        assert(t.take(16) =~= file_id);
        let rest = text::after(t, 17);
        match selector {
            ChunkSelector::Single(n) => assert(rest =~= text::decimal(n as nat)),
            ChunkSelector::Range(start, end) => assert(rest =~= text::decimal(start as nat) + "-"@
                + text::decimal(end as nat)),
            ChunkSelector::ToEnd(start) => assert(rest =~= text::decimal(start as nat) + "-end"@),
            ChunkSelector::All => {},
        }
    }
}

proof fn lemma_id_bytes(id: Seq<char>)
    requires
        ids::is_file_id(id),
    ensures
        is_id(id),
{
    assert forall|k: int| 0 <= k < id.len() implies (id[k] as u32) < 128 by {
        assert(ids::hex_digit_char(id[k]));
    }
    vstd::utf8::is_ascii_chars_encode_utf8(id);
}

proof fn lemma_trimmed(t: Seq<char>)
    requires
        t.len() > 0,
        !text::whitespace(t[0]),
        !text::whitespace(t.last()),
    ensures
        text::trimmed(t) == t,
{
}

proof fn lemma_plain_selector(n: nat)
    requires
        1 <= n <= usize::MAX,
    ensures
        selector_of(text::decimal(n)) == Ok::<_, Seq<char>>(ChunkSelector::Single(n as usize)),
{
    let d = text::decimal(n);
    reveal_strlit("end");
    reveal_strlit("-end");
    numbers::lemma_decimal(n);
    numbers::reading_undoes_writing(n, usize::MAX as nat);
    assert('0' <= d[d.len() - 1] <= '9');
    assert("end"@[2] == 'd');
    if "-end"@.is_suffix_of(d) {
        assert(d.subrange(d.len() - 4, d.len() as int)[3] == 'd');
    }
    if d.contains('-') {
        let k = choose|k: int| 0 <= k < d.len() && d[k] == '-';
        assert('0' <= d[k] <= '9');
    }
}

proof fn lemma_range_selector(a: nat, b: nat)
    requires
        1 <= a <= b <= usize::MAX,
    ensures
        selector_of(text::decimal(a) + "-"@ + text::decimal(b)) == Ok::<_, Seq<char>>(
            ChunkSelector::Range(a as usize, b as usize),
        ),
{
    let (x, y) = (text::decimal(a), text::decimal(b));
    let s = x + "-"@ + y;
    reveal_strlit("-");
    reveal_strlit("end");
    reveal_strlit("-end");
    numbers::lemma_decimal(a);
    numbers::lemma_decimal(b);
    numbers::reading_undoes_writing(a, usize::MAX as nat);
    numbers::reading_undoes_writing(b, usize::MAX as nat);
    assert(s[s.len() - 1] == y[y.len() - 1]);
    assert('0' <= y[y.len() - 1] <= '9');
    assert("end"@[2] == 'd');
    if "-end"@.is_suffix_of(s) {
        assert(s.subrange(s.len() - 4, s.len() as int)[3] == 'd');
    }
    assert(s[x.len() as int] == '-');
    let parts = seq![x, y];
    assert forall|i: int| 0 <= i < parts.len() implies !(#[trigger] parts[i]).contains('-') by {
        if parts[i].contains('-') {
            let k = choose|k: int| 0 <= k < parts[i].len() && parts[i][k] == '-';
            assert('0' <= parts[i][k] <= '9');
        }
    }
    text::split_gives_joined_parts_back(parts, '-');
    assert(parts.drop_last() =~= seq![x]);
    assert(text::join(parts.drop_last(), seq!['-']) == x);
    assert(text::join(parts, seq!['-']) =~= s);
}

/// A selector takes the chunks whose ordinals it names: all, one, those between two with both
/// ends, or those from one on.
pub proof fn selectors_take_what_they_name(row: ChunkRowView, a: usize, b: usize)
    requires
        row.chunk_ordinal >= 0,
    ensures
        takes(ChunkSelector::All, row),
        takes(ChunkSelector::Single(a), row) <==> row.chunk_ordinal == a,
        takes(ChunkSelector::Range(a, b), row) <==> a <= row.chunk_ordinal <= b,
        takes(ChunkSelector::ToEnd(a), row) <==> a <= row.chunk_ordinal,
{
}

/// A file's identifier asks for all chunks, with a number behind a colon for that chunk, with two
/// numbers for those between them, and with a number and `end` for all from there on. A range
/// that ends before it begins is refused.
pub proof fn requests_are_written_like_this(file_id: Seq<char>, a: usize, b: usize)
    requires
        ids::is_file_id(file_id),
        a >= 1,
        b >= 1,
    ensures
        request_of(file_id) == Ok::<_, Seq<char>>((file_id, ChunkSelector::All)),
        request_of(file_id + ":"@ + text::decimal(a as nat)) == Ok::<_, Seq<char>>(
            (file_id, ChunkSelector::Single(a)),
        ),
        a <= b ==> request_of(
            file_id + ":"@ + text::decimal(a as nat) + "-"@ + text::decimal(b as nat),
        ) == Ok::<_, Seq<char>>((file_id, ChunkSelector::Range(a, b))),
        request_of(file_id + ":"@ + text::decimal(a as nat) + "-end"@) == Ok::<_, Seq<char>>(
            (file_id, ChunkSelector::ToEnd(a)),
        ),
{
    reveal_strlit("");
    requests_are_read_back(file_id, ChunkSelector::All);
    assert(file_id + ""@ =~= file_id);
    requests_are_read_back(file_id, ChunkSelector::Single(a));
    assert(file_id + (":"@ + text::decimal(a as nat)) =~= file_id + ":"@ + text::decimal(a as nat));
    if a <= b {
        requests_are_read_back(file_id, ChunkSelector::Range(a, b));
        assert(file_id + (":"@ + text::decimal(a as nat) + "-"@ + text::decimal(b as nat))
            =~= file_id + ":"@ + text::decimal(a as nat) + "-"@ + text::decimal(b as nat));
    }
    requests_are_read_back(file_id, ChunkSelector::ToEnd(a));
    assert(file_id + (":"@ + text::decimal(a as nat) + "-end"@) =~= file_id + ":"@ + text::decimal(
        a as nat,
    ) + "-end"@);
}

/// A request that is understood names sixteen hexadecimal digits, and counts chunks from one and
/// upwards.
pub proof fn understood_requests_are_proper(s: Seq<char>)
    ensures
        request_of(s) matches Ok((id, selector)) ==> {
            &&& text::byte_len(id) == 16
            &&& forall|i: int|
                0 <= i < id.len() ==> {
                    ||| '0' <= #[trigger] id[i] <= '9'
                    ||| 'a' <= id[i] <= 'f'
                    ||| 'A' <= id[i] <= 'F'
                }
            &&& match selector {
                ChunkSelector::All => true,
                ChunkSelector::Single(n) => n >= 1,
                ChunkSelector::Range(start, end) => 1 <= start <= end,
                ChunkSelector::ToEnd(start) => start >= 1,
            }
        },
{
    let t = text::trimmed(s);
    let n = text::first_index(t, ':');
    text::lemma_first_index(t, ':');
    if n < t.len() {
        lemma_proper_selector(text::after(t, n + 1));
    }
}

proof fn lemma_proper_selector(selector: Seq<char>)
    ensures
        selector_of(selector) matches Ok(x) ==> is_proper(x),
{
    lemma_number_fits(selector);
    lemma_number_fits(selector.take(selector.len() - "-end"@.len()));
    let parts = text::split(selector, '-');
    lemma_number_fits(parts[0]);
    lemma_number_fits(parts[1]);
}

proof fn lemma_number_fits(s: Seq<char>)
    ensures
        ordinal(s) matches Some(n) ==> n <= usize::MAX,
{
}

/// A chunk is shown with its identifier and place in the file, catalog and path, its lines, its
/// type, and all lines of its text after a mark; the full path comes in only where it is asked
/// for.
pub proof fn shown_chunks_tell_place_and_text(
    file_id: Seq<char>,
    row: ChunkRowView,
    full_paths: bool,
    i: int,
)
    requires
        0 <= i < text::lines(row.text).len(),
    ensures
        ({
            let lines = chunk_lines(file_id, row, full_paths);
            let k: int = if full_paths {
                1
            } else {
                0
            };
            let n = text::signed(row.chunk_ordinal as int);
            &&& lines.len() == 6 + k + text::lines(row.text).len()
            &&& lines[0] == LineView::Out(
                file_id + ":"@ + n + " ("@ + n + "/"@ + text::signed(row.chunk_count as int)
                    + ") "@ + display::report_form(row),
            )
            &&& lines[1] == LineView::Out(
                "Source: ("@ + display::sanitized(row.catalog) + ") "@ + display::sanitized(
                    row.relative_path,
                ),
            )
            &&& full_paths ==> lines[2] == LineView::Out(
                "Full path: "@ + display::sanitized(row.source_uri),
            )
            &&& lines[2 + k] == LineView::Out(
                "Lines: "@ + text::signed(row.start_line as int) + "-"@ + text::signed(
                    row.end_line as int,
                ),
            )
            &&& lines[3 + k] == LineView::Out("Type: "@ + display::sanitized(row.chunk_type))
            &&& lines[5 + k + i] == LineView::Out("> "@ + text::lines(row.text)[i])
        }),
{
}

/// A request without chunks is answered by saying so; otherwise every chunk is shown, in order.
pub proof fn missing_chunks_are_reported(
    file_id: Seq<char>,
    selector: ChunkSelector,
    rows: Seq<ChunkRowView>,
    full_paths: bool,
)
    ensures
        rows.len() == 0 ==> answer_lines(file_id, selector, rows, full_paths) == seq![
            LineView::Out(file_id + shown_selector(selector) + " ERROR: CHUNK NOT FOUND"@),
        ],
        rows.len() > 0 ==> chunk_lines(file_id, rows.last(), full_paths).is_suffix_of(
            answer_lines(file_id, selector, rows, full_paths),
        ),
        rows.len() > 1 ==> answer_lines(file_id, selector, rows.drop_last(), full_paths)
            + chunk_lines(file_id, rows.last(), full_paths) == answer_lines(
            file_id,
            selector,
            rows,
            full_paths,
        ),
{
    if rows.len() > 0 {
        let all = answer_lines(file_id, selector, rows, full_paths);
        let last = chunk_lines(file_id, rows.last(), full_paths);
        assert(all.subrange(all.len() - last.len(), all.len() as int) =~= last);
    }
}

}
