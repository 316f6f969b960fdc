//! Showing how a file is divided, and how well.
use crate::display;
use crate::display::say_marked;
use crate::partitioner::types;
use crate::partitioner::types::{
    PartitionedChunk, PartitionedChunkView, SMALL_CHUNK_CHARS, TARGET_CHARS,
};
use crate::report;
use crate::report::{no_lines, say, Line, LineView};
use crate::search;
use crate::text;
use vstd::prelude::*;

verus! {

/// Size below which a chunk is marked as small.
pub const SMALL_MARK: usize = 200;

/// Lines below which a chunk is marked as tiny.
pub const TINY_LINES: usize = 20;

/// Lines of a chunk that are shown.
pub const PREVIEW_LINES: usize = 8;

/// The sizes of chunks in bytes.
pub open spec fn sizes(chunks: Seq<PartitionedChunkView>) -> Seq<nat> {
    chunks.map_values(|c: PartitionedChunkView| text::byte_len(c.text))
}

/// The sum of numbers.
pub open spec fn sum(v: Seq<nat>) -> nat
    decreases v.len(),
{
    if v.len() == 0 {
        0
    } else {
        sum(v.drop_last()) + v.last()
    }
}

/// The number of those that are below a bound.
pub open spec fn count_below(v: Seq<nat>, bound: nat) -> nat
    decreases v.len(),
{
    if v.len() == 0 {
        0
    } else if v.last() < bound {
        count_below(v.drop_last(), bound) + 1
    } else {
        count_below(v.drop_last(), bound)
    }
}

/// Whether a number is the smallest of some.
pub open spec fn is_least(m: nat, v: Seq<nat>) -> bool {
    v.contains(m) && forall|i: int| 0 <= i < v.len() ==> m <= #[trigger] v[i]
}

/// Whether a number is the largest of some.
pub open spec fn is_greatest(m: nat, v: Seq<nat>) -> bool {
    v.contains(m) && forall|i: int| 0 <= i < v.len() ==> m >= #[trigger] v[i]
}

/// The sizes of the chunks of a file, summed up.
#[derive(Debug, Clone, Copy, PartialEq, Eq, Structural)]
pub struct SizeReport {
    /// Number of chunks.
    pub total_chunks: usize,
    /// Number of chunks that are likely too small.
    pub small_chunks: usize,
    /// Size of the smallest chunk.
    pub min_chars: usize,
    /// Size of the largest chunk.
    pub max_chars: usize,
    /// Sum of all sizes.
    pub total_chars: usize,
}

impl SizeReport {
    /// Sums up the sizes of chunks. Without chunks all numbers are zero.
    pub fn from_chunks(chunks: &Vec<PartitionedChunk>) -> (r: Self)
        requires
            sum(sizes(types::chunk_views(chunks@))) <= usize::MAX,
        ensures
            r.total_chunks == chunks@.len(),
            r.total_chars == sum(sizes(types::chunk_views(chunks@))),
            r.small_chunks == count_below(
                sizes(types::chunk_views(chunks@)),
                SMALL_CHUNK_CHARS as nat,
            ),
            if chunks@.len() == 0 {
                r.min_chars == 0 && r.max_chars == 0
            } else {
                &&& is_least(r.min_chars as nat, sizes(types::chunk_views(chunks@)))
                &&& is_greatest(r.max_chars as nat, sizes(types::chunk_views(chunks@)))
            },
    {
        let ghost all = sizes(types::chunk_views(chunks@));
        let n: usize = chunks.len();
        let mut small: usize = 0;
        let mut total: usize = 0;
        let mut least: usize = 0;
        let mut greatest: usize = 0;
        for i in 0..n
            invariant
                n == chunks@.len() == all.len(),
                all == sizes(types::chunk_views(chunks@)),
                sum(all) <= usize::MAX,
                total == sum(all.take(i as int)),
                small == count_below(all.take(i as int), SMALL_CHUNK_CHARS as nat),
                small <= i,
                i == 0 ==> least == 0 && greatest == 0,
                i > 0 ==> is_least(least as nat, all.take(i as int)) && is_greatest(
                    greatest as nat,
                    all.take(i as int),
                ),
        {
            let size: usize = text::len_in_bytes(chunks[i].text.as_str());
            let ghost (then, now) = (all.take(i as int), all.take(i + 1));
            let ghost (l, g) = (least, greatest);
            proof {
                assert(types::chunk_views(chunks@)[i as int] == chunks@[i as int]@);
                assert(all[i as int] == size);
                assert(now.drop_last() =~= then);
                assert(now.last() == size);
                lemma_sum_grows(all, i + 1);
            }
            total = total + size;
            if size < SMALL_CHUNK_CHARS {
                small = small + 1;
            }
            if i == 0 || size < least {
                least = size;
            }
            if i == 0 || size > greatest {
                greatest = size;
            }
            proof {
                assert(now[i as int] == size);
                assert forall|j: int| 0 <= j < now.len() implies least <= #[trigger] now[j]
                    && greatest >= now[j] by {
                    if j < i {
                        assert(then[j] == now[j]);
                    }
                }
                if i > 0 {
                    let a = choose|a: int| 0 <= a < then.len() && then[a] == l;
                    let b = choose|b: int| 0 <= b < then.len() && then[b] == g;
                    assert(now[a] == l);
                    assert(now[b] == g);
                }
            }
        }
        assert(all.take(n as int) =~= all);
        SizeReport {
            total_chunks: n,
            small_chunks: small,
            min_chars: least,
            max_chars: greatest,
            total_chars: total,
        }
    }
}

proof fn lemma_sum_grows(v: Seq<nat>, k: int)
    requires
        0 <= k <= v.len(),
    ensures
        sum(v.take(k)) <= sum(v),
    decreases v.len() - k,
{
    if k < v.len() {
        assert(v.take(k + 1).drop_last() =~= v.take(k));
        lemma_sum_grows(v, k + 1);
    } else {
        assert(v.take(k) =~= v);
    }
}

/// The division of a text that is best by size: as many chunks of the full size as fit, and
/// one for the rest.
#[derive(Debug, Clone, Copy, PartialEq, Eq, Structural)]
pub struct IdealDivision {
    /// The full size: the target, or the file's size where that is less.
    pub full_size: usize,
    /// Number of chunks.
    pub count: usize,
    /// Size of the last chunk.
    pub last_size: usize,
}

/// The best division of chunks with the given total size, in a file of the given size.
pub fn ideal_division(total_chars: usize, file_chars: usize) -> (r: IdealDivision)
    requires
        file_chars > 0,
    ensures
        r.full_size == (if file_chars < TARGET_CHARS {
            file_chars
        } else {
            TARGET_CHARS
        }),
        total_chars == 0 ==> r.count == 0 && r.last_size == 0,
        total_chars > 0 ==> {
            &&& r.count >= 1
            &&& 0 < r.last_size <= r.full_size
            &&& (r.count - 1) * r.full_size + r.last_size == total_chars
        },
{
    let full_size: usize = if file_chars < TARGET_CHARS {
        file_chars
    } else {
        TARGET_CHARS
    };
    if total_chars == 0 {
        return IdealDivision { full_size, count: 0, last_size: 0 };
    }
    let whole: usize = total_chars / full_size;
    let rest: usize = total_chars % full_size;
    proof {
        vstd::arithmetic::div_mod::lemma_fundamental_div_mod(total_chars as int, full_size as int);
        assert(whole <= total_chars) by (nonlinear_arith)
            requires
                whole == total_chars / full_size,
                full_size > 0,
        ;
        assert(full_size * whole == whole * full_size) by (nonlinear_arith);
    }
    if rest == 0 {
        proof {
            assert(whole >= 1) by (nonlinear_arith)
                requires
                    whole * full_size == total_chars,
                    total_chars > 0,
                    whole >= 0,
            ;
            assert((whole - 1) * full_size + full_size == whole * full_size) by (nonlinear_arith);
        }
        IdealDivision { full_size, count: whole, last_size: full_size }
    } else {
        if whole == usize::MAX {
            assert(whole * full_size >= whole) by (nonlinear_arith)
                requires
                    full_size >= 1,
            ;
        }
        IdealDivision { full_size, count: whole + 1, last_size: rest }
    }
}

/// What is said before the chunks of a file.
pub open spec fn dump_head(file: Seq<char>, with_fallback: bool) -> Seq<LineView> {
    let first = seq![LineView::Out("📦 Chunks for: "@ + file)];
    let strict = if with_fallback {
        seq![]
    } else {
        seq![LineView::Out("🔍 Strict mode: AST-only (fallback disabled)"@)]
    };
    first + strict + seq![LineView::Out(""@)]
}

/// Says which file is divided, see [`dump_head`].
pub fn show_dump_head(file: &str, with_fallback: bool) -> (r: Vec<Line>)
    ensures
        report::line_views(r@) == dump_head(file@, with_fallback),
{
    let mut lines = no_lines();
    let mut first = "📦 Chunks for: ".to_owned();
    first.append(file);
    say(&mut lines, first);
    if !with_fallback {
        say(&mut lines, "🔍 Strict mode: AST-only (fallback disabled)".to_owned());
    }
    say(&mut lines, "".to_owned());
    assert(report::line_views(lines@) =~= dump_head(file@, with_fallback));
    lines
}

/// Whether the lines of a chunk can be counted.
pub open spec fn countable(c: PartitionedChunkView) -> bool {
    c.start_line <= c.end_line && c.end_line - c.start_line < usize::MAX
}

/// The lines of a file that belong to a chunk, counted from one; lines beyond the file's end
/// do not count.
pub open spec fn lines_of(lines: Seq<Seq<char>>, start: int, end: int) -> Seq<Seq<char>> {
    let from = if start > 0 {
        start - 1
    } else {
        0
    };
    let to = if end <= lines.len() {
        end
    } else {
        lines.len() as int
    };
    if from < to {
        lines.subrange(from, to)
    } else {
        Seq::empty()
    }
}

/// How a chunk is shown with all its lines.
pub open spec fn whole_chunk(
    number: nat,
    c: PartitionedChunkView,
    lines: Seq<Seq<char>>,
) -> Seq<LineView> {
    seq![
        LineView::Out(
            "-- [CHUNK "@ + text::decimal(number) + "] ["@ + text::decimal(
                (c.end_line - c.start_line + 1) as nat,
            ) + " lines] ["@ + text::decimal(text::byte_len(c.text)) + " chars] --"@,
        ),
    ] + display::marked(lines_of(lines, c.start_line, c.end_line), ""@) + seq![LineView::Out(""@)]
}

/// Shows a chunk with all its lines, see [`whole_chunk`].
pub fn show_whole_chunk(number: usize, chunk: &PartitionedChunk, source: &Vec<String>) -> (r: Vec<
    Line,
>)
    requires
        countable(chunk@),
    ensures
        report::line_views(r@) == whole_chunk(number as nat, chunk@, text::views(source@)),
{
    let mut lines = no_lines();
    let count: usize = chunk.end_line - chunk.start_line + 1;
    let mut head = text::around_number("-- [CHUNK ", number as u64, "] [");
    text::push_decimal(&mut head, count as u64);
    head.append(" lines] [");
    text::push_decimal(&mut head, text::len_in_bytes(chunk.text.as_str()) as u64);
    head.append(" chars] --");
    say(&mut lines, head);
    let ghost all = text::views(source@);
    let from: usize = if chunk.start_line > 0 {
        chunk.start_line - 1
    } else {
        0
    };
    let to: usize = if chunk.end_line <= source.len() {
        chunk.end_line
    } else {
        source.len()
    };
    assert(all.len() == source@.len());
    let shown = if from < to {
        text::copy_strings(source, from, to)
    } else {
        Vec::new()
    };
    let n: usize = shown.len();
    assert(text::views(shown@) =~= lines_of(
        all,
        chunk.start_line as int,
        chunk.end_line as int,
    ));
    say_marked(&mut lines, &shown, n, "");
    assert(text::views(shown@).take(n as int) =~= text::views(shown@));
    say(&mut lines, "".to_owned());
    assert(report::line_views(lines@) =~= whole_chunk(number as nat, chunk@, all));
    lines
}

/// What is said after the chunks that were shown as a whole. `score` and `mean` are the
/// quality and the mean size, in words.
pub open spec fn quality_lines(r: SizeReport, score: Seq<char>, mean: Seq<char>) -> Seq<LineView> {
    seq![
        LineView::Out("=== QUALITY SCORE ==="@),
        LineView::Out("Score: "@ + score + "%"@),
        LineView::Out("Total chunks: "@ + text::decimal(r.total_chunks as nat)),
        LineView::Out(
            "Small chunks (<"@ + text::decimal(SMALL_CHUNK_CHARS as nat) + " chars): "@
                + text::decimal(r.small_chunks as nat),
        ),
        LineView::Out(
            "Chars: "@ + text::decimal(r.min_chars as nat) + "-"@ + text::decimal(
                r.max_chars as nat,
            ) + " (mean "@ + mean + ")"@,
        ),
    ]
}

fn bounded(before: &str, bound: usize, between: &str, n: usize) -> (r: String)
    ensures
        r@ == before@ + text::decimal(bound as nat) + between@ + text::decimal(n as nat),
{
    let mut out = text::around_number(before, bound as u64, between);
    text::push_decimal(&mut out, n as u64);
    out
}

/// Says how good the division is, see [`quality_lines`].
pub fn show_quality(report: &SizeReport, score: &str, mean: &str) -> (r: Vec<Line>)
    ensures
        report::line_views(r@) == quality_lines(*report, score@, mean@),
{
    let mut lines = no_lines();
    say(&mut lines, "=== QUALITY SCORE ===".to_owned());
    say(&mut lines, text::around("Score: ", score, "%"));
    say(&mut lines, text::before_number("Total chunks: ", report.total_chunks));
    say(
        &mut lines,
        bounded("Small chunks (<", SMALL_CHUNK_CHARS, " chars): ", report.small_chunks),
    );
    let mut chars = bounded("Chars: ", report.min_chars, "-", report.max_chars);
    chars.append(" (mean ");
    chars.append(mean);
    chars.append(")");
    say(&mut lines, chars);
    assert(report::line_views(lines@) =~= quality_lines(*report, score@, mean@));
    lines
}

/// A report in one line.
pub open spec fn report_line(r: SizeReport, score: Seq<char>, mean: Seq<char>) -> Seq<char> {
    "Score: "@ + score + "% | Chunks: "@ + text::decimal(r.total_chunks as nat) + " | Small (<"@
        + text::decimal(SMALL_CHUNK_CHARS as nat) + " chars): "@ + text::decimal(
        r.small_chunks as nat,
    ) + " | Chars: "@ + text::decimal(r.min_chars as nat) + "-"@ + text::decimal(
        r.max_chars as nat,
    ) + " (mean "@ + mean + ")"@
}

impl SizeReport {
    /// The report in one line, see [`report_line`].
    pub fn format(&self, score: &str, mean: &str) -> (r: String)
        ensures
            r@ == report_line(*self, score@, mean@),
    {
        let mut out = text::around("Score: ", score, "% | Chunks: ");
        text::push_decimal(&mut out, self.total_chunks as u64);
        out.append(" | Small (<");
        text::push_decimal(&mut out, SMALL_CHUNK_CHARS as u64);
        out.append(" chars): ");
        text::push_decimal(&mut out, self.small_chunks as u64);
        out.append(" | Chars: ");
        text::push_decimal(&mut out, self.min_chars as u64);
        out.append("-");
        text::push_decimal(&mut out, self.max_chars as u64);
        out.append(" (mean ");
        out.append(mean);
        out.append(")");
        out
    }
}

/// Size of a chunk with its locator.
pub open spec fn full_size(c: PartitionedChunkView) -> nat {
    text::byte_len(c.breadcrumb) + text::byte_len(c.text)
}

/// The mark for a chunk that is too large or small.
pub open spec fn size_mark(c: PartitionedChunkView, target: nat) -> Seq<LineView> {
    let size = text::byte_len(c.text);
    if size > target {
        seq![
            LineView::Out(
                "⚠️  OVERSIZED (target: "@ + text::decimal(target) + ", actual: "@ + text::decimal(
                    size,
                ) + ")"@,
            ),
        ]
    } else if size < SMALL_MARK {
        seq![LineView::Out("⚡ Small chunk"@)]
    } else {
        seq![]
    }
}

/// The first lines of a chunk.
pub open spec fn preview(lines: Seq<Seq<char>>) -> Seq<LineView> {
    let shown = display::marked(search::first_lines(lines, PREVIEW_LINES as int), "  "@);
    if lines.len() > PREVIEW_LINES {
        shown.push(
            LineView::Out(
                "  ... ("@ + text::decimal((lines.len() - PREVIEW_LINES) as nat) + " more lines)"@,
            ),
        )
    } else {
        shown
    }
}

/// What is said of a chunk before its size.
pub open spec fn chunk_head(number: nat, c: PartitionedChunkView) -> Seq<LineView> {
    let symbol = match c.symbol_name {
        Some(s) => seq![LineView::Out("Symbol: "@ + s)],
        None => seq![],
    };
    seq![
        LineView::Out("━━━━━ Chunk "@ + text::decimal(number) + " ━━━━━"@),
        LineView::Out("Breadcrumb: "@ + c.breadcrumb),
        LineView::Out("Type: "@ + c.chunk_type),
    ] + symbol
}

/// What is said of the size of a chunk.
pub open spec fn chunk_size(c: PartitionedChunkView) -> Seq<LineView> {
    seq![
        LineView::Out(
            "Lines: "@ + text::decimal(c.start_line as nat) + "-"@ + text::decimal(
                c.end_line as nat,
            ),
        ),
        LineView::Out(
            "Size: "@ + text::decimal(full_size(c)) + " chars (text: "@ + text::decimal(
                text::byte_len(c.text),
            ) + ", breadcrumb: "@ + text::decimal(text::byte_len(c.breadcrumb)) + ")"@,
        ),
    ]
}

/// How a chunk is shown in short.
pub open spec fn short_chunk(number: nat, c: PartitionedChunkView, target: nat) -> Seq<LineView> {
    chunk_head(number, c) + chunk_size(c) + size_mark(c, target) + seq![
        LineView::Out(""@),
        LineView::Out("Preview (first 8 lines):"@),
    ] + preview(text::lines(c.text)) + seq![LineView::Out(""@)]
}

fn say_head(lines: &mut Vec<Line>, number: usize, chunk: &PartitionedChunk)
    ensures
        report::line_views(final(lines)@) == report::line_views(old(lines)@) + chunk_head(
            number as nat,
            chunk@,
        ),
{
    let ghost start = report::line_views(lines@);
    say(lines, text::around_number("━━━━━ Chunk ", number as u64, " ━━━━━"));
    let mut crumb = "Breadcrumb: ".to_owned();
    crumb.append(chunk.breadcrumb.as_str());
    say(lines, crumb);
    let mut kind = "Type: ".to_owned();
    kind.append(chunk.chunk_type.as_str());
    say(lines, kind);
    if let Some(name) = &chunk.symbol_name {
        let mut symbol = "Symbol: ".to_owned();
        symbol.append(name.as_str());
        say(lines, symbol);
    }
    assert(report::line_views(lines@) =~= start + chunk_head(number as nat, chunk@));
}

fn say_size(lines: &mut Vec<Line>, chunk: &PartitionedChunk, target: usize)
    requires
        full_size(chunk@) <= usize::MAX,
    ensures
        report::line_views(final(lines)@) == report::line_views(old(lines)@) + chunk_size(chunk@)
            + size_mark(chunk@, target as nat),
{
    let ghost start = report::line_views(lines@);
    let text_size: usize = text::len_in_bytes(chunk.text.as_str());
    let crumb_size: usize = text::len_in_bytes(chunk.breadcrumb.as_str());
    say(lines, bounded("Lines: ", chunk.start_line, "-", chunk.end_line));
    let mut size = bounded("Size: ", crumb_size + text_size, " chars (text: ", text_size);
    size.append(", breadcrumb: ");
    text::push_decimal(&mut size, crumb_size as u64);
    size.append(")");
    say(lines, size);
    assert(report::line_views(lines@) =~= start + chunk_size(chunk@));
    if text_size > target {
        let mut mark = bounded("⚠️  OVERSIZED (target: ", target, ", actual: ", text_size);
        mark.append(")");
        say(lines, mark);
    } else if text_size < SMALL_MARK {
        say(lines, "⚡ Small chunk".to_owned());
    }
    assert(report::line_views(lines@) =~= start + chunk_size(chunk@) + size_mark(
        chunk@,
        target as nat,
    ));
}

fn say_preview(lines: &mut Vec<Line>, content: &str)
    ensures
        report::line_views(final(lines)@) == report::line_views(old(lines)@) + preview(
            text::lines(content@),
        ),
{
    let ghost start = report::line_views(lines@);
    let texts = text::split_lines(content);
    let ghost all = text::views(texts@);
    assert(all.len() == texts@.len());
    let n: usize = if texts.len() > PREVIEW_LINES {
        PREVIEW_LINES
    } else {
        texts.len()
    };
    assert(all.take(n as int) =~= search::first_lines(all, PREVIEW_LINES as int));
    say_marked(lines, &texts, n, "  ");
    if texts.len() > PREVIEW_LINES {
        say(
            lines,
            text::around_number("  ... (", (texts.len() - PREVIEW_LINES) as u64, " more lines)"),
        );
    }
    assert(report::line_views(lines@) =~= start + preview(all));
}

/// Shows a chunk in short, see [`short_chunk`].
pub fn show_short_chunk(number: usize, chunk: &PartitionedChunk, target: usize) -> (r: Vec<Line>)
    requires
        full_size(chunk@) <= usize::MAX,
    ensures
        report::line_views(r@) == short_chunk(number as nat, chunk@, target as nat),
{
    let mut lines = no_lines();
    say_head(&mut lines, number, chunk);
    say_size(&mut lines, chunk, target);
    say(&mut lines, "".to_owned());
    say(&mut lines, "Preview (first 8 lines):".to_owned());
    let ghost start = report::line_views(lines@);
    assert(start =~= chunk_head(number as nat, chunk@) + chunk_size(chunk@) + size_mark(
        chunk@,
        target as nat,
    ) + seq![LineView::Out(""@), LineView::Out("Preview (first 8 lines):"@)]);
    say_preview(&mut lines, chunk.text.as_str());
    say(&mut lines, "".to_owned());
    assert(report::line_views(lines@) =~= short_chunk(number as nat, chunk@, target as nat));
    lines
}

/// The sizes of chunks with their locators.
pub open spec fn full_sizes(chunks: Seq<PartitionedChunkView>) -> Seq<nat> {
    chunks.map_values(|c: PartitionedChunkView| full_size(c))
}

/// The number of chunks that are larger than the target.
pub open spec fn count_above(v: Seq<nat>, bound: nat) -> nat
    decreases v.len(),
{
    if v.len() == 0 {
        0
    } else if v.last() > bound {
        count_above(v.drop_last(), bound) + 1
    } else {
        count_above(v.drop_last(), bound)
    }
}

/// The number of chunks that are marked as small: those below the mark that are not larger
/// than the target.
pub open spec fn count_small(v: Seq<nat>, target: nat) -> nat
    decreases v.len(),
{
    if v.len() == 0 {
        0
    } else if v.last() <= target && v.last() < SMALL_MARK {
        count_small(v.drop_last(), target) + 1
    } else {
        count_small(v.drop_last(), target)
    }
}

/// What the chunks of a file come to.
#[derive(Debug, Clone, Copy, PartialEq, Eq, Structural)]
pub struct DumpTally {
    /// Size of all chunks with their locators.
    pub total_chars: usize,
    /// Chunks that are larger than the target.
    pub oversized: usize,
    /// Chunks that are marked as small.
    pub undersized: usize,
}

/// Sums up the chunks of a file.
pub fn tally_chunks(chunks: &Vec<PartitionedChunk>, target: usize) -> (r: DumpTally)
    requires
        sum(full_sizes(types::chunk_views(chunks@))) <= usize::MAX,
    ensures
        r.total_chars == sum(full_sizes(types::chunk_views(chunks@))),
        r.oversized == count_above(sizes(types::chunk_views(chunks@)), target as nat),
        r.undersized == count_small(sizes(types::chunk_views(chunks@)), target as nat),
{
    let ghost full = full_sizes(types::chunk_views(chunks@));
    let ghost plain = sizes(types::chunk_views(chunks@));
    let n: usize = chunks.len();
    let mut total: usize = 0;
    let mut oversized: usize = 0;
    let mut undersized: usize = 0;
    for i in 0..n
        invariant
            n == chunks@.len() == full.len() == plain.len(),
            full == full_sizes(types::chunk_views(chunks@)),
            plain == sizes(types::chunk_views(chunks@)),
            sum(full) <= usize::MAX,
            total == sum(full.take(i as int)),
            oversized == count_above(plain.take(i as int), target as nat),
            undersized == count_small(plain.take(i as int), target as nat),
            oversized <= i,
            undersized <= i,
    {
        proof {
            assert(types::chunk_views(chunks@)[i as int] == chunks@[i as int]@);
            assert(full.take(i + 1).drop_last() =~= full.take(i as int));
            assert(plain.take(i + 1).drop_last() =~= plain.take(i as int));
            lemma_sum_grows(full, i + 1);
            assert(full[i as int] == full_size(chunks@[i as int]@));
        }
        let text_size: usize = text::len_in_bytes(chunks[i].text.as_str());
        let crumb_size: usize = text::len_in_bytes(chunks[i].breadcrumb.as_str());
        total = total + (crumb_size + text_size);
        if text_size > target {
            oversized = oversized + 1;
        } else if text_size < SMALL_MARK {
            undersized = undersized + 1;
        }
    }
    assert(full.take(n as int) =~= full);
    assert(plain.take(n as int) =~= plain);
    DumpTally { total_chars: total, oversized, undersized }
}

/// What is said after chunks that were shown in short. `average` and `score` are the mean
/// size and the quality, in words.
pub open spec fn dump_summary(
    r: SizeReport,
    tally: DumpTally,
    target: usize,
    average: Seq<char>,
    score: Seq<char>,
) -> Seq<LineView> {
    seq![
        LineView::Out("━━━━━ Summary ━━━━━"@),
        LineView::Out("Total chunks: "@ + text::decimal(r.total_chunks as nat)),
        LineView::Out("Total chars: "@ + text::decimal(tally.total_chars as nat)),
        LineView::Out("Average size: "@ + average + " chars"@),
        LineView::Out(
            "Oversized chunks (>"@ + text::decimal(target as nat) + "): "@ + text::decimal(
                tally.oversized as nat,
            ),
        ),
        LineView::Out("Small chunks (<200): "@ + text::decimal(tally.undersized as nat)),
        LineView::Out("Quality score: "@ + score + "%"@),
        LineView::Out(
            "  Small chunks (<"@ + text::decimal(SMALL_CHUNK_CHARS as nat) + " chars): "@
                + text::decimal(r.small_chunks as nat),
        ),
    ]
}

/// Says what the chunks come to, see [`dump_summary`].
pub fn show_dump_summary(
    report: &SizeReport,
    tally: &DumpTally,
    target: usize,
    average: &str,
    score: &str,
) -> (r: Vec<Line>)
    ensures
        report::line_views(r@) == dump_summary(*report, *tally, target, average@, score@),
{
    let mut lines = no_lines();
    say(&mut lines, "━━━━━ Summary ━━━━━".to_owned());
    say(&mut lines, text::before_number("Total chunks: ", report.total_chunks));
    say(&mut lines, text::before_number("Total chars: ", tally.total_chars));
    say(&mut lines, text::around("Average size: ", average, " chars"));
    say(&mut lines, bounded("Oversized chunks (>", target, "): ", tally.oversized));
    say(&mut lines, text::before_number("Small chunks (<200): ", tally.undersized));
    say(&mut lines, text::around("Quality score: ", score, "%"));
    say(
        &mut lines,
        bounded("  Small chunks (<", SMALL_CHUNK_CHARS, " chars): ", report.small_chunks),
    );
    assert(report::line_views(lines@) =~= dump_summary(*report, *tally, target, average@, score@));
    lines
}

/// How a chunk of a file with a bad score is shown.
pub open spec fn audit_line(number: nat, c: PartitionedChunkView) -> Seq<char> {
    let lines = c.end_line - c.start_line + 1;
    "  Chunk "@ + text::decimal(number) + ": "@ + text::decimal(lines as nat) + " lines ("@
        + text::decimal(c.start_line as nat) + "-"@ + text::decimal(c.end_line as nat) + ") "@ + (
    if lines < TINY_LINES {
        " [TINY]"@
    } else {
        ""@
    }) + " - "@ + c.breadcrumb
}

/// How a chunk of a file with a bad score is shown, see [`audit_line`].
pub fn show_audit_line(number: usize, chunk: &PartitionedChunk) -> (r: String)
    requires
        countable(chunk@),
    ensures
        r@ == audit_line(number as nat, chunk@),
{
    let count: usize = chunk.end_line - chunk.start_line + 1;
    let mut out = bounded("  Chunk ", number, ": ", count);
    out.append(" lines (");
    text::push_decimal(&mut out, chunk.start_line as u64);
    out.append("-");
    text::push_decimal(&mut out, chunk.end_line as u64);
    out.append(") ");
    out.append(
        if count < TINY_LINES {
            " [TINY]"
        } else {
            ""
        },
    );
    out.append(" - ");
    out.append(chunk.breadcrumb.as_str());
    out
}

/// Whether a file is audited: it ends in `.ts` and is no installed package.
pub open spec fn is_audited(path: Seq<char>, name: Seq<char>) -> bool {
    extension(name) == Some("ts"@) && !text::has_part(path, "node_modules"@)
}

/// Position of the last of a character in a text, or -1.
pub open spec fn last_index(s: Seq<char>, c: char) -> int
    decreases s.len(),
{
    if s.len() == 0 {
        -1
    } else if s.last() == c {
        s.len() - 1
    } else {
        last_index(s.drop_last(), c)
    }
}

/// The extension of a file's name: what follows the last dot, unless that is the first
/// character or the name is two dots.
pub open spec fn extension(name: Seq<char>) -> Option<Seq<char>> {
    let n = last_index(name, '.');
    if n <= 0 || name == seq!['.', '.'] {
        None
    } else {
        Some(text::after(name, n + 1))
    }
}

/// Whether a file is audited, given its path and its name, see [`is_audited`].
pub fn should_audit(path: &str, name: &str) -> (r: bool)
    ensures
        r == is_audited(path@, name@),
{
    let cs = text::chars(name);
    let mut n: usize = cs.len();
    assert(name@.take(n as int) =~= name@);
    while n > 0 && cs[n - 1] != '.'
        invariant
            n <= cs@.len(),
            cs@ == name@,
            last_index(name@, '.') == last_index(name@.take(n as int), '.'),
        decreases n,
    {
        assert(name@.take(n as int).drop_last() =~= name@.take(n - 1));
        n = n - 1;
    }
    if n <= 1 {
        return false;
    }
    let ending = text::part_of(&cs, n, cs.len());
    assert(ending@ =~= text::after(name@, n as int));
    proof {
        reveal_strlit("ts");
    }
    if !text::same(ending.as_str(), "ts") {
        return false;
    }
    assert(name@ != seq!['.', '.']) by {
        if name@ == seq!['.', '.'] {
            assert(ending@.len() == 0);
        }
    }
    !text::contains(path, "node_modules")
}

/// Sizes are counted and summed up one by one, in any division of the list.
pub proof fn counts_add_up(a: Seq<nat>, b: Seq<nat>, bound: nat, x: nat)
    ensures
        sum(a + b) == sum(a) + sum(b),
        sum(seq![x]) == x,
        count_below(a + b, bound) == count_below(a, bound) + count_below(b, bound),
        count_below(seq![x], bound) == if x < bound {
            1nat
        } else {
            0
        },
        count_above(a + b, bound) == count_above(a, bound) + count_above(b, bound),
        count_above(seq![x], bound) == if x > bound {
            1nat
        } else {
            0
        },
        count_small(a + b, bound) == count_small(a, bound) + count_small(b, bound),
        count_small(seq![x], bound) == if x <= bound && x < 200 {
            1nat
        } else {
            0
        },
    decreases b.len(),
{
    reveal_with_fuel(sum, 2);
    reveal_with_fuel(count_below, 2);
    reveal_with_fuel(count_above, 2);
    reveal_with_fuel(count_small, 2);
    assert(seq![x].drop_last() =~= Seq::empty());
    if b.len() > 0 {
        counts_add_up(a, b.drop_last(), bound, x);
        assert((a + b).drop_last() =~= a + b.drop_last());
        assert((a + b).last() == b.last());
    } else {
        assert(a + b =~= a);
    }
}

/// A chunk is marked as too large if its text has more bytes than the target, and as small if it
/// has fewer than two hundred.
pub proof fn chunks_are_marked_by_size(c: PartitionedChunkView, target: nat)
    ensures
        text::byte_len(c.text) > target ==> size_mark(c, target) == seq![
            LineView::Out(
                "⚠️  OVERSIZED (target: "@ + text::decimal(target) + ", actual: "@ + text::decimal(
                    text::byte_len(c.text),
                ) + ")"@,
            ),
        ],
        text::byte_len(c.text) <= target && text::byte_len(c.text) < 200 ==> size_mark(c, target)
            == seq![LineView::Out("⚡ Small chunk"@)],
        200 <= text::byte_len(c.text) <= target ==> size_mark(c, target).len() == 0,
{
}

/// The first eight lines are shown, and how many more there are.
pub proof fn previews_show_eight_lines(lines: Seq<Seq<char>>, i: int)
    ensures
        lines.len() <= 8 ==> preview(lines).len() == lines.len(),
        lines.len() > 8 ==> preview(lines).len() == 9 && preview(lines)[8] == LineView::Out(
            "  ... ("@ + text::decimal((lines.len() - 8) as nat) + " more lines)"@,
        ),
        0 <= i < 8 && i < lines.len() ==> preview(lines)[i] == LineView::Out("  "@ + lines[i]),
{
}

/// The lines of a chunk are those of the file from its first to its last.
pub proof fn chunks_show_their_lines(lines: Seq<Seq<char>>, start: int, end: int)
    requires
        1 <= start <= end <= lines.len(),
    ensures
        lines_of(lines, start, end) == lines.subrange(start - 1, end),
{
}

/// A chunk of fewer than twenty lines counts as tiny.
pub proof fn tiny_chunks_are_marked(number: nat, c: PartitionedChunkView)
    ensures
        audit_line(number, c) == "  Chunk "@ + text::decimal(number) + ": "@ + text::decimal(
            (c.end_line - c.start_line + 1) as nat,
        ) + " lines ("@ + text::decimal(c.start_line as nat) + "-"@ + text::decimal(
            c.end_line as nat,
        ) + ") "@ + (if c.end_line - c.start_line + 1 < 20 {
            " [TINY]"@
        } else {
            ""@
        }) + " - "@ + c.breadcrumb,
{
}

/// Chunks of fewer than five hundred bytes count as small in a report.
pub proof fn small_chunks_have_a_bound()
    ensures
        SMALL_CHUNK_CHARS == 500,
{
}

}
