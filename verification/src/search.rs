//! Showing what a search finds.
use crate::display;
use crate::display::{make_report_form, say_marked};
use crate::report;
use crate::report::{no_lines, say, Line, LineView};
use crate::storage::rows::{ChunkRow, ChunkRowView};
use crate::text;
use vstd::prelude::*;

verus! {

/// Lines of a chunk's text that are shown.
pub const PREVIEW_LINES: usize = 3;

/// The first lines of a text, at most the given number.
pub open spec fn first_lines(lines: Seq<Seq<char>>, count: int) -> Seq<Seq<char>> {
    if lines.len() > count {
        lines.take(count)
    } else {
        lines
    }
}

/// How a chunk that was found is shown. `distance` is how far it is from what was searched,
/// in words.
pub open spec fn result_lines(row: ChunkRowView, distance: Seq<char>) -> Seq<LineView> {
    seq![
        LineView::Out(
            row.file_id + ":"@ + text::signed(row.chunk_ordinal as int) + "  dist="@ + distance
                + "  "@ + display::report_form(row),
        ),
    ] + display::marked(first_lines(text::lines(row.text), PREVIEW_LINES as int), "> "@) + seq![
        LineView::Out(""@),
    ]
}

/// Shows a chunk that was found, see [`result_lines`].
pub fn show_result(row: &ChunkRow, distance: &str) -> (r: Vec<Line>)
    ensures
        report::line_views(r@) == result_lines(row@, distance@),
{
    let mut lines = no_lines();
    let mut head = row.file_id.clone();
    head.append(":");
    text::push_signed(&mut head, row.chunk_ordinal);
    head.append("  dist=");
    head.append(distance);
    head.append("  ");
    head.append(make_report_form(row).as_str());
    say(&mut lines, head);
    let texts = text::split_lines(row.text.as_str());
    let ghost all = text::views(texts@);
    assert(all.len() == texts@.len());
    let n: usize = if texts.len() > PREVIEW_LINES {
        PREVIEW_LINES
    } else {
        texts.len()
    };
    assert(all.take(n as int) =~= first_lines(all, PREVIEW_LINES as int));
    say_marked(&mut lines, &texts, n, "> ");
    say(&mut lines, "".to_owned());
    assert(report::line_views(lines@) =~= result_lines(row@, distance@));
    lines
}

/// What is said before what was found or asked for.
pub fn show_context(catalog: &str, label: &str) -> (r: Vec<Line>)
    ensures
        report::line_views(r@) == seq![
            LineView::Out("Catalog: "@ + catalog@),
            LineView::Out("Label: "@ + label@),
            LineView::Out(""@),
        ],
{
    let mut lines = no_lines();
    let mut first = "Catalog: ".to_owned();
    first.append(catalog);
    say(&mut lines, first);
    let mut second = "Label: ".to_owned();
    second.append(label);
    say(&mut lines, second);
    say(&mut lines, "".to_owned());
    assert(report::line_views(lines@) =~= seq![
        LineView::Out("Catalog: "@ + catalog@),
        LineView::Out("Label: "@ + label@),
        LineView::Out(""@),
    ]);
    lines
}

/// What is found is shown with its identifier, its distance and its locator, and with at most the
/// first three lines of its text, each after a mark.
pub proof fn results_show_three_lines(row: ChunkRowView, distance: Seq<char>, i: int)
    ensures
        ({
            let lines = result_lines(row, distance);
            let body = text::lines(row.text);
            let shown: int = if body.len() > 3 {
                3
            } else {
                body.len() as int
            };
            &&& lines.len() == shown + 2
            &&& lines[0] == LineView::Out(
                row.file_id + ":"@ + text::signed(row.chunk_ordinal as int) + "  dist="@
                    + distance + "  "@ + display::report_form(row),
            )
            &&& 0 <= i < shown ==> lines[1 + i] == LineView::Out("> "@ + body[i])
            &&& lines.last() == LineView::Out(""@)
        }),
{
}

}
