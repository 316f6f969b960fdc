//! How stored chunks are shown.
use crate::report;
use crate::report::{say, Line, LineView};
use crate::storage::rows::{ChunkRow, ChunkRowView};
use crate::text;
use vstd::prelude::*;

verus! {

/// A text without the characters that a terminal would obey.
pub open spec fn sanitized(s: Seq<char>) -> Seq<char> {
    s.filter(|c: char| !text::control(c))
}

/// Takes out the characters that a terminal would obey.
pub fn sanitize_for_terminal(s: &str) -> (r: String)
    ensures
        r@ == sanitized(s@),
{
    let cs = text::chars(s);
    let ghost pred = |c: char| !text::control(c);
    let n: usize = cs.len();
    let mut out = String::new();
    proof {
        reveal(Seq::filter);
        assert(out@ =~= s@.take(0).filter(pred));
    }
    for i in 0..n
        invariant
            n == cs@.len(),
            cs@ == s@,
            pred == (|c: char| !text::control(c)),
            out@ == s@.take(i as int).filter(pred),
    {
        let c: char = cs[i];
        proof {
            reveal(Seq::filter);
            assert(s@.take(i + 1).drop_last() =~= s@.take(i as int));
        }
        if !text::is_control(c) {
            out.push(c);
        }
    }
    assert(s@.take(n as int) =~= s@);
    out
}

/// Nothing that a terminal would obey is left in a text, and a text without such characters
/// is shown as it is.
pub proof fn sanitized_texts_are_plain(s: Seq<char>)
    ensures
        forall|i: int| 0 <= i < sanitized(s).len() ==> !text::control(#[trigger] sanitized(s)[i]),
        (forall|i: int| 0 <= i < s.len() ==> !text::control(#[trigger] s[i])) ==> sanitized(s) == s,
    decreases s.len(),
{
    reveal(Seq::filter);
    if s.len() > 0 {
        let rest = s.drop_last();
        sanitized_texts_are_plain(rest);
        assert(s =~= rest.push(s.last()));
        if forall|i: int| 0 <= i < s.len() ==> !text::control(#[trigger] s[i]) {
            assert forall|i: int| 0 <= i < rest.len() implies !text::control(
                #[trigger] rest[i],
            ) by {
                assert(s[i] == rest[i]);
            }
            assert(!text::control(s[s.len() - 1]));
        }
    }
}

/// The locator of a chunk, with its part and its kind where they tell something.
pub open spec fn report_form(row: ChunkRowView) -> Seq<char> {
    let name = sanitized(
        match row.breadcrumb {
            Some(b) => b,
            None => "unknown"@,
        },
    );
    let part = match (row.split_part_ordinal, row.split_part_count) {
        (Some(ordinal), Some(count)) => name + " (part "@ + text::signed(ordinal as int) + "/"@
            + text::signed(count as int) + ")"@,
        _ => name,
    };
    if row.chunk_kind != "content"@ {
        part + " ["@ + row.chunk_kind + "]"@
    } else {
        part
    }
}

/// The locator of a chunk, see [`report_form`].
pub fn make_report_form(row: &ChunkRow) -> (r: String)
    ensures
        r@ == report_form(row@),
{
    let mut out = sanitize_for_terminal(
        match &row.breadcrumb {
            Some(b) => b.as_str(),
            None => "unknown",
        },
    );
    if let (Some(ordinal), Some(count)) = (row.split_part_ordinal, row.split_part_count) {
        out.append(" (part ");
        text::push_signed(&mut out, ordinal);
        out.append("/");
        text::push_signed(&mut out, count);
        out.append(")");
    }
    if !text::same(row.chunk_kind.as_str(), "content") {
        out.append(" [");
        out.append(row.chunk_kind.as_str());
        out.append("]");
    }
    out
}

/// Lines of a text, each after a mark.
pub open spec fn marked(lines: Seq<Seq<char>>, mark: Seq<char>) -> Seq<LineView> {
    lines.map_values(|l: Seq<char>| LineView::Out(mark + l))
}

/// Adds the first lines of a list, each after a mark.
pub fn say_marked(lines: &mut Vec<Line>, texts: &Vec<String>, count: usize, mark: &str)
    requires
        count <= texts@.len(),
    ensures
        report::line_views(final(lines)@) == report::line_views(old(lines)@) + marked(
            text::views(texts@).take(count as int),
            mark@,
        ),
{
    let ghost start = report::line_views(lines@);
    let ghost all = text::views(texts@);
    assert(start + marked(all.take(0), mark@) =~= start);
    for i in 0..count
        invariant
            count <= texts@.len(),
            all == text::views(texts@),
            report::line_views(lines@) == start + marked(all.take(i as int), mark@),
    {
        let mut line = mark.to_owned();
        line.append(texts[i].as_str());
        say(lines, line);
        proof {
            assert(all[i as int] == texts@[i as int]@);
            assert(marked(all.take(i + 1), mark@) =~= marked(all.take(i as int), mark@).push(
                LineView::Out(mark@ + all[i as int]),
            ));
            assert(report::line_views(lines@) =~= start + marked(all.take(i + 1), mark@));
        }
    }
}

/// A text is shown character by character: what is taken out does not depend on what stands
/// beside it.
pub proof fn characters_are_taken_out_one_by_one(a: Seq<char>, b: Seq<char>, c: char)
    ensures
        sanitized(a + b) == sanitized(a) + sanitized(b),
        sanitized(seq![c]) == if c as int <= 0x1f || 0x7f <= c as int <= 0x9f {
            Seq::empty()
        } else {
            seq![c]
        },
{
    let pred = |c: char| !text::control(c);
    Seq::filter_distributes_over_add(a, b, pred);
    reveal(Seq::filter);
    reveal_with_fuel(Seq::filter, 2);
    assert(seq![c].drop_last() =~= Seq::empty());
    assert(seq![c].filter(pred) =~= if pred(c) {
        seq![c]
    } else {
        Seq::empty()
    });
}

/// The locator of a chunk begins with its breadcrumb; a part of a divided section is told with its
/// number, and a kind other than content in brackets.
pub proof fn locators_tell_part_and_kind(row: ChunkRowView, breadcrumb: Seq<char>, m: i32, n: i32)
    requires
        row.breadcrumb == Some(breadcrumb),
    ensures
        sanitized(breadcrumb).is_prefix_of(report_form(row)),
        row.split_part_ordinal is None && row.chunk_kind == "content"@ ==> report_form(row)
            == sanitized(breadcrumb),
        row.split_part_ordinal is None && row.chunk_kind != "content"@ ==> report_form(row)
            == sanitized(breadcrumb) + " ["@ + row.chunk_kind + "]"@,
        row.split_part_ordinal == Some(m) && row.split_part_count == Some(n) && row.chunk_kind
            == "content"@ ==> report_form(row) == sanitized(breadcrumb) + " (part "@ + text::signed(
            m as int,
        ) + "/"@ + text::signed(n as int) + ")"@,
{
    let name = sanitized(breadcrumb);
    assert(report_form(row).subrange(0, name.len() as int) =~= name);
}

}
