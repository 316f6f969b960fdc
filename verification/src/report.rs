//! Lines that are shown to the user.
use vstd::prelude::*;

verus! {

/// A line of output.
#[derive(Debug)]
pub enum Line {
    /// On the standard output.
    Out(String),
    /// On the standard error output.
    Warning(String),
}

/// What a [`Line`] stands for.
pub enum LineView {
    Out(Seq<char>),
    Warning(Seq<char>),
}

impl View for Line {
    type V = LineView;

    open spec fn view(&self) -> LineView {
        match self {
            Line::Out(s) => LineView::Out(s@),
            Line::Warning(s) => LineView::Warning(s@),
        }
    }
}

/// What lines stand for.
pub open spec fn line_views(lines: Seq<Line>) -> Seq<LineView> {
    lines.map_values(|l: Line| l@)
}

/// Adds a line for the standard output.
pub fn say(lines: &mut Vec<Line>, s: String)
    ensures
        line_views(final(lines)@) == line_views(old(lines)@).push(LineView::Out(s@)),
{
    let ghost before = lines@;
    lines.push(Line::Out(s));
    assert(line_views(lines@) =~= line_views(before).push(LineView::Out(s@)));
}

/// Adds a line for the standard error output.
pub fn warn(lines: &mut Vec<Line>, s: String)
    ensures
        line_views(final(lines)@) == line_views(old(lines)@).push(LineView::Warning(s@)),
{
    let ghost before = lines@;
    lines.push(Line::Warning(s));
    assert(line_views(lines@) =~= line_views(before).push(LineView::Warning(s@)));
}

/// No lines.
pub fn no_lines() -> (r: Vec<Line>)
    ensures
        line_views(r@) == Seq::<LineView>::empty(),
{
    let r: Vec<Line> = Vec::new();
    assert(line_views(r@) =~= Seq::<LineView>::empty());
    r
}

}
