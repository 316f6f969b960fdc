//! Setting and showing the default context.
use crate::context;
use crate::context::{ContextView, DefaultContext};
use crate::failure::{failure, Failure};
use crate::identifier;
use crate::identifier::{validate_catalog, validate_label};
use crate::report;
use crate::report::{no_lines, say, Line, LineView};
use crate::settings;
use crate::settings::{find_catalog, CatalogConfig, CatalogConfigView};
use crate::text;
use vstd::prelude::*;

verus! {

/// What is to be done.
#[derive(Debug, Clone, Copy, PartialEq, Eq, Structural)]
pub enum UseAction {
    /// The context is shown.
    Show,
    /// The names that were given become the context.
    Change,
}

/// The names of catalogs with commas between them.
pub open spec fn catalog_list(catalogs: Seq<(Seq<char>, CatalogConfigView)>) -> Seq<char> {
    text::join(catalogs.map_values(|c: (Seq<char>, CatalogConfigView)| c.0), ", "@)
}

/// What is to be done, given the names that were given.
pub open spec fn use_action(
    catalog: Option<Seq<char>>,
    label: Option<Seq<char>>,
    catalogs: Seq<(Seq<char>, CatalogConfigView)>,
) -> Result<UseAction, Seq<char>> {
    match (catalog, label) {
        (None, None) => Ok(UseAction::Show),
        (Some(c), Some(l)) => if let Some(e) = identifier::catalog_error(c) {
            Err(context::naming("Invalid catalog name '"@, c, e.shown()))
        } else if let Some(e) = identifier::label_error(l) {
            Err(context::naming("Invalid label name '"@, l, e.shown()))
        } else if settings::catalog_named(catalogs, c, 0) is None {
            Err(
                "Catalog '"@ + c + "' not found in config. Available catalogs: "@ + catalog_list(
                    catalogs,
                ),
            )
        } else {
            Ok(UseAction::Change)
        },
        _ => Err(
            "Both --catalog and --label are required to set context.\n\n                Usage:\n  monodex use --catalog <name> --label <name>\n\n                Or run 'monodex use' without arguments to see current context."@,
        ),
    }
}

fn push_catalogs(out: &mut String, catalogs: &Vec<(String, CatalogConfig)>)
    ensures
        final(out)@ == old(out)@ + catalog_list(settings::catalog_views(catalogs@)),
{
    let ghost before = out@;
    let ghost names = settings::catalog_views(catalogs@).map_values(
        |c: (Seq<char>, CatalogConfigView)| c.0,
    );
    let n: usize = catalogs.len();
    assert(before + text::join(names.take(0), ", "@) =~= before);
    for i in 0..n
        invariant
            n == catalogs@.len() == names.len(),
            names == settings::catalog_views(catalogs@).map_values(
                |c: (Seq<char>, CatalogConfigView)| c.0,
            ),
            out@ == before + text::join(names.take(i as int), ", "@),
    {
        if i > 0 {
            out.append(", ");
        }
        out.append(catalogs[i].0.as_str());
        proof {
            let next = names.take(i + 1);
            assert(next.drop_last() =~= names.take(i as int));
            assert(names[i as int] == catalogs@[i as int].0@);
            assert(next.last() == names[i as int]);
            if i == 0 {
                assert(next[0] == next.last());
                assert(names.take(0) =~= Seq::empty());
            }
            assert(out@ =~= before + text::join(next, ", "@));
        }
    }
    assert(names.take(n as int) =~= names);
}

fn about(before: &str, name: &str, problem: &str) -> (r: Failure)
    ensures
        r@ == context::naming(before@, name@, problem@),
{
    let mut out = text::around(before, name, "': ");
    out.append(problem);
    failure(out)
}

/// Finds out what is to be done, see [`use_action`].
pub fn decide_use(
    catalog: Option<&str>,
    label: Option<&str>,
    catalogs: &Vec<(String, CatalogConfig)>,
) -> (r: Result<UseAction, Failure>)
    ensures
        match r {
            Ok(action) => use_action(
                context::flag(catalog),
                context::flag(label),
                settings::catalog_views(catalogs@),
            ) == Ok::<_, Seq<char>>(action),
            Err(e) => use_action(
                context::flag(catalog),
                context::flag(label),
                settings::catalog_views(catalogs@),
            ) == Err::<UseAction, _>(e@),
        },
{
    match (catalog, label) {
        (None, None) => Ok(UseAction::Show),
        (Some(c), Some(l)) => {
            if let Err(e) = validate_catalog(c) {
                return Err(about("Invalid catalog name '", c, e.to_string().as_str()));
            }
            if let Err(e) = validate_label(l) {
                return Err(about("Invalid label name '", l, e.to_string().as_str()));
            }
            if find_catalog(catalogs, c).is_none() {
                let mut message = text::around(
                    "Catalog '",
                    c,
                    "' not found in config. Available catalogs: ",
                );
                push_catalogs(&mut message, catalogs);
                return Err(failure(message));
            }
            Ok(UseAction::Change)
        },
        _ => Err(
            failure(
                "Both --catalog and --label are required to set context.\n\n                Usage:\n  monodex use --catalog <name> --label <name>\n\n                Or run 'monodex use' without arguments to see current context.".to_owned(),
            ),
        ),
    }
}

/// What is said of the context.
pub open spec fn context_lines(ctx: Option<ContextView>) -> Seq<LineView> {
    match ctx {
        Some(c) => seq![
            LineView::Out("Current context:"@),
            LineView::Out("  Catalog: "@ + c.catalog),
            LineView::Out("  Label: "@ + c.label),
        ],
        None => seq![
            LineView::Out("No default context set."@),
            LineView::Out(""@),
            LineView::Out("Usage:"@),
            LineView::Out("  monodex use --catalog <name> --label <name>"@),
        ],
    }
}

fn say_names(lines: &mut Vec<Line>, catalog: &str, label: &str)
    ensures
        report::line_views(final(lines)@) == report::line_views(old(lines)@).push(
            LineView::Out("  Catalog: "@ + catalog@),
        ).push(LineView::Out("  Label: "@ + label@)),
{
    let mut first = "  Catalog: ".to_owned();
    first.append(catalog);
    say(lines, first);
    let mut second = "  Label: ".to_owned();
    second.append(label);
    say(lines, second);
}

/// Says what the context is, see [`context_lines`].
pub fn show_default_context(ctx: &Option<DefaultContext>) -> (r: Vec<Line>)
    ensures
        report::line_views(r@) == context_lines(context::context_view(*ctx)),
{
    let mut lines = no_lines();
    match ctx {
        Some(c) => {
            say(&mut lines, "Current context:".to_owned());
            say_names(&mut lines, c.catalog.as_str(), c.label.as_str());
        },
        None => {
            say(&mut lines, "No default context set.".to_owned());
            say(&mut lines, "".to_owned());
            say(&mut lines, "Usage:".to_owned());
            say(&mut lines, "  monodex use --catalog <name> --label <name>".to_owned());
        },
    }
    assert(report::line_views(lines@) =~= context_lines(context::context_view(*ctx)));
    lines
}

/// What is said once the context is set.
pub open spec fn set_lines(catalog: Seq<char>, label: Seq<char>) -> Seq<LineView> {
    seq![
        LineView::Out("✓ Default context set to:"@),
        LineView::Out("  Catalog: "@ + catalog),
        LineView::Out("  Label: "@ + label),
        LineView::Out(""@),
        LineView::Out(
            "Commands will now use this context when --catalog/--label are not specified."@,
        ),
    ]
}

/// Says that the context is set, see [`set_lines`].
pub fn show_set_context(catalog: &str, label: &str) -> (r: Vec<Line>)
    ensures
        report::line_views(r@) == set_lines(catalog@, label@),
{
    let mut lines = no_lines();
    say(&mut lines, "✓ Default context set to:".to_owned());
    say_names(&mut lines, catalog, label);
    say(&mut lines, "".to_owned());
    say(
        &mut lines,
        "Commands will now use this context when --catalog/--label are not specified.".to_owned(),
    );
    assert(report::line_views(lines@) =~= set_lines(catalog@, label@));
    lines
}

/// A context that is set can be used: it passes the check when it is read, and commands that
/// name nothing work on it.
pub proof fn set_contexts_can_be_used(
    catalog: Seq<char>,
    label: Seq<char>,
    set_at: Seq<char>,
    catalogs: Seq<(Seq<char>, CatalogConfigView)>,
)
    requires
        use_action(Some(catalog), Some(label), catalogs) is Ok,
    ensures
        context::context_warning(ContextView { catalog, label, set_at }) is None,
        context::resolution(None, None, Some(ContextView { catalog, label, set_at })) == Ok::<
            _,
            Seq<char>,
        >((catalog, label)),
{
}

/// The context is changed exactly if both names are given and valid and a catalog of that name is
/// known; it is shown if none is given; anything else is refused.
pub proof fn contexts_are_changed_to_known_catalogs(
    catalog: Option<Seq<char>>,
    label: Option<Seq<char>>,
    catalogs: Seq<(Seq<char>, CatalogConfigView)>,
)
    ensures
        use_action(catalog, label, catalogs) == Ok::<_, Seq<char>>(UseAction::Change) <==> {
            &&& catalog matches Some(c) && identifier::catalog_error(c) is None && exists|i: int|
                0 <= i < catalogs.len() && (#[trigger] catalogs[i]).0 == c
            &&& label matches Some(l) && identifier::label_error(l) is None
        },
        use_action(catalog, label, catalogs) == Ok::<_, Seq<char>>(UseAction::Show) <==> catalog
            is None && label is None,
{
    if let Some(c) = catalog {
        settings::known_catalogs_are_found(catalogs, c, 0);
    }
}

}
