//! The catalog and the label that commands work on.
use crate::failure::{failure, Failure};
use crate::identifier;
use crate::identifier::{validate_catalog, validate_label, LabelId};
use crate::text;
use vstd::prelude::*;

verus! {

/// Where the default context is kept.
pub const DEFAULT_CONTEXT_PATH: &'static str = "~/.config/monodex/context.json";

/// The context for commands that name none.
#[derive(Debug)]
pub struct DefaultContext {
    /// Name of the catalog.
    pub catalog: String,
    /// Name of the label.
    pub label: String,
    /// When the context was set.
    pub set_at: String,
}

/// What a [`DefaultContext`] stands for.
pub struct ContextView {
    pub catalog: Seq<char>,
    pub label: Seq<char>,
    pub set_at: Seq<char>,
}

impl View for DefaultContext {
    type V = ContextView;

    open spec fn view(&self) -> ContextView {
        ContextView { catalog: self.catalog@, label: self.label@, set_at: self.set_at@ }
    }
}

impl Clone for DefaultContext {
    fn clone(&self) -> (r: Self)
        ensures
            r@ == self@,
    {
        DefaultContext {
            catalog: self.catalog.clone(),
            label: self.label.clone(),
            set_at: self.set_at.clone(),
        }
    }
}

/// What a text that may be missing stands for.
pub open spec fn flag(s: Option<&str>) -> Option<Seq<char>> {
    match s {
        Some(x) => Some(x@),
        None => None,
    }
}

/// What a context that may be missing stands for.
pub open spec fn context_view(c: Option<DefaultContext>) -> Option<ContextView> {
    match c {
        Some(x) => Some(x@),
        None => None,
    }
}

/// The advice that ends the warnings about a stored context.
pub open spec fn reset_advice() -> Seq<char> {
    ". Run 'monodex use --catalog <name> --label <name>' to reset."@
}

/// The warning for a stored context that cannot be used, if it cannot.
pub open spec fn context_warning(c: ContextView) -> Option<Seq<char>> {
    match identifier::catalog_error(c.catalog) {
        Some(e) => Some(
            "Warning: Invalid catalog '"@ + c.catalog + "' in default context: "@ + e.shown()
                + reset_advice(),
        ),
        None => match identifier::label_error(c.label) {
            Some(e) => Some(
                "Warning: Invalid label '"@ + c.label + "' in default context: "@ + e.shown()
                    + reset_advice(),
            ),
            None => None,
        },
    }
}

fn name_warning(before: &str, name: &str, problem: &str) -> (r: String)
    ensures
        r@ == before@ + name@ + "' in default context: "@ + problem@ + reset_advice(),
{
    let mut out = text::around(before, name, "' in default context: ");
    out.append(problem);
    out.append(". Run 'monodex use --catalog <name> --label <name>' to reset.");
    out
}

/// Checks a context that was stored; a context that cannot be used is given up with a warning.
pub fn check_default_context(ctx: DefaultContext) -> (r: Result<DefaultContext, String>)
    ensures
        match r {
            Ok(c) => c == ctx && context_warning(ctx@) is None,
            Err(w) => context_warning(ctx@) == Some(w@),
        },
{
    if let Err(e) = validate_catalog(ctx.catalog.as_str()) {
        return Err(
            name_warning(
                "Warning: Invalid catalog '",
                ctx.catalog.as_str(),
                e.to_string().as_str(),
            ),
        );
    }
    if let Err(e) = validate_label(ctx.label.as_str()) {
        return Err(
            name_warning("Warning: Invalid label '", ctx.label.as_str(), e.to_string().as_str()),
        );
    }
    Ok(ctx)
}

/// A message that says what is wrong with a name.
pub open spec fn naming(before: Seq<char>, name: Seq<char>, problem: Seq<char>) -> Seq<char> {
    before + name + "': "@ + problem
}

/// What is wrong with a label that was given, if something is.
pub open spec fn label_flag_error(label: Option<Seq<char>>) -> Option<Seq<char>> {
    match label {
        None => None,
        Some(l) => if l.contains(':') {
            Some(
                "Invalid --label value '"@ + l
                    + "'. Use separate flags: --catalog <catalog> --label <label>"@,
            )
        } else {
            match identifier::label_error(l) {
                Some(e) => Some(naming("Invalid label name '"@, l, e.shown())),
                None => None,
            }
        },
    }
}

/// What is wrong with a catalog that was given, if something is.
pub open spec fn catalog_flag_error(catalog: Option<Seq<char>>) -> Option<Seq<char>> {
    match catalog {
        None => None,
        Some(c) => match identifier::catalog_error(c) {
            Some(e) => Some(naming("Invalid catalog name '"@, c, e.shown())),
            None => None,
        },
    }
}

/// A catalog from the default context.
pub open spec fn stored_catalog(c: ContextView) -> Result<Seq<char>, Seq<char>> {
    match identifier::catalog_error(c.catalog) {
        Some(e) => Err(naming("Invalid catalog in default context '"@, c.catalog, e.shown())),
        None => Ok(c.catalog),
    }
}

/// A label from the default context.
pub open spec fn stored_label(c: ContextView) -> Result<Seq<char>, Seq<char>> {
    match identifier::label_error(c.label) {
        Some(e) => Err(naming("Invalid label in default context '"@, c.label, e.shown())),
        None => Ok(c.label),
    }
}

/// Catalog and label that a command works on: what is given, and what is not given from the
/// default context.
pub open spec fn resolution(
    label: Option<Seq<char>>,
    catalog: Option<Seq<char>>,
    default: Option<ContextView>,
) -> Result<(Seq<char>, Seq<char>), Seq<char>> {
    if let Some(e) = label_flag_error(label) {
        Err(e)
    } else if let Some(e) = catalog_flag_error(catalog) {
        Err(e)
    } else {
        match (catalog, label, default) {
            (Some(c), Some(l), _) => Ok((c, l)),
            (Some(c), None, Some(ctx)) => match stored_label(ctx) {
                Err(e) => Err(e),
                Ok(l) => Ok((c, l)),
            },
            (None, Some(l), Some(ctx)) => match stored_catalog(ctx) {
                Err(e) => Err(e),
                Ok(c) => Ok((c, l)),
            },
            (None, None, Some(ctx)) => match stored_catalog(ctx) {
                Err(e) => Err(e),
                Ok(c) => match stored_label(ctx) {
                    Err(e) => Err(e),
                    Ok(l) => Ok((c, l)),
                },
            },
            (None, None, None) => Err(
                "No context set. Use --catalog and --label, or set defaults with:\n  monodex use --catalog <name> --label <name>"@,
            ),
            (_, _, None) => Err(
                "Missing context. Provide both --catalog and --label, or set defaults with:\n  monodex use --catalog <name> --label <name>"@,
            ),
        }
    }
}

fn make_naming(before: &str, name: &str, problem: &str) -> (r: Failure)
    ensures
        r@ == naming(before@, name@, problem@),
{
    let mut out = text::around(before, name, "': ");
    out.append(problem);
    failure(out)
}

fn check_label_flag(label: Option<&str>) -> (r: Result<(), Failure>)
    ensures
        match r {
            Ok(_) => label_flag_error(flag(label)) is None,
            Err(e) => label_flag_error(flag(label)) == Some(e@),
        },
{
    if let Some(l) = label {
        let cs = text::chars(l);
        proof {
            text::lemma_first_index(l@, ':');
        }
        if text::find_char(&cs, ':') < cs.len() {
            return Err(
                failure(
                    text::around(
                        "Invalid --label value '",
                        l,
                        "'. Use separate flags: --catalog <catalog> --label <label>",
                    ),
                ),
            );
        }
        if let Err(e) = validate_label(l) {
            return Err(make_naming("Invalid label name '", l, e.to_string().as_str()));
        }
    }
    Ok(())
}

fn check_catalog_flag(catalog: Option<&str>) -> (r: Result<(), Failure>)
    ensures
        match r {
            Ok(_) => catalog_flag_error(flag(catalog)) is None,
            Err(e) => catalog_flag_error(flag(catalog)) == Some(e@),
        },
{
    if let Some(c) = catalog {
        if let Err(e) = validate_catalog(c) {
            return Err(make_naming("Invalid catalog name '", c, e.to_string().as_str()));
        }
    }
    Ok(())
}

fn take_catalog(ctx: &DefaultContext) -> (r: Result<String, Failure>)
    ensures
        match r {
            Ok(c) => stored_catalog(ctx@) == Ok::<_, Seq<char>>(c@),
            Err(e) => stored_catalog(ctx@) == Err::<Seq<char>, _>(e@),
        },
{
    if let Err(e) = validate_catalog(ctx.catalog.as_str()) {
        return Err(
            make_naming(
                "Invalid catalog in default context '",
                ctx.catalog.as_str(),
                e.to_string().as_str(),
            ),
        );
    }
    Ok(ctx.catalog.clone())
}

fn take_label(ctx: &DefaultContext) -> (r: Result<String, Failure>)
    ensures
        match r {
            Ok(l) => stored_label(ctx@) == Ok::<_, Seq<char>>(l@),
            Err(e) => stored_label(ctx@) == Err::<Seq<char>, _>(e@),
        },
{
    if let Err(e) = validate_label(ctx.label.as_str()) {
        return Err(
            make_naming(
                "Invalid label in default context '",
                ctx.label.as_str(),
                e.to_string().as_str(),
            ),
        );
    }
    Ok(ctx.label.clone())
}

/// Finds the catalog and the label that a command works on, and the label's identifier.
pub fn resolve_label_context(
    explicit_label: Option<&str>,
    explicit_catalog: Option<&str>,
    default: &Option<DefaultContext>,
) -> (r: Result<(LabelId, String, String), Failure>)
    ensures
        match r {
            Ok((id, catalog, label)) => {
                &&& resolution(flag(explicit_label), flag(explicit_catalog), context_view(*default))
                    == Ok::<_, Seq<char>>((catalog@, label@))
                &&& id@ == (catalog@, label@)
            },
            Err(e) => resolution(
                flag(explicit_label),
                flag(explicit_catalog),
                context_view(*default),
            ) == Err::<(Seq<char>, Seq<char>), _>(e@),
        },
{
    check_label_flag(explicit_label)?;
    check_catalog_flag(explicit_catalog)?;
    let (catalog, label) = match (explicit_catalog, explicit_label, default) {
        (Some(c), Some(l), _) => (c.to_owned(), l.to_owned()),
        (Some(c), None, Some(ctx)) => (c.to_owned(), take_label(ctx)?),
        (None, Some(l), Some(ctx)) => (take_catalog(ctx)?, l.to_owned()),
        (None, None, Some(ctx)) => {
            let c = take_catalog(ctx)?;
            (c, take_label(ctx)?)
        },
        (None, None, None) => {
            return Err(
                failure(
                    "No context set. Use --catalog and --label, or set defaults with:\n  monodex use --catalog <name> --label <name>".to_owned(),
                ),
            );
        },
        (_, _, None) => {
            return Err(
                failure(
                    "Missing context. Provide both --catalog and --label, or set defaults with:\n  monodex use --catalog <name> --label <name>".to_owned(),
                ),
            );
        },
    };
    match LabelId::new(catalog.as_str(), label.as_str()) {
        Ok(id) => Ok((id, catalog, label)),
        Err(e) => Err(failure(e.to_string())),
    }
}

/// Whatever context a command works on, its names are valid.
pub proof fn resolved_names_are_valid(
    label: Option<Seq<char>>,
    catalog: Option<Seq<char>>,
    default: Option<ContextView>,
)
    ensures
        resolution(label, catalog, default) matches Ok((c, l)) ==> identifier::pair_error(c, l)
            is None,
{
}

/// Where both names are given, the default context does not matter.
pub proof fn given_names_prevail(
    label: Seq<char>,
    catalog: Seq<char>,
    default: Option<ContextView>,
)
    ensures
        resolution(Some(label), Some(catalog), default) == resolution(
            Some(label),
            Some(catalog),
            None,
        ),
{
}

/// A name that is given is used; one that is not given comes from the default context. Without a
/// default context both names must be given.
pub proof fn missing_names_come_from_the_default(
    label: Seq<char>,
    catalog: Seq<char>,
    default: ContextView,
)
    requires
        identifier::catalog_error(catalog) is None,
        identifier::label_error(label) is None,
        !label.contains(':'),
        identifier::catalog_error(default.catalog) is None,
        identifier::label_error(default.label) is None,
    ensures
        resolution(Some(label), Some(catalog), None) == Ok::<_, Seq<char>>((catalog, label)),
        resolution(Some(label), Some(catalog), Some(default)) == Ok::<_, Seq<char>>(
            (catalog, label),
        ),
        resolution(Some(label), None, Some(default)) == Ok::<_, Seq<char>>(
            (default.catalog, label),
        ),
        resolution(None, Some(catalog), Some(default)) == Ok::<_, Seq<char>>(
            (catalog, default.label),
        ),
        resolution(None, None, Some(default)) == Ok::<_, Seq<char>>(
            (default.catalog, default.label),
        ),
        resolution(None, None, None) is Err,
        resolution(Some(label), None, None) is Err,
        resolution(None, Some(catalog), None) is Err,
{
}

/// A context is given up exactly if one of its names is not valid, and the warning quotes the
/// name that is not.
pub proof fn contexts_with_bad_names_are_given_up(c: ContextView)
    ensures
        context_warning(c) is None <==> identifier::catalog_error(c.catalog) is None
            && identifier::label_error(c.label) is None,
        identifier::catalog_error(c.catalog) is Some ==> ("Warning: Invalid catalog '"@
            + c.catalog).is_prefix_of(context_warning(c)->0),
        identifier::catalog_error(c.catalog) is None && identifier::label_error(c.label) is Some
            ==> ("Warning: Invalid label '"@ + c.label).is_prefix_of(context_warning(c)->0),
{
    let a = "Warning: Invalid catalog '"@ + c.catalog;
    let b = "Warning: Invalid label '"@ + c.label;
    if let Some(w) = context_warning(c) {
        if identifier::catalog_error(c.catalog) is Some {
            assert(w.subrange(0, a.len() as int) =~= a);
        } else {
            assert(w.subrange(0, b.len() as int) =~= b);
        }
    }
}

}
