//! Deleting what is stored.
use crate::context;
use crate::failure::{failure, Failure};
use crate::text;
use vstd::prelude::*;

verus! {

/// What is deleted.
#[derive(Debug)]
pub enum PurgeAction {
    /// Everything.
    Everything,
    /// All that belongs to a catalog.
    Catalog(String),
}

/// What a [`PurgeAction`] stands for.
pub enum PurgeActionView {
    Everything,
    Catalog(Seq<char>),
}

impl View for PurgeAction {
    type V = PurgeActionView;

    open spec fn view(&self) -> PurgeActionView {
        match self {
            PurgeAction::Everything => PurgeActionView::Everything,
            PurgeAction::Catalog(name) => PurgeActionView::Catalog(name@),
        }
    }
}

/// What is deleted: everything where that is asked for, or else the catalog that is given.
pub fn decide_purge(catalog: Option<&str>, all: bool) -> (r: Result<PurgeAction, Failure>)
    ensures
        match r {
            Ok(action) => if all {
                action@ == PurgeActionView::Everything
            } else {
                context::flag(catalog) matches Some(name) && action@ == PurgeActionView::Catalog(
                    name,
                )
            },
            Err(e) => !all && catalog is None && e@
                == "Must specify either --catalog <name> or --all"@,
        },
{
    if all {
        return Ok(PurgeAction::Everything);
    }
    match catalog {
        Some(name) => Ok(PurgeAction::Catalog(name.to_owned())),
        None => Err(failure("Must specify either --catalog <name> or --all".to_owned())),
    }
}

/// What is said before something is deleted.
pub open spec fn start_notice(action: PurgeActionView) -> Seq<char> {
    match action {
        PurgeActionView::Everything => "🗑️  Purging entire database"@,
        PurgeActionView::Catalog(name) => "🗑️  Purging catalog: "@ + name,
    }
}

/// What is said after something is deleted.
pub open spec fn end_notice(action: PurgeActionView, chunks: u64, labels: u64) -> Seq<char> {
    match action {
        PurgeActionView::Everything => "✅ Database purged successfully"@,
        PurgeActionView::Catalog(_) => "✅ Catalog purged successfully ("@ + text::decimal(
            chunks as nat,
        ) + " chunks, "@ + text::decimal(labels as nat) + " labels deleted)"@,
    }
}

impl PurgeAction {
    /// What is said before something is deleted.
    pub fn started(&self) -> (r: String)
        ensures
            r@ == start_notice(self@),
    {
        match self {
            PurgeAction::Everything => "🗑️  Purging entire database".to_owned(),
            PurgeAction::Catalog(name) => {
                let mut out = "🗑️  Purging catalog: ".to_owned();
                out.append(name.as_str());
                out
            },
        }
    }

    /// What is said after something is deleted.
    pub fn ended(&self, chunks: u64, labels: u64) -> (r: String)
        ensures
            r@ == end_notice(self@, chunks, labels),
    {
        match self {
            PurgeAction::Everything => "✅ Database purged successfully".to_owned(),
            PurgeAction::Catalog(_) => {
                let mut out = text::around_number(
                    "✅ Catalog purged successfully (",
                    chunks,
                    " chunks, ",
                );
                text::push_decimal(&mut out, labels);
                out.append(" labels deleted)");
                out
            },
        }
    }
}

/// The notices tell what is deleted: with a catalog they name it and say how many chunks and labels
/// went, in this order, and without one they speak of the database alone.
pub proof fn notices_tell_what_is_deleted(name: Seq<char>, chunks: u64, labels: u64)
    ensures
        start_notice(PurgeActionView::Everything) == "🗑️  Purging entire database"@,
        start_notice(PurgeActionView::Catalog(name)) == "🗑️  Purging catalog: "@ + name,
        end_notice(PurgeActionView::Everything, chunks, labels)
            == "✅ Database purged successfully"@,
        end_notice(PurgeActionView::Catalog(name), chunks, labels)
            == "✅ Catalog purged successfully ("@ + text::decimal(chunks as nat) + " chunks, "@
            + text::decimal(labels as nat) + " labels deleted)"@,
{
}

}
