//! The database directory and the file that describes it.
use crate::failure::{failure, Failure};
use crate::schema::MONODEX_SCHEMA_VERSION;
use crate::text;
use vstd::prelude::*;

verus! {

/// Name of the file that describes a database, in the database's directory.
pub const META_FILE: &'static str = "monodex-meta.json";

/// Version of this program.
pub const PROGRAM_VERSION: &'static str = "0.1.0";

/// Version of the format that the tables are stored in.
pub const LANCE_FORMAT_VERSION: &'static str = "0.27";

/// What the file in the database's directory says.
#[derive(Debug)]
pub struct MetaFile {
    /// Version of the tables' columns.
    pub monodex_schema_version: u32,
    /// When the database was made.
    pub created_at: String,
    /// Version of the program that made it.
    pub created_by_binary_version: String,
    /// Version of the storage format at that time.
    pub lance_format_version: String,
}

/// What a [`MetaFile`] stands for.
pub struct MetaFileView {
    pub monodex_schema_version: u32,
    pub created_at: Seq<char>,
    pub created_by_binary_version: Seq<char>,
    pub lance_format_version: Seq<char>,
}

impl View for MetaFile {
    type V = MetaFileView;

    open spec fn view(&self) -> MetaFileView {
        MetaFileView {
            monodex_schema_version: self.monodex_schema_version,
            created_at: self.created_at@,
            created_by_binary_version: self.created_by_binary_version@,
            lance_format_version: self.lance_format_version@,
        }
    }
}

impl Clone for MetaFile {
    fn clone(&self) -> (r: Self)
        ensures
            r@ == self@,
    {
        MetaFile {
            monodex_schema_version: self.monodex_schema_version,
            created_at: self.created_at.clone(),
            created_by_binary_version: self.created_by_binary_version.clone(),
            lance_format_version: self.lance_format_version.clone(),
        }
    }
}

/// `chrono::DateTime::from` on `std::time::SystemTime::now`, and
/// `chrono::DateTime::to_rfc3339`: the current local time in the form of RFC 3339, which is
/// never empty. What time it is is left open.
#[verifier::external_body]
fn current_time() -> (r: String)
    ensures
        r@.len() > 0,
{
    chrono::DateTime::<chrono::Local>::from(std::time::SystemTime::now()).to_rfc3339()
}

/// What is said of a database that this program makes at the given time.
pub open spec fn made_at(time: Seq<char>) -> MetaFileView {
    MetaFileView {
        monodex_schema_version: MONODEX_SCHEMA_VERSION,
        created_at: time,
        created_by_binary_version: PROGRAM_VERSION@,
        lance_format_version: LANCE_FORMAT_VERSION@,
    }
}

impl MetaFile {
    /// The description of a database that is made now.
    pub fn new() -> (r: Self)
        ensures
            r@ == made_at(r.created_at@),
            r.created_at@.len() > 0,
    {
        MetaFile::created(current_time())
    }

    /// The description of a database that is made at the given time.
    pub fn created(time: String) -> (r: Self)
        ensures
            r@ == made_at(time@),
    {
        MetaFile {
            monodex_schema_version: MONODEX_SCHEMA_VERSION,
            created_at: time,
            created_by_binary_version: PROGRAM_VERSION.to_owned(),
            lance_format_version: LANCE_FORMAT_VERSION.to_owned(),
        }
    }
}

impl Default for MetaFile {
    fn default() -> (r: Self)
        ensures
            r@ == made_at(r.created_at@),
            r.created_at@.len() > 0,
    {
        MetaFile::new()
    }
}

/// What came of reading the file that describes a database.
#[derive(Debug)]
pub enum MetaRead {
    /// There is no such file.
    Missing,
    /// It could not be read or understood, for the reason given.
    Unreadable(String),
    /// It says this.
    Read(MetaFile),
}

/// What a [`MetaRead`] stands for.
pub enum MetaReadView {
    Missing,
    Unreadable(Seq<char>),
    Read(MetaFileView),
}

impl View for MetaRead {
    type V = MetaReadView;

    open spec fn view(&self) -> MetaReadView {
        match self {
            MetaRead::Missing => MetaReadView::Missing,
            MetaRead::Unreadable(e) => MetaReadView::Unreadable(e@),
            MetaRead::Read(m) => MetaReadView::Read(m@),
        }
    }
}

/// The message for a path without a database.
pub open spec fn no_database(path: Seq<char>) -> Seq<char> {
    "No monodex database at '"@ + path + "'. Run 'monodex init-db' to create it."@
}

/// The message for a database of another version.
pub open spec fn schema_mismatch(found: u32, expected: u32) -> Seq<char> {
    "Schema mismatch: database has version "@ + text::decimal(found as nat)
        + " but monodex expects version "@ + text::decimal(expected as nat)
        + ". Run 'monodex upgrade-db' to migrate, or delete the database and run 'monodex init-db' to recreate it."@
}

/// The message for a path without a database, see [`no_database`].
pub fn err_no_database(path: &str) -> (r: String)
    ensures
        r@ == no_database(path@),
{
    text::around("No monodex database at '", path, "'. Run 'monodex init-db' to create it.")
}

/// The message for a database of another version, see [`schema_mismatch`].
pub fn err_schema_mismatch(found: u32, expected: u32) -> (r: String)
    ensures
        r@ == schema_mismatch(found, expected),
{
    let mut out = text::around_number(
        "Schema mismatch: database has version ",
        found as u64,
        " but monodex expects version ",
    );
    text::push_decimal(&mut out, expected as u64);
    out.append(
        ". Run 'monodex upgrade-db' to migrate, or delete the database and run 'monodex init-db' to recreate it.",
    );
    out
}

/// Why a database cannot be opened, if it cannot. `found` is where the path leads, if it
/// leads anywhere.
pub open spec fn open_error(path: Seq<char>, found: Option<Seq<char>>, meta: MetaReadView) -> Option<
    Seq<char>,
> {
    match found {
        None => Some(no_database(path)),
        Some(target) => match meta {
            MetaReadView::Missing => Some(no_database(target)),
            MetaReadView::Unreadable(e) => Some(e),
            MetaReadView::Read(m) => if m.monodex_schema_version != MONODEX_SCHEMA_VERSION {
                Some(schema_mismatch(m.monodex_schema_version, MONODEX_SCHEMA_VERSION))
            } else {
                None
            },
        },
    }
}

/// Whether a database can be opened, given where its path leads and what its file says.
pub fn check_open(path: &str, found: &Option<String>, meta: &MetaRead) -> (r: Result<(), Failure>)
    ensures
        match r {
            Ok(_) => open_error(path@, text::view_opt(*found), meta@) is None,
            Err(e) => open_error(path@, text::view_opt(*found), meta@) == Some(e@),
        },
{
    match found {
        None => Err(failure(err_no_database(path))),
        Some(target) => match meta {
            MetaRead::Missing => Err(failure(err_no_database(target.as_str()))),
            MetaRead::Unreadable(e) => Err(failure(e.clone())),
            MetaRead::Read(m) => if m.monodex_schema_version != MONODEX_SCHEMA_VERSION {
                Err(
                    failure(err_schema_mismatch(m.monodex_schema_version, MONODEX_SCHEMA_VERSION)),
                )
            } else {
                Ok(())
            },
        },
    }
}

/// A database can be opened exactly if its path leads somewhere, and a file there that can be
/// read says that the tables have version one. Otherwise it is said what is wrong: no database
/// at that place, what could not be read, or another version.
pub proof fn databases_that_can_be_opened(
    path: Seq<char>,
    found: Option<Seq<char>>,
    meta: MetaReadView,
)
    ensures
        open_error(path, found, meta) is None <==> found is Some && (meta matches MetaReadView::Read(
            m,
        ) && m.monodex_schema_version == 1),
        found is None ==> open_error(path, found, meta) == Some(
            "No monodex database at '"@ + path
                + "'. Run 'monodex init-db' to create it."@,
        ),
        found is Some && meta is Missing ==> open_error(path, found, meta) == Some(
            "No monodex database at '"@ + found->0
                + "'. Run 'monodex init-db' to create it."@,
        ),
        found is Some && (meta matches MetaReadView::Unreadable(e) && true) ==> open_error(
            path,
            found,
            meta,
        ) == Some(meta->Unreadable_0),
{
}

/// A database that was just made can be opened.
pub proof fn made_databases_can_be_opened(path: Seq<char>, target: Seq<char>, time: Seq<char>)
    ensures
        open_error(path, Some(target), MetaReadView::Read(made_at(time))) is None,
        made_at(time).created_at == time,
{
}

}
