//! What is found where a database is to be made.
use crate::failure::{failure, Failure};
use crate::paths;
use crate::schema::{CHUNKS_TABLE, LABEL_METADATA_TABLE, MONODEX_SCHEMA_VERSION};
use crate::storage::database;
use crate::storage::database::{
    err_schema_mismatch, MetaFile, MetaFileView, MetaRead, MetaReadView,
};
use crate::text;
use vstd::prelude::*;

verus! {

/// Name of the file that is locked while a database is made.
pub const LOCK_FILE: &'static str = ".monodex.lock";

/// Name of the database's directory in the tool's home, where no other is configured.
pub const DEFAULT_DATABASE: &'static str = "default-db";

/// The message for a path in a directory that does not exist.
pub open spec fn parent_missing(path: Seq<char>) -> Seq<char> {
    "Cannot create database at "@ + path + ": parent directory does not exist."@
}

/// The message for a path that holds something else.
pub open spec fn not_monodex_db(path: Seq<char>) -> Seq<char> {
    "Path "@ + path + " exists but is not a monodex database."@
}

/// The message for a path that holds a part of a database.
pub open spec fn partial_state(path: Seq<char>) -> Seq<char> {
    "Path "@ + path
        + " appears to be a partially-initialized or corrupted monodex database. Manual cleanup required."@
}

/// The notice for a path that holds a database.
pub open spec fn already_initialized(path: Seq<char>, version: u32) -> Seq<char> {
    "Database at "@ + path + " is already initialized (monodex_schema_version "@ + text::decimal(
        version as nat,
    ) + "); skipping."@
}

/// The message for a path in a directory that does not exist, see [`parent_missing`].
pub fn err_parent_missing(db_path: &str) -> (r: String)
    ensures
        r@ == parent_missing(db_path@),
{
    text::around("Cannot create database at ", db_path, ": parent directory does not exist.")
}

/// The message for a path that holds something else, see [`not_monodex_db`].
pub fn err_not_monodex_db(db_path: &str) -> (r: String)
    ensures
        r@ == not_monodex_db(db_path@),
{
    text::around("Path ", db_path, " exists but is not a monodex database.")
}

/// The message for a path that holds a part of a database, see [`partial_state`].
pub fn err_partial_state(db_path: &str) -> (r: String)
    ensures
        r@ == partial_state(db_path@),
{
    text::around(
        "Path ",
        db_path,
        " appears to be a partially-initialized or corrupted monodex database. Manual cleanup required.",
    )
}

/// The notice for a path that holds a database, see [`already_initialized`].
pub fn log_already_initialized(db_path: &str, schema_version: u32) -> (r: String)
    ensures
        r@ == already_initialized(db_path@, schema_version),
{
    let mut out = text::around(
        "Database at ",
        db_path,
        " is already initialized (monodex_schema_version ",
    );
    text::push_decimal(&mut out, schema_version as u64);
    out.append("); skipping.");
    out
}

/// Name of the directory that holds a table.
pub open spec fn table_dir(table: Seq<char>) -> Seq<char> {
    table + ".lance"@
}

/// Names of the directories that hold the two tables.
pub fn table_directories() -> (r: (String, String))
    ensures
        r.0@ == table_dir(CHUNKS_TABLE@),
        r.1@ == table_dir(LABEL_METADATA_TABLE@),
{
    let mut chunks = CHUNKS_TABLE.to_owned();
    chunks.append(".lance");
    let mut labels = LABEL_METADATA_TABLE.to_owned();
    labels.append(".lance");
    (chunks, labels)
}

/// What is found at the path of a database.
#[derive(Debug)]
pub struct DirectoryFacts {
    /// Something exists there.
    pub exists: bool,
    /// What came of reading the file that describes a database.
    pub meta: MetaRead,
    /// The directory of the table of chunks exists.
    pub has_chunks: bool,
    /// The directory of the table of labels exists.
    pub has_labels: bool,
    /// The names in the directory, if they could all be read.
    pub entries: Option<Vec<String>>,
}

/// What [`DirectoryFacts`] stand for.
pub struct DirectoryView {
    pub exists: bool,
    pub meta: MetaReadView,
    pub has_chunks: bool,
    pub has_labels: bool,
    pub entries: Option<Seq<Seq<char>>>,
}

impl View for DirectoryFacts {
    type V = DirectoryView;

    open spec fn view(&self) -> DirectoryView {
        DirectoryView {
            exists: self.exists,
            meta: self.meta@,
            has_chunks: self.has_chunks,
            has_labels: self.has_labels,
            entries: match self.entries {
                Some(v) => Some(text::views(v@)),
                None => None,
            },
        }
    }
}

/// Whether every name is that of the lock.
pub open spec fn only_lock(names: Seq<Seq<char>>) -> bool {
    forall|i: int| 0 <= i < names.len() ==> #[trigger] names[i] == LOCK_FILE@
}

/// Whether a directory is known to hold nothing but the lock.
pub open spec fn unoccupied(entries: Option<Seq<Seq<char>>>) -> bool {
    entries matches Some(names) && only_lock(names)
}

/// What stands at a path: a database, nothing, or something that is in the way.
pub open spec fn existing(path: Seq<char>, facts: DirectoryView) -> Result<
    Option<MetaFileView>,
    Seq<char>,
> {
    if !facts.exists {
        Ok(None)
    } else {
        match facts.meta {
            MetaReadView::Unreadable(_) => Err(partial_state(path)),
            MetaReadView::Read(m) => if m.monodex_schema_version != MONODEX_SCHEMA_VERSION {
                Err(database::schema_mismatch(m.monodex_schema_version, MONODEX_SCHEMA_VERSION))
            } else if !facts.has_chunks || !facts.has_labels {
                Err(partial_state(path))
            } else {
                Ok(Some(m))
            },
            MetaReadView::Missing => if facts.has_chunks || facts.has_labels {
                Err(partial_state(path))
            } else if unoccupied(facts.entries) {
                Ok(None)
            } else {
                Err(not_monodex_db(path))
            },
        }
    }
}

fn is_only_lock(names: &Vec<String>) -> (r: bool)
    ensures
        r == only_lock(text::views(names@)),
{
    let n: usize = names.len();
    for i in 0..n
        invariant
            n == names@.len(),
            forall|j: int| 0 <= j < i ==> #[trigger] text::views(names@)[j] == LOCK_FILE@,
    {
        if !text::same(names[i].as_str(), LOCK_FILE) {
            assert(text::views(names@)[i as int] != LOCK_FILE@);
            return false;
        }
        assert(text::views(names@)[i as int] == LOCK_FILE@);
    }
    true
}

/// Looks at what was found at the path of a database. Gives the description of the database
/// that stands there, or nothing where one can be made.
pub fn check_existing_database(db_path: &str, facts: &DirectoryFacts) -> (r: Result<
    Option<MetaFile>,
    Failure,
>)
    ensures
        match r {
            Ok(Some(m)) => existing(db_path@, facts@) == Ok::<_, Seq<char>>(Some(m@)),
            Ok(None) => existing(db_path@, facts@) == Ok::<_, Seq<char>>(None::<MetaFileView>),
            Err(e) => existing(db_path@, facts@) == Err::<Option<MetaFileView>, _>(e@),
        },
{
    if !facts.exists {
        return Ok(None);
    }
    match &facts.meta {
        MetaRead::Unreadable(_) => Err(failure(err_partial_state(db_path))),
        MetaRead::Read(m) => {
            if m.monodex_schema_version != MONODEX_SCHEMA_VERSION {
                return Err(
                    failure(err_schema_mismatch(m.monodex_schema_version, MONODEX_SCHEMA_VERSION)),
                );
            }
            if !facts.has_chunks || !facts.has_labels {
                return Err(failure(err_partial_state(db_path)));
            }
            Ok(Some(m.clone()))
        },
        MetaRead::Missing => {
            if facts.has_chunks || facts.has_labels {
                return Err(failure(err_partial_state(db_path)));
            }
            if let Some(names) = &facts.entries {
                if is_only_lock(names) {
                    return Ok(None);
                }
            }
            Err(failure(err_not_monodex_db(db_path)))
        },
    }
}

/// Whether a path is that of the database in the tool's home.
pub open spec fn is_default(path: Seq<char>, tool_home: Seq<char>) -> bool {
    paths::components(path) == paths::components(tool_home).push(DEFAULT_DATABASE@)
}

/// Whether a path has a parent that does not exist. The tool's home need not exist for the
/// database in it.
pub open spec fn lacks_parent(path: Seq<char>, tool_home: Seq<char>, parent_exists: bool) -> bool {
    !is_default(path, tool_home) && paths::parent(path) is Some && !parent_exists
}

/// Checks that the directory that is to hold a database exists.
pub fn validate_parent_directory(
    db_path: &str,
    tool_home: &str,
    parent_exists: bool,
) -> (r: Result<(), Failure>)
    ensures
        match r {
            Ok(_) => !lacks_parent(db_path@, tool_home@, parent_exists),
            Err(e) => lacks_parent(db_path@, tool_home@, parent_exists) && e@ == parent_missing(
                db_path@,
            ),
        },
{
    let mut home = paths::components_of(tool_home);
    let ghost before = home@;
    home.push(DEFAULT_DATABASE.to_owned());
    assert(text::views(home@) =~= text::views(before).push(DEFAULT_DATABASE@));
    if text::same_texts(&paths::components_of(db_path), &home) {
        return Ok(());
    }
    if paths::parent_of(db_path).is_some() && !parent_exists {
        return Err(failure(err_parent_missing(db_path)));
    }
    Ok(())
}

/// What is found once a database has been made at a time, whatever else is in its directory.
pub open spec fn complete(facts: DirectoryView, time: Seq<char>) -> bool {
    facts.exists && facts.meta == MetaReadView::Read(database::made_at(time)) && facts.has_chunks
        && facts.has_labels
}

/// A database that has been made is recognised: to make it once more changes nothing, and it
/// can be opened.
pub proof fn made_databases_are_recognised(
    path: Seq<char>,
    target: Seq<char>,
    facts: DirectoryView,
    time: Seq<char>,
)
    requires
        complete(facts, time),
    ensures
        existing(path, facts) == Ok::<_, Seq<char>>(Some(database::made_at(time))),
        database::open_error(path, Some(target), facts.meta) is None,
{
}

/// A database is made only where there is nothing, or nothing but the lock.
pub proof fn nothing_is_overwritten(path: Seq<char>, facts: DirectoryView)
    requires
        facts.exists,
        !unoccupied(facts.entries),
    ensures
        existing(path, facts) != Ok::<_, Seq<char>>(None::<MetaFileView>),
{
}

/// A database stands at a path exactly if a file there can be read that says version one and both
/// tables exist; and one can be made there exactly if nothing is there, or a directory in which
/// nothing is but the lock. Everything else is in the way.
pub proof fn places_for_a_database(path: Seq<char>, facts: DirectoryView)
    ensures
        (existing(path, facts) matches Ok(Some(m)) && true) <==> {
            &&& facts.exists
            &&& facts.has_chunks
            &&& facts.has_labels
            &&& facts.meta matches MetaReadView::Read(m) && m.monodex_schema_version == 1
        },
        existing(path, facts) == Ok::<_, Seq<char>>(None::<MetaFileView>) <==> !facts.exists || {
            &&& facts.meta is Missing
            &&& !facts.has_chunks
            &&& !facts.has_labels
            &&& facts.entries matches Some(names) && forall|i: int|
                0 <= i < names.len() ==> #[trigger] names[i] == ".monodex.lock"@
        },
        existing(path, facts) matches Ok(Some(m)) ==> facts.meta == MetaReadView::Read(m),
{
}

/// A database elsewhere than in the tool's home needs a directory that exists.
pub proof fn other_databases_need_a_parent(path: Seq<char>, tool_home: Seq<char>)
    requires
        paths::components(path) != paths::components(tool_home).push("default-db"@),
        paths::parent(path) is Some,
    ensures
        lacks_parent(path, tool_home, false),
        !lacks_parent(path, tool_home, true),
{
}

/// The tables have directories of their own names.
pub proof fn tables_have_directories()
    ensures
        table_dir(CHUNKS_TABLE@) == "chunks.lance"@,
        table_dir(LABEL_METADATA_TABLE@) == "label_metadata.lance"@,
{
    reveal_strlit("chunks");
    reveal_strlit("label_metadata");
    reveal_strlit(".lance");
    reveal_strlit("chunks.lance");
    reveal_strlit("label_metadata.lance");
    assert(table_dir(CHUNKS_TABLE@) =~= "chunks.lance"@);
    assert(table_dir(LABEL_METADATA_TABLE@) =~= "label_metadata.lance"@);
}

}
