//! What git says of commits and working trees.
use crate::failure::{failure, Failure};
use crate::names::{NameMap, NameSet};
use crate::numbers;
use crate::numbers::read_number;
use crate::paths;
use crate::text;
use vstd::prelude::*;

verus! {

/// The first version of git that can name the blobs of tracked files.
pub const MIN_GIT_VERSION: &'static str = "2.35.0";

/// A file of a commit.
#[derive(Debug)]
pub struct FileEntry {
    /// Path in the repository.
    pub relative_path: String,
    /// Identifies the content.
    pub blob_id: String,
}

impl View for FileEntry {
    type V = (Seq<char>, Seq<char>);

    open spec fn view(&self) -> (Seq<char>, Seq<char>) {
        (self.relative_path@, self.blob_id@)
    }
}

impl Clone for FileEntry {
    fn clone(&self) -> (r: Self)
        ensures
            r@ == self@,
    {
        FileEntry { relative_path: self.relative_path.clone(), blob_id: self.blob_id.clone() }
    }
}

/// A file of a working directory.
#[derive(Debug)]
pub struct WorkingDirEntry {
    /// Path in the repository.
    pub relative_path: String,
    /// Identifies the content.
    pub blob_id: String,
}

impl View for WorkingDirEntry {
    type V = (Seq<char>, Seq<char>);

    open spec fn view(&self) -> (Seq<char>, Seq<char>) {
        (self.relative_path@, self.blob_id@)
    }
}

/// What entries of a working directory stand for.
pub open spec fn working_views(entries: Seq<WorkingDirEntry>) -> Seq<(Seq<char>, Seq<char>)> {
    entries.map_values(|e: WorkingDirEntry| e@)
}

/// The numbers among parts of a text.
pub open spec fn part_numbers(parts: Seq<Seq<char>>) -> Seq<u32>
    decreases parts.len(),
{
    if parts.len() == 0 {
        Seq::empty()
    } else {
        match numbers::number(parts.last(), u32::MAX as nat) {
            Some(n) => part_numbers(parts.drop_last()).push(n as u32),
            None => part_numbers(parts.drop_last()),
        }
    }
}

/// A part of a version; parts that are missing are zero.
pub open spec fn version_part(v: Seq<u32>, i: int) -> u32 {
    if i < v.len() {
        v[i]
    } else {
        0
    }
}

/// Whether a version is not older than another, from the given part on.
pub open spec fn not_older(actual: Seq<u32>, required: Seq<u32>, i: int) -> bool
    decreases actual.len() + required.len() - i,
{
    if i >= actual.len() && i >= required.len() {
        true
    } else {
        let (a, b) = (version_part(actual, i), version_part(required, i));
        a > b || a == b && not_older(actual, required, i + 1)
    }
}

/// The numbers of a version.
pub open spec fn version(s: Seq<char>) -> Seq<u32> {
    part_numbers(text::split(s, '.'))
}

fn read_version(s: &str) -> (r: Vec<u32>)
    ensures
        r@ == version(s@),
{
    let parts = text::split_on(s, '.');
    let ghost all = text::split(s@, '.');
    let mut out: Vec<u32> = Vec::new();
    let n: usize = parts.len();
    for i in 0..n
        invariant
            n == parts@.len(),
            all == text::views(parts@),
            out@ == part_numbers(all.take(i as int)),
    {
        assert(all.take(i + 1).drop_last() =~= all.take(i as int));
        assert(all[i as int] == parts@[i as int]@);
        if let Some(value) = read_number(parts[i].as_str(), u32::MAX as u64) {
            out.push(value as u32);
        }
    }
    assert(all.take(n as int) =~= all);
    out
}

/// Whether a version is not older than another.
pub fn version_at_least(actual: &str, required: &str) -> (r: bool)
    ensures
        r == not_older(version(actual@), version(required@), 0),
{
    let a = read_version(actual);
    let b = read_version(required);
    let n: usize = if a.len() > b.len() {
        a.len()
    } else {
        b.len()
    };
    for i in 0..n
        invariant
            a@ == version(actual@),
            b@ == version(required@),
            n >= a@.len(),
            n >= b@.len(),
            n == a@.len() || n == b@.len(),
            not_older(a@, b@, i as int) == not_older(a@, b@, 0),
    {
        let x: u32 = if i < a.len() {
            a[i]
        } else {
            0
        };
        let y: u32 = if i < b.len() {
            b[i]
        } else {
            0
        };
        if x > y {
            return true;
        }
        if x < y {
            return false;
        }
    }
    true
}

/// What is wrong with the version that git prints, if something is.
pub open spec fn git_version_error(output: Seq<char>) -> Option<Seq<char>> {
    let line = text::trimmed(output);
    let prefix = "git version "@;
    if !prefix.is_prefix_of(line) {
        Some("Unexpected git version format: "@ + line)
    } else {
        let found = text::after(line, prefix.len() as int);
        if !not_older(version(found), version(MIN_GIT_VERSION@), 0) {
            Some("Git version "@ + MIN_GIT_VERSION@ + " is required, but found "@ + found)
        } else {
            None
        }
    }
}

/// Checks the version that git prints.
pub fn check_git_version(output: &str) -> (r: Result<(), Failure>)
    ensures
        match r {
            Ok(_) => git_version_error(output@) is None,
            Err(e) => git_version_error(output@) == Some(e@),
        },
{
    let line = text::trim(output);
    if !text::starts_with(line.as_str(), "git version ") {
        let mut message = "Unexpected git version format: ".to_owned();
        message.append(line.as_str());
        return Err(failure(message));
    }
    proof {
        reveal_strlit("git version ");
    }
    let cs = text::chars(line.as_str());
    assert("git version "@.len() == 12);
    let found = text::part_of(&cs, 12, cs.len());
    assert(found@ =~= text::after(line@, 12));
    if !version_at_least(found.as_str(), MIN_GIT_VERSION) {
        let mut message = "Git version ".to_owned();
        message.append(MIN_GIT_VERSION);
        message.append(" is required, but found ");
        message.append(found.as_str());
        return Err(failure(message));
    }
    Ok(())
}

/// Checks the version of git, given what it printed.
pub fn ensure_git_version(output: &[u8]) -> (r: Result<(), Failure>)
    ensures
        match r {
            Ok(_) => git_version_error(text::lossy_utf8(output@)) is None,
            Err(e) => git_version_error(text::lossy_utf8(output@)) == Some(e@),
        },
{
    check_git_version(text::decode_lossy(output).as_str())
}

/// Of two versions, one is not older than the other, and no version is older than itself.
pub proof fn versions_are_comparable(a: Seq<u32>, b: Seq<u32>)
    ensures
        not_older(a, b, 0) || not_older(b, a, 0),
        not_older(a, a, 0),
{
    lemma_comparable(a, b, 0);
    lemma_comparable(a, a, 0);
}

proof fn lemma_comparable(a: Seq<u32>, b: Seq<u32>, i: int)
    requires
        i >= 0,
    ensures
        not_older(a, b, i) || not_older(b, a, i),
    decreases a.len() + b.len() - i,
{
    if i < a.len() || i < b.len() {
        lemma_comparable(a, b, i + 1);
    }
}

/// A version that is not older than a second is not older than what the second is not older
/// than.
pub proof fn versions_are_ordered(a: Seq<u32>, b: Seq<u32>, c: Seq<u32>)
    requires
        not_older(a, b, 0),
        not_older(b, c, 0),
    ensures
        not_older(a, c, 0),
{
    lemma_ordered(a, b, c, 0);
}

proof fn lemma_zeros(a: Seq<u32>, b: Seq<u32>, i: int)
    requires
        i >= b.len(),
        i >= 0,
    ensures
        not_older(a, b, i),
    decreases a.len() - i,
{
    if i < a.len() {
        lemma_zeros(a, b, i + 1);
    }
}

proof fn lemma_ordered(a: Seq<u32>, b: Seq<u32>, c: Seq<u32>, i: int)
    requires
        i >= 0,
        not_older(a, b, i),
        not_older(b, c, i),
    ensures
        not_older(a, c, i),
    decreases a.len() + b.len() + c.len() - i,
{
    if i < a.len() || i < b.len() || i < c.len() {
        if i >= c.len() {
            lemma_zeros(a, c, i);
        } else if i >= a.len() && i >= b.len() {
            lemma_ordered(a, b, c, i + 1);
        } else {
            let (x, y, z) = (version_part(a, i), version_part(b, i), version_part(c, i));
            if x == y && y == z {
                lemma_ordered(a, b, c, i + 1);
            }
        }
    }
}

/// The name of a directory in a table of packages: the top is empty, and parts are separated
/// by slashes.
pub open spec fn dir_key(dir: Seq<char>) -> Seq<char> {
    if dir == "."@ {
        Seq::empty()
    } else {
        text::replaced(dir, '\\', '/')
    }
}

/// Whether a path is that of the top directory.
pub open spec fn is_top(dir: Seq<char>) -> bool {
    paths::components(dir) == Seq::<Seq<char>>::empty() || paths::components(dir) == seq!["."@]
}

/// The package of the nearest directory at or above the given one.
pub open spec fn package_of_dir(index: Map<Seq<char>, Seq<char>>, dir: Seq<char>) -> Option<
    Seq<char>,
>
    decreases dir.len(),
{
    if index.contains_key(dir_key(dir)) {
        Some(index[dir_key(dir)])
    } else if is_top(dir) {
        if index.contains_key(Seq::empty()) {
            Some(index[Seq::empty()])
        } else {
            None
        }
    } else {
        proof {
            paths::parent_is_shorter(dir);
        }
        match paths::parent(dir) {
            Some(parent) => package_of_dir(index, parent),
            None => None,
        }
    }
}

/// The directory in which the search for a file's package begins.
pub open spec fn first_dir(path: Seq<char>) -> Seq<char> {
    match paths::parent(path) {
        Some(parent) => parent,
        None => path,
    }
}

/// The package that a file belongs to.
pub open spec fn package_of(index: Map<Seq<char>, Seq<char>>, path: Seq<char>) -> Option<Seq<char>> {
    package_of_dir(index, first_dir(path))
}

/// The names of packages by their directories.
#[derive(Debug)]
pub struct PackageIndex {
    pub package_name_by_dir: NameMap,
}

impl View for PackageIndex {
    type V = Map<Seq<char>, Seq<char>>;

    open spec fn view(&self) -> Map<Seq<char>, Seq<char>> {
        self.package_name_by_dir@
    }
}

fn make_dir_key(dir: &str) -> (r: String)
    ensures
        r@ == dir_key(dir@),
{
    if text::same(dir, ".") {
        String::new()
    } else {
        text::replace_char(dir, '\\', '/')
    }
}

fn at_top(dir: &str) -> (r: bool)
    ensures
        r == is_top(dir@),
{
    let parts = paths::components_of(dir);
    assert(text::views(parts@).len() == parts@.len());
    if parts.len() == 0 {
        assert(text::views(parts@) =~= Seq::empty());
        true
    } else if parts.len() == 1 && text::same(parts[0].as_str(), ".") {
        assert(text::views(parts@) =~= seq!["."@]);
        true
    } else {
        if parts.len() == 1 {
            assert(text::views(parts@)[0] != "."@);
        }
        false
    }
}

impl PackageIndex {
    /// An index without packages.
    pub fn new() -> (r: Self)
        ensures
            r@ == Map::<Seq<char>, Seq<char>>::empty(),
    {
        PackageIndex { package_name_by_dir: NameMap::new() }
    }

    /// Notes the package of a directory, where its name is known and not empty.
    pub fn add(&mut self, dir: &str, package: &Option<PackageJsonName>)
        ensures
            final(self)@ == match named(*package) {
                Some(name) => old(self)@.insert(dir@, name),
                None => old(self)@,
            },
    {
        if let Some(name) = package_name(package) {
            self.package_name_by_dir.insert(dir, name.as_str());
        }
    }

    /// The package that a file belongs to: that of the nearest directory above it.
    pub fn find_package_name(&self, relative_path: &str) -> (r: Option<&str>)
        ensures
            r is Some <==> package_of(self@, relative_path@) is Some,
            r matches Some(name) ==> package_of(self@, relative_path@) == Some(name@),
    {
        let mut current = match paths::parent_of(relative_path) {
            Some(parent) => parent,
            None => relative_path.to_owned(),
        };
        loop
            invariant
                package_of_dir(self@, current@) == package_of(self@, relative_path@),
            decreases current@.len(),
        {
            let key = make_dir_key(current.as_str());
            if let Some(name) = self.package_name_by_dir.get(key.as_str()) {
                return Some(name);
            }
            if at_top(current.as_str()) {
                proof {
                    reveal_strlit("");
                    assert(""@ =~= Seq::empty());
                }
                return self.package_name_by_dir.get("");
            }
            proof {
                paths::parent_is_shorter(current@);
            }
            match paths::parent_of(current.as_str()) {
                Some(parent) => {
                    current = parent;
                },
                None => {
                    return None;
                },
            }
        }
    }
}

impl Default for PackageIndex {
    fn default() -> (r: Self)
        ensures
            r@ == Map::<Seq<char>, Seq<char>>::empty(),
    {
        PackageIndex::new()
    }
}

/// Files of one directory belong to the same package.
pub proof fn neighbours_share_a_package(
    index: Map<Seq<char>, Seq<char>>,
    p: Seq<char>,
    q: Seq<char>,
)
    requires
        paths::parent(p) is Some,
        paths::parent(p) == paths::parent(q),
    ensures
        package_of(index, p) == package_of(index, q),
{
}

/// A package in a file's own directory is the file's package, whatever lies above.
pub proof fn own_directory_comes_first(index: Map<Seq<char>, Seq<char>>, p: Seq<char>)
    requires
        paths::parent(p) is Some,
        index.contains_key(dir_key(paths::parent(p)->0)),
    ensures
        package_of(index, p) == Some(index[dir_key(paths::parent(p)->0)]),
{
}

/// A file whose directory is not in the table, and is not the top, belongs to the package
/// that the files of the directory above belong to; and so on upwards, however deep it
/// lies.
pub proof fn packages_are_inherited(
    index: Map<Seq<char>, Seq<char>>,
    p: Seq<char>,
    q: Seq<char>,
)
    requires
        paths::parent(p) matches Some(dir) && !index.contains_key(text::replaced(dir, '\\', '/'))
            && paths::components(dir) != Seq::<Seq<char>>::empty() && paths::components(dir) != seq![
            "."@,
        ] && paths::parent(dir) is Some && paths::parent(q) == paths::parent(dir),
    ensures
        package_of(index, p) == package_of(index, q),
{
    let dir = paths::parent(p)->0;
    if dir == "."@ {
        lemma_dot_is_top();
    }
}

proof fn lemma_dot_is_top()
    ensures
        paths::components("."@) == seq!["."@],
{
    reveal_strlit(".");
    let dot = "."@;
    text::lemma_first_index(dot, '/');
    assert(text::split(dot, '/') == seq![dot]);
    let pred = |part: Seq<char>| paths::counts(part);
    assert(!pred(dot));
    assert(seq![dot].filter(pred) =~= Seq::empty()) by {
        reveal(Seq::filter);
        reveal_with_fuel(Seq::filter, 2);
        assert(seq![dot].drop_last() =~= Seq::empty());
    }
    assert(paths::components(dot) =~= seq![dot]);
}

/// A file belongs to the package of the deepest directory above it that has one: the
/// directory of its first `k` names, when that is in the table and no directory of more of
/// its names is. The top is the directory of none.
pub proof fn nearest_package_above_is_taken(
    index: Map<Seq<char>, Seq<char>>,
    names: Seq<Seq<char>>,
    k: int,
)
    requires
        0 <= k < names.len(),
        paths::plain_names(names),
        forall|i: int| 0 <= i < names.len() ==> !(#[trigger] names[i]).contains('\\'),
        index.contains_key(text::join(names.take(k), seq!['/'])),
        forall|m: int|
            k < m < names.len() ==> !index.contains_key(
                text::join(#[trigger] names.take(m), seq!['/']),
            ),
    ensures
        package_of(index, text::join(names, seq!['/'])) == Some(
            index[text::join(names.take(k), seq!['/'])],
        ),
{
    let n = names.len() as int;
    paths::parent_drops_the_last_name(names);
    assert(names.drop_last() =~= names.take(n - 1));
    lemma_nearest(index, names, k, n - 1);
}

/// A file belongs to no package only if no directory above it, the top among them, has one.
pub proof fn files_without_packages_above_have_none(
    index: Map<Seq<char>, Seq<char>>,
    names: Seq<Seq<char>>,
)
    requires
        names.len() > 0,
        paths::plain_names(names),
        forall|i: int| 0 <= i < names.len() ==> !(#[trigger] names[i]).contains('\\'),
    ensures
        package_of(index, text::join(names, seq!['/'])) is None <==> forall|m: int|
            0 <= m < names.len() ==> !index.contains_key(
                text::join(#[trigger] names.take(m), seq!['/']),
            ),
{
    let n = names.len() as int;
    paths::parent_drops_the_last_name(names);
    assert(names.drop_last() =~= names.take(n - 1));
    lemma_no_package(index, names, n - 1);
}

/// The table knows the directory of the first `m` names by their path, and only that of none
/// is the top.
proof fn lemma_named_dir(names: Seq<Seq<char>>, m: int)
    requires
        0 <= m <= names.len(),
        paths::plain_names(names),
        forall|i: int| 0 <= i < names.len() ==> !(#[trigger] names[i]).contains('\\'),
    ensures
        paths::plain_names(names.take(m)),
        dir_key(text::join(names.take(m), seq!['/'])) == text::join(names.take(m), seq!['/']),
        is_top(text::join(names.take(m), seq!['/'])) <==> m == 0,
        m > 0 ==> paths::parent(text::join(names.take(m), seq!['/'])) == Some(
            text::join(names.take(m - 1), seq!['/']),
        ),
{
    let part = names.take(m);
    let dir = text::join(part, seq!['/']);
    assert forall|i: int| 0 <= i < part.len() implies (#[trigger] part[i]).len() > 0 && part[i]
        != seq!['.'] && !part[i].contains('/') && !part[i].contains('\\') by {
        assert(part[i] == names[i]);
    }
    paths::components_are_the_names(part);
    lemma_no_backslash(part);
    reveal_strlit(".");
    assert("."@ =~= seq!['.']);
    assert(text::replaced(dir, '\\', '/') =~= dir) by {
        assert forall|i: int| 0 <= i < dir.len() implies dir[i] != '\\' by {
            assert(dir.contains(dir[i]));
        }
    }
    if m > 0 {
        assert(part[0] == names[0]);
        assert(part != seq!["."@]) by {
            if part == seq!["."@] {
                assert(part[0] == "."@);
            }
        }
        if dir == "."@ {
            lemma_dot_is_top();
        }
        assert(part.len() == m);
        paths::parent_drops_the_last_name(part);
        assert(part.drop_last() =~= names.take(m - 1));
    } else {
        assert(part =~= Seq::empty());
        assert(dir =~= Seq::empty());
    }
}

proof fn lemma_no_backslash(names: Seq<Seq<char>>)
    requires
        forall|i: int| 0 <= i < names.len() ==> !(#[trigger] names[i]).contains('\\'),
    ensures
        !text::join(names, seq!['/']).contains('\\'),
    decreases names.len(),
{
    if names.len() > 1 {
        let upper = names.drop_last();
        assert forall|i: int| 0 <= i < upper.len() implies !(#[trigger] upper[i]).contains(
            '\\',
        ) by {
            assert(upper[i] == names[i]);
        }
        lemma_no_backslash(upper);
        let dir = text::join(upper, seq!['/']);
        let path = dir + seq!['/'] + names.last();
        assert(names.last() == names[names.len() - 1]);
        assert forall|i: int| 0 <= i < path.len() implies path[i] != '\\' by {
            if i < dir.len() {
                assert(dir.contains(dir[i]));
            } else if i > dir.len() {
                assert(names.last().contains(names.last()[i - dir.len() - 1]));
            }
        }
    }
}

proof fn lemma_nearest(
    index: Map<Seq<char>, Seq<char>>,
    names: Seq<Seq<char>>,
    k: int,
    m: int,
)
    requires
        0 <= k <= m < names.len(),
        paths::plain_names(names),
        forall|i: int| 0 <= i < names.len() ==> !(#[trigger] names[i]).contains('\\'),
        index.contains_key(text::join(names.take(k), seq!['/'])),
        forall|j: int|
            k < j < names.len() ==> !index.contains_key(
                text::join(#[trigger] names.take(j), seq!['/']),
            ),
    ensures
        package_of_dir(index, text::join(names.take(m), seq!['/'])) == Some(
            index[text::join(names.take(k), seq!['/'])],
        ),
    decreases m,
{
    lemma_named_dir(names, m);
    if k < m {
        assert(!index.contains_key(text::join(names.take(m), seq!['/'])));
        lemma_nearest(index, names, k, m - 1);
    }
}

proof fn lemma_no_package(index: Map<Seq<char>, Seq<char>>, names: Seq<Seq<char>>, m: int)
    requires
        0 <= m < names.len(),
        paths::plain_names(names),
        forall|i: int| 0 <= i < names.len() ==> !(#[trigger] names[i]).contains('\\'),
    ensures
        package_of_dir(index, text::join(names.take(m), seq!['/'])) is None <==> forall|j: int|
            0 <= j <= m ==> !index.contains_key(text::join(#[trigger] names.take(j), seq!['/'])),
    decreases m,
{
    lemma_named_dir(names, m);
    if m > 0 {
        lemma_no_package(index, names, m - 1);
    } else {
        assert(names.take(0) =~= Seq::empty());
        assert(text::join(names.take(0), seq!['/']) =~= Seq::empty());
    }
}

/// What a package file says of the package's name.
#[derive(Debug)]
pub struct PackageJsonName {
    /// The name, where one is given.
    pub name: Option<String>,
}

/// The name of a package whose file could be read, unless it is empty.
pub open spec fn named(package: Option<PackageJsonName>) -> Option<Seq<char>> {
    match package {
        Some(p) => match p.name {
            Some(n) => if n@.len() > 0 {
                Some(n@)
            } else {
                None
            },
            None => None,
        },
        None => None,
    }
}

/// The name of a package whose file could be read, unless it is empty.
pub fn package_name(package: &Option<PackageJsonName>) -> (r: Option<String>)
    ensures
        text::view_opt(r) == named(*package),
{
    if let Some(p) = package {
        if let Some(n) = &p.name {
            if !n.as_str().is_empty() {
                return Some(n.clone());
            }
        }
    }
    None
}

/// The directory of a package file; other files have none.
pub open spec fn package_dir(path: Seq<char>) -> Option<Seq<char>> {
    let file = "package.json"@;
    if path == file {
        Some(Seq::empty())
    } else if (seq!['/'] + file).is_suffix_of(path) {
        Some(path.take(path.len() - file.len() - 1))
    } else {
        None
    }
}

/// The directory of a package file, see [`package_dir`].
pub fn package_directory(path: &str) -> (r: Option<String>)
    ensures
        text::view_opt(r) == package_dir(path@),
{
    proof {
        reveal_strlit("package.json");
        reveal_strlit("/package.json");
        assert("/package.json"@ =~= seq!['/'] + "package.json"@);
    }
    if text::same(path, "package.json") {
        let none = String::new();
        assert(none@ =~= Seq::empty());
        return Some(none);
    }
    if text::ends_with(path, "/package.json") {
        let cs = text::chars(path);
        let dir = text::part_of(&cs, 0, cs.len() - 13);
        assert(dir@ =~= path@.take(path@.len() - 13));
        return Some(dir);
    }
    None
}

/// Whether a file or a directory is hidden.
pub fn is_hidden(name: &str) -> (r: bool)
    ensures
        r == (name@.len() > 0 && name@[0] == '.'),
{
    text::starts_with_char(name, '.')
}

/// The blobs of the files of a working tree, by path.
#[derive(Debug)]
pub struct WorkingTreeBlobMap {
    pub blobs_by_path: NameMap,
}

/// What git says of a tracked file: the blob and the path, with a tab between them.
pub open spec fn tracked_file(entry: Seq<char>) -> Option<(Seq<char>, Seq<char>)> {
    let line = text::trimmed(entry);
    let n = text::first_index(line, '\t');
    if n < line.len() {
        Some((text::after(line, n + 1), line.take(n)))
    } else {
        None
    }
}

/// The blobs of the tracked files, given git's list of them; entries end with a NUL.
pub open spec fn tracked_blobs(entries: Seq<Seq<char>>) -> Map<Seq<char>, Seq<char>>
    decreases entries.len(),
{
    if entries.len() == 0 {
        Map::empty()
    } else {
        let before = tracked_blobs(entries.drop_last());
        match tracked_file(entries.last()) {
            Some((path, blob)) => before.insert(path, blob),
            None => before,
        }
    }
}

/// Reads git's list of the tracked files.
pub fn parse_tracked(output: &str) -> (r: NameMap)
    ensures
        r@ == tracked_blobs(text::split(output@, '\0')),
{
    let entries = text::split_on(output, '\0');
    let ghost all = text::split(output@, '\0');
    let mut map = NameMap::new();
    let n: usize = entries.len();
    for i in 0..n
        invariant
            n == entries@.len(),
            all == text::views(entries@),
            map@ == tracked_blobs(all.take(i as int)),
    {
        assert(all.take(i + 1).drop_last() =~= all.take(i as int));
        assert(all[i as int] == entries@[i as int]@);
        let line = text::trim(entries[i].as_str());
        let cs = text::chars(line.as_str());
        let tab: usize = text::find_char(&cs, '\t');
        proof {
            text::lemma_first_index(line@, '\t');
        }
        if tab < cs.len() {
            let blob = text::part_of(&cs, 0, tab);
            let path = text::part_of(&cs, tab + 1, cs.len());
            assert(blob@ =~= line@.take(tab as int));
            assert(path@ =~= text::after(line@, tab + 1));
            map.insert(path.as_str(), blob.as_str());
        }
    }
    assert(all.take(n as int) =~= all);
    map
}

/// A file of the working tree that differs from what git has of it.
#[derive(Debug)]
pub struct DirtyEntry {
    /// Path in the repository.
    pub path: String,
    /// The file exists; it was changed or is new.
    pub exists_in_worktree: bool,
}

impl View for DirtyEntry {
    type V = (Seq<char>, bool);

    open spec fn view(&self) -> (Seq<char>, bool) {
        (self.path@, self.exists_in_worktree)
    }
}

/// What entries stand for.
pub open spec fn dirty_views(entries: Seq<DirtyEntry>) -> Seq<(Seq<char>, bool)> {
    entries.map_values(|e: DirtyEntry| e@)
}

/// Whether a part of git's status can be taken apart: it is too short to be looked at, or its
/// first two and its first three bytes end with a character.
pub open spec fn status_part(part: Seq<char>) -> bool {
    text::byte_len(part) < 3 || text::cut(part, 2) is Some && text::cut(part, 3) is Some
}

/// Whether git's status can be taken apart.
pub open spec fn is_status(output: Seq<char>) -> bool {
    let parts = text::split(output, '\0');
    forall|i: int| 0 <= i < parts.len() ==> status_part(#[trigger] parts[i])
}

/// What a part of git's status says: two letters, a space and a path. A file counts that is
/// untracked, or whose second letter says that it was modified or deleted.
pub open spec fn dirty_file(part: Seq<char>) -> Option<(Seq<char>, bool)> {
    if text::byte_len(part) < 3 {
        None
    } else {
        let xy = part.take(text::cut(part, 2)->0);
        let path = text::after(part, text::cut(part, 3)->0);
        if xy == seq!['?', '?'] {
            Some((path, true))
        } else if xy.len() > 1 && xy[1] == 'M' {
            Some((path, true))
        } else if xy.len() > 1 && xy[1] == 'D' {
            Some((path, false))
        } else {
            None
        }
    }
}

/// The files that differ, in git's order.
pub open spec fn dirty_files(parts: Seq<Seq<char>>) -> Seq<(Seq<char>, bool)>
    decreases parts.len(),
{
    if parts.len() == 0 {
        Seq::empty()
    } else {
        let before = dirty_files(parts.drop_last());
        match dirty_file(parts.last()) {
            Some(entry) => before.push(entry),
            None => before,
        }
    }
}

/// Whether git's status can be taken apart, see [`is_status`].
pub fn check_status(output: &str) -> (r: bool)
    ensures
        r == is_status(output@),
{
    let parts = text::split_on(output, '\0');
    let ghost all = text::split(output@, '\0');
    let n: usize = parts.len();
    for i in 0..n
        invariant
            n == parts@.len(),
            all == text::split(output@, '\0'),
            all == text::views(parts@),
            forall|j: int| 0 <= j < i ==> status_part(#[trigger] all[j]),
    {
        assert(all[i as int] == parts@[i as int]@);
        let part = parts[i].as_str();
        let cs = text::chars(part);
        if text::len_in_bytes(part) >= 3 && (text::cut_at(&cs, 2).is_none() || text::cut_at(
            &cs,
            3,
        ).is_none()) {
            assert(!status_part(all[i as int]));
            return false;
        }
    }
    true
}

fn read_dirty(part: &str) -> (r: Option<DirtyEntry>)
    requires
        status_part(part@),
    ensures
        match r {
            Some(e) => dirty_file(part@) == Some(e@),
            None => dirty_file(part@) is None,
        },
{
    if text::len_in_bytes(part) < 3 {
        return None;
    }
    let cs = text::chars(part);
    let (Some(letters), Some(space)) = (text::cut_at(&cs, 2), text::cut_at(&cs, 3)) else {
        return None;
    };
    let path = text::part_of(&cs, space, cs.len());
    assert(path@ =~= text::after(part@, space as int));
    let ghost xy = part@.take(letters as int);
    if letters < 2 {
        assert(xy.len() < seq!['?', '?'].len());
        return None;
    }
    proof {
        lemma_two_letters(part@);
        assert(xy =~= seq![cs@[0], cs@[1]]);
    }
    if cs[0] == '?' && cs[1] == '?' || cs[1] == 'M' {
        Some(DirtyEntry { path, exists_in_worktree: true })
    } else if cs[1] == 'D' {
        Some(DirtyEntry { path, exists_in_worktree: false })
    } else {
        assert(xy != seq!['?', '?']) by {
            if xy == seq!['?', '?'] {
                assert(xy[0] == '?' && xy[1] == '?');
            }
        }
        None
    }
}

proof fn lemma_two_letters(part: Seq<char>)
    ensures
        text::cut(part, 2) matches Some(k) ==> k <= 2,
{
    reveal_with_fuel(text::cut, 4);
}

/// Reads git's status.
pub fn parse_status(output: &str) -> (r: Vec<DirtyEntry>)
    requires
        is_status(output@),
    ensures
        dirty_views(r@) == dirty_files(text::split(output@, '\0')),
{
    let parts = text::split_on(output, '\0');
    let ghost all = text::split(output@, '\0');
    let mut out: Vec<DirtyEntry> = Vec::new();
    let n: usize = parts.len();
    assert(dirty_views(out@) =~= dirty_files(all.take(0)));
    for i in 0..n
        invariant
            n == parts@.len(),
            all == text::split(output@, '\0'),
            all == text::views(parts@),
            is_status(output@),
            dirty_views(out@) == dirty_files(all.take(i as int)),
    {
        let ghost before = out@;
        assert(all.take(i + 1).drop_last() =~= all.take(i as int));
        assert(all[i as int] == parts@[i as int]@);
        assert(status_part(all[i as int]));
        if let Some(entry) = read_dirty(parts[i].as_str()) {
            out.push(entry);
            assert(dirty_views(out@) =~= dirty_views(before).push(entry@));
        }
    }
    assert(all.take(n as int) =~= all);
    out
}

/// The files that are still there once the deleted ones are gone.
pub open spec fn without_deleted(
    listed: Map<Seq<char>, Seq<char>>,
    dirty: Seq<(Seq<char>, bool)>,
) -> Map<Seq<char>, Seq<char>>
    decreases dirty.len(),
{
    if dirty.len() == 0 {
        listed
    } else {
        let before = without_deleted(listed, dirty.drop_last());
        if dirty.last().1 {
            before
        } else {
            before.remove(dirty.last().0)
        }
    }
}

/// The files whose content has to be looked at, each once, in the order of the first mention.
pub open spec fn to_hash(dirty: Seq<(Seq<char>, bool)>) -> Seq<Seq<char>>
    decreases dirty.len(),
{
    if dirty.len() == 0 {
        Seq::empty()
    } else {
        let before = to_hash(dirty.drop_last());
        if dirty.last().1 && !before.contains(dirty.last().0) {
            before.push(dirty.last().0)
        } else {
            before
        }
    }
}

/// The files whose content has to be looked at, see [`to_hash`].
pub fn paths_to_hash(dirty: &Vec<DirtyEntry>) -> (r: Vec<String>)
    ensures
        text::views(r@) == to_hash(dirty_views(dirty@)),
{
    let mut out: Vec<String> = Vec::new();
    let mut seen = NameSet::new();
    let ghost all = dirty_views(dirty@);
    let n: usize = dirty.len();
    assert(text::views(out@) =~= to_hash(all.take(0)));
    assert(text::views(out@).to_set() =~= Set::empty());
    for i in 0..n
        invariant
            n == dirty@.len(),
            all == dirty_views(dirty@),
            text::views(out@) == to_hash(all.take(i as int)),
            seen@ == text::views(out@).to_set(),
    {
        let ghost before = text::views(out@);
        assert(all.take(i + 1).drop_last() =~= all.take(i as int));
        assert(all[i as int] == dirty@[i as int]@);
        let path = dirty[i].path.as_str();
        if dirty[i].exists_in_worktree && !seen.contains(path) {
            out.push(path.to_owned());
            seen.insert(path);
            proof {
                assert(text::views(out@) =~= before.push(path@));
                assert forall|s: Seq<char>| before.push(path@).to_set().contains(s)
                    == before.to_set().insert(path@).contains(s) by {
                    broadcast use vstd::seq_lib::group_seq_properties;

                }
                assert(seen@ =~= text::views(out@).to_set());
            }
        }
    }
    assert(all.take(n as int) =~= all);
    out
}

fn remove_deleted(listed: &mut NameMap, dirty: &Vec<DirtyEntry>)
    ensures
        final(listed)@ == without_deleted(old(listed)@, dirty_views(dirty@)),
{
    let ghost all = dirty_views(dirty@);
    let ghost start = listed@;
    let n: usize = dirty.len();
    for i in 0..n
        invariant
            n == dirty@.len(),
            all == dirty_views(dirty@),
            listed@ == without_deleted(start, all.take(i as int)),
    {
        assert(all.take(i + 1).drop_last() =~= all.take(i as int));
        assert(all[i as int] == dirty@[i as int]@);
        if !dirty[i].exists_in_worktree {
            listed.remove(dirty[i].path.as_str());
        }
    }
    assert(all.take(n as int) =~= all);
}

/// Blobs by path, once the blobs of some paths are known.
pub open spec fn with_hashes(
    listed: Map<Seq<char>, Seq<char>>,
    paths: Seq<Seq<char>>,
    blobs: Seq<Seq<char>>,
) -> Map<Seq<char>, Seq<char>>
    decreases paths.len(),
{
    if paths.len() == 0 {
        listed
    } else {
        with_hashes(listed, paths.drop_last(), blobs.drop_last()).insert(
            paths.last(),
            blobs.last(),
        )
    }
}

/// The blobs of a working tree, given git's list of tracked files, its status, and the blobs
/// that it computes for the files that differ, one on each line.
pub open spec fn working_blobs(
    listed: Seq<char>,
    status: Seq<char>,
    hashes: Seq<char>,
) -> Result<Map<Seq<char>, Seq<char>>, Seq<char>> {
    let dirty = dirty_files(text::split(status, '\0'));
    let left = without_deleted(tracked_blobs(text::split(listed, '\0')), dirty);
    let paths = to_hash(dirty);
    let blobs = text::lines(hashes);
    if paths.len() == 0 {
        Ok(left)
    } else if blobs.len() != paths.len() {
        Err(
            "git hash-object returned "@ + text::decimal(blobs.len()) + " blob IDs for "@
                + text::decimal(paths.len()) + " paths"@,
        )
    } else {
        Ok(with_hashes(left, paths, blobs))
    }
}

fn add_hashes(map: &mut NameMap, paths: &Vec<String>, blobs: &Vec<String>)
    requires
        paths@.len() == blobs@.len(),
    ensures
        final(map)@ == with_hashes(old(map)@, text::views(paths@), text::views(blobs@)),
{
    let ghost (p, b) = (text::views(paths@), text::views(blobs@));
    let ghost start = map@;
    let n: usize = paths.len();
    for i in 0..n
        invariant
            n == paths@.len() == blobs@.len(),
            p == text::views(paths@),
            b == text::views(blobs@),
            map@ == with_hashes(start, p.take(i as int), b.take(i as int)),
    {
        assert(p.take(i + 1).drop_last() =~= p.take(i as int));
        assert(b.take(i + 1).drop_last() =~= b.take(i as int));
        assert(p[i as int] == paths@[i as int]@);
        assert(b[i as int] == blobs@[i as int]@);
        map.insert(paths[i].as_str(), blobs[i].as_str());
    }
    assert(p.take(n as int) =~= p);
    assert(b.take(n as int) =~= b);
}

/// Finds the blobs of a working tree from what git printed, see [`working_blobs`].
pub fn combine_working_tree(listed: &str, status: &str, hashes: &str) -> (r: Result<
    WorkingTreeBlobMap,
    Failure,
>)
    requires
        is_status(status@),
    ensures
        match r {
            Ok(map) => working_blobs(listed@, status@, hashes@) == Ok::<_, Seq<char>>(
                map.blobs_by_path@,
            ),
            Err(e) => working_blobs(listed@, status@, hashes@) == Err::<
                Map<Seq<char>, Seq<char>>,
                _,
            >(e@),
        },
{
    let mut map = parse_tracked(listed);
    let dirty = parse_status(status);
    remove_deleted(&mut map, &dirty);
    let paths = paths_to_hash(&dirty);
    assert(text::views(paths@).len() == paths@.len());
    if paths.len() > 0 {
        let blobs = text::split_lines(hashes);
        assert(text::views(blobs@).len() == blobs@.len());
        if blobs.len() != paths.len() {
            let mut message = text::around_number(
                "git hash-object returned ",
                blobs.len() as u64,
                " blob IDs for ",
            );
            text::push_decimal(&mut message, paths.len() as u64);
            message.append(" paths");
            return Err(failure(message));
        }
        add_hashes(&mut map, &paths, &blobs);
    }
    Ok(WorkingTreeBlobMap { blobs_by_path: map })
}

/// Finds the blobs of a working tree from the bytes that git printed; nothing is found where
/// its status cannot be taken apart.
pub fn build_working_tree_blob_map(listed: &[u8], status: &[u8], hashes: &[u8]) -> (r: Option<
    Result<WorkingTreeBlobMap, Failure>,
>)
    ensures
        match r {
            None => !is_status(text::lossy_utf8(status@)),
            Some(Ok(map)) => is_status(text::lossy_utf8(status@)) && working_blobs(
                text::lossy_utf8(listed@),
                text::lossy_utf8(status@),
                text::lossy_utf8(hashes@),
            ) == Ok::<_, Seq<char>>(map.blobs_by_path@),
            Some(Err(e)) => is_status(text::lossy_utf8(status@)) && working_blobs(
                text::lossy_utf8(listed@),
                text::lossy_utf8(status@),
                text::lossy_utf8(hashes@),
            ) == Err::<Map<Seq<char>, Seq<char>>, _>(e@),
        },
{
    let status_text = text::decode_lossy(status);
    if !check_status(status_text.as_str()) {
        return None;
    }
    Some(
        combine_working_tree(
            text::decode_lossy(listed).as_str(),
            status_text.as_str(),
            text::decode_lossy(hashes).as_str(),
        ),
    )
}

/// The entries for the files of a walk: those that git knows of.
pub open spec fn known_files(map: Map<Seq<char>, Seq<char>>, walk: Seq<Seq<char>>) -> Seq<
    (Seq<char>, Seq<char>),
>
    decreases walk.len(),
{
    if walk.len() == 0 {
        Seq::empty()
    } else {
        let before = known_files(map, walk.drop_last());
        let path = text::replaced(walk.last(), '\\', '/');
        if map.contains_key(path) {
            before.push((path, map[path]))
        } else {
            before
        }
    }
}

/// The entries for the files that a walk through a working directory found.
pub fn enumerate_working_directory(map: &WorkingTreeBlobMap, walk: &Vec<String>) -> (r: Vec<
    WorkingDirEntry,
>)
    ensures
        working_views(r@) == known_files(map.blobs_by_path@, text::views(walk@)),
{
    let mut out: Vec<WorkingDirEntry> = Vec::new();
    let ghost all = text::views(walk@);
    let n: usize = walk.len();
    assert(working_views(out@) =~= known_files(map.blobs_by_path@, all.take(0)));
    for i in 0..n
        invariant
            n == walk@.len(),
            all == text::views(walk@),
            working_views(out@) == known_files(map.blobs_by_path@, all.take(i as int)),
    {
        let ghost before = out@;
        assert(all.take(i + 1).drop_last() =~= all.take(i as int));
        assert(all[i as int] == walk@[i as int]@);
        let path = text::replace_char(walk[i].as_str(), '\\', '/');
        if let Some(blob) = map.blobs_by_path.get(path.as_str()) {
            let entry = WorkingDirEntry { relative_path: path, blob_id: blob.to_owned() };
            out.push(entry);
            assert(working_views(out@) =~= working_views(before).push(entry@));
        }
    }
    assert(all.take(n as int) =~= all);
    out
}

/// A tracked file that git does not list as changed keeps the blob that git has of it.
pub proof fn unchanged_files_keep_their_blobs(
    listed: Seq<char>,
    status: Seq<char>,
    hashes: Seq<char>,
    path: Seq<char>,
)
    requires
        working_blobs(listed, status, hashes) is Ok,
        forall|i: int|
            0 <= i < dirty_files(text::split(status, '\0')).len() ==> (#[trigger] dirty_files(
                text::split(status, '\0'),
            )[i]).0 != path,
    ensures
        ({
            let before = tracked_blobs(text::split(listed, '\0'));
            let after = working_blobs(listed, status, hashes)->Ok_0;
            &&& before.contains_key(path) <==> after.contains_key(path)
            &&& before.contains_key(path) ==> after[path] == before[path]
        }),
{
    let dirty = dirty_files(text::split(status, '\0'));
    let before = tracked_blobs(text::split(listed, '\0'));
    lemma_unmentioned_stays(before, dirty, path);
    lemma_unmentioned_is_not_hashed(dirty, path);
    let left = without_deleted(before, dirty);
    if to_hash(dirty).len() > 0 {
        lemma_unhashed_stays(left, to_hash(dirty), text::lines(hashes), path);
    }
}

proof fn lemma_unmentioned_stays(
    listed: Map<Seq<char>, Seq<char>>,
    dirty: Seq<(Seq<char>, bool)>,
    path: Seq<char>,
)
    requires
        forall|i: int| 0 <= i < dirty.len() ==> (#[trigger] dirty[i]).0 != path,
    ensures
        listed.contains_key(path) <==> without_deleted(listed, dirty).contains_key(path),
        listed.contains_key(path) ==> without_deleted(listed, dirty)[path] == listed[path],
    decreases dirty.len(),
{
    if dirty.len() > 0 {
        let rest = dirty.drop_last();
        assert forall|i: int| 0 <= i < rest.len() implies (#[trigger] rest[i]).0 != path by {
            assert(dirty[i] == rest[i]);
        }
        assert(dirty[dirty.len() - 1] == dirty.last());
        lemma_unmentioned_stays(listed, rest, path);
    }
}

proof fn lemma_unmentioned_is_not_hashed(dirty: Seq<(Seq<char>, bool)>, path: Seq<char>)
    requires
        forall|i: int| 0 <= i < dirty.len() ==> (#[trigger] dirty[i]).0 != path,
    ensures
        !to_hash(dirty).contains(path),
    decreases dirty.len(),
{
    if dirty.len() > 0 {
        let rest = dirty.drop_last();
        assert forall|i: int| 0 <= i < rest.len() implies (#[trigger] rest[i]).0 != path by {
            assert(dirty[i] == rest[i]);
        }
        assert(dirty[dirty.len() - 1] == dirty.last());
        lemma_unmentioned_is_not_hashed(rest, path);
        let now = to_hash(dirty);
        if now.contains(path) {
            let k = choose|k: int| 0 <= k < now.len() && now[k] == path;
            assert(to_hash(rest)[k] == path);
        }
    }
}

proof fn lemma_unhashed_stays(
    listed: Map<Seq<char>, Seq<char>>,
    paths: Seq<Seq<char>>,
    blobs: Seq<Seq<char>>,
    path: Seq<char>,
)
    requires
        !paths.contains(path),
        paths.len() == blobs.len(),
    ensures
        listed.contains_key(path) <==> with_hashes(listed, paths, blobs).contains_key(path),
        listed.contains_key(path) ==> with_hashes(listed, paths, blobs)[path] == listed[path],
    decreases paths.len(),
{
    if paths.len() > 0 {
        let rest = paths.drop_last();
        assert forall|k: int| 0 <= k < rest.len() implies rest[k] != path by {
            assert(paths[k] == rest[k]);
        }
        assert(paths[paths.len() - 1] == paths.last());
        lemma_unhashed_stays(listed, rest, blobs.drop_last(), path);
    }
}

/// Git says with two letters how a file differs, and behind a space which: a file that is new or
/// changed in the working tree exists, one that is deleted there does not, and others do not
/// count, whatever the index says of them.
pub proof fn second_letter_decides(x: char, y: char, path: Seq<char>)
    requires
        (x as u32) < 128,
        (y as u32) < 128,
    ensures
        ({
            let part = seq![x, y, ' '] + path;
            &&& status_part(part)
            &&& x == '?' && y == '?' ==> dirty_file(part) == Some((path, true))
            &&& y == 'M' ==> dirty_file(part) == Some((path, true))
            &&& y == 'D' ==> dirty_file(part) == Some((path, false))
            &&& y != 'M' && y != 'D' && !(x == '?' && y == '?') ==> dirty_file(part) is None
        }),
{
    let part = seq![x, y, ' '] + path;
    reveal_with_fuel(text::cut, 4);
    assert(part[0] == x && part[1] == y && part[2] == ' ');
    let one = part.drop_first();
    let two = one.drop_first();
    assert(one[0] == y && two[0] == ' ');
    assert(text::cut(part, 2) == Some(2int));
    assert(text::cut(part, 3) == Some(3int));
    text::lemma_more_bytes_than_chars(part);
    let xy = part.take(2);
    assert(xy =~= seq![x, y]);
    assert(xy[0] == x && xy[1] == y);
    assert(text::after(part, 3) =~= path);
}

/// A line of git's list names the blob before a tab and the path behind it.
pub proof fn tracked_files_have_blob_and_path(blob: Seq<char>, path: Seq<char>)
    requires
        blob.len() > 0,
        path.len() > 0,
        !text::whitespace(blob[0]),
        !text::whitespace(path.last()),
        !blob.contains('\t'),
    ensures
        tracked_file(blob + seq!['\t'] + path) == Some((path, blob)),
{
    let line = blob + seq!['\t'] + path;
    assert(line[0] == blob[0] && line.last() == path.last());
    assert(text::trim_start(line) == line);
    assert(text::trimmed(line) == line);
    let n = blob.len() as int;
    assert forall|i: int| 0 <= i < n implies line[i] != '\t' by {
        assert(line[i] == blob[i]);
        assert(blob.contains(blob[i]));
    }
    text::lemma_first_index_is(line, '\t', n);
    assert(line.take(n) =~= blob);
    assert(text::after(line, n + 1) =~= path);
}

/// The content of exactly those files is looked at that differ and exist, of each once.
pub proof fn existing_dirty_files_are_hashed(dirty: Seq<(Seq<char>, bool)>, path: Seq<char>)
    ensures
        to_hash(dirty).contains(path) <==> exists|i: int|
            0 <= i < dirty.len() && (#[trigger] dirty[i]) == (path, true),
        to_hash(dirty).no_duplicates(),
    decreases dirty.len(),
{
    if dirty.len() > 0 {
        let rest = dirty.drop_last();
        existing_dirty_files_are_hashed(rest, path);
        let before = to_hash(rest);
        let all = to_hash(dirty);
        let last = dirty.last();
        assert(dirty[dirty.len() - 1] == last);
        if before.contains(path) {
            let k = choose|k: int| 0 <= k < before.len() && before[k] == path;
            assert(all[k] == path);
            let i = choose|i: int| 0 <= i < rest.len() && (#[trigger] rest[i]) == (path, true);
            assert(dirty[i] == (path, true));
        }
        if last == (path, true) && !before.contains(path) {
            assert(all[before.len() as int] == path);
        }
        if all.contains(path) {
            let k = choose|k: int| 0 <= k < all.len() && all[k] == path;
            if k < before.len() {
                assert(before[k] == path);
            } else {
                assert(last == (path, true));
            }
        }
        if exists|i: int| 0 <= i < dirty.len() && (#[trigger] dirty[i]) == (path, true) {
            let i = choose|i: int| 0 <= i < dirty.len() && (#[trigger] dirty[i]) == (path, true);
            if i < rest.len() {
                assert(rest[i] == (path, true));
            }
        }
    }
}

/// A file that differs gets the blob that git computed for it, in the order in which the files
/// were asked for.
pub proof fn changed_files_get_new_blobs(
    listed: Seq<char>,
    status: Seq<char>,
    hashes: Seq<char>,
    k: int,
)
    requires
        working_blobs(listed, status, hashes) is Ok,
        0 <= k < to_hash(dirty_files(text::split(status, '\0'))).len(),
    ensures
        ({
            let path = to_hash(dirty_files(text::split(status, '\0')))[k];
            let map = working_blobs(listed, status, hashes)->Ok_0;
            map.contains_key(path) && map[path] == text::lines(hashes)[k]
        }),
{
    let dirty = dirty_files(text::split(status, '\0'));
    existing_dirty_files_are_hashed(dirty, Seq::empty());
    let left = without_deleted(tracked_blobs(text::split(listed, '\0')), dirty);
    lemma_hashed(left, to_hash(dirty), text::lines(hashes), k);
}

proof fn lemma_hashed(
    listed: Map<Seq<char>, Seq<char>>,
    paths: Seq<Seq<char>>,
    blobs: Seq<Seq<char>>,
    k: int,
)
    requires
        paths.no_duplicates(),
        paths.len() == blobs.len(),
        0 <= k < paths.len(),
    ensures
        with_hashes(listed, paths, blobs).contains_key(paths[k]),
        with_hashes(listed, paths, blobs)[paths[k]] == blobs[k],
    decreases paths.len(),
{
    if k < paths.len() - 1 {
        let rest = paths.drop_last();
        assert(rest.no_duplicates()) by {
            assert forall|i: int, j: int| 0 <= i < j < rest.len() implies rest[i] != rest[j] by {
                assert(paths[i] != paths[j]);
            }
        }
        lemma_hashed(listed, rest, blobs.drop_last(), k);
        assert(rest[k] == paths[k]);
        assert(paths[k] != paths[paths.len() - 1]);
    }
}

/// A file that is deleted, and not mentioned as existing, is not in the working tree.
pub proof fn deleted_files_are_gone(
    listed: Seq<char>,
    status: Seq<char>,
    hashes: Seq<char>,
    i: int,
)
    requires
        working_blobs(listed, status, hashes) is Ok,
        0 <= i < dirty_files(text::split(status, '\0')).len(),
        !dirty_files(text::split(status, '\0'))[i].1,
        forall|j: int|
            0 <= j < dirty_files(text::split(status, '\0')).len() ==> (#[trigger] dirty_files(
                text::split(status, '\0'),
            )[j]) != (dirty_files(text::split(status, '\0'))[i].0, true),
    ensures
        !working_blobs(listed, status, hashes)->Ok_0.contains_key(
            dirty_files(text::split(status, '\0'))[i].0,
        ),
{
    let dirty = dirty_files(text::split(status, '\0'));
    let path = dirty[i].0;
    let before = tracked_blobs(text::split(listed, '\0'));
    let left = without_deleted(before, dirty);
    lemma_deleted(before, dirty, i);
    existing_dirty_files_are_hashed(dirty, path);
    if to_hash(dirty).len() > 0 {
        lemma_unhashed_stays(left, to_hash(dirty), text::lines(hashes), path);
    }
}

proof fn lemma_deleted(listed: Map<Seq<char>, Seq<char>>, dirty: Seq<(Seq<char>, bool)>, i: int)
    requires
        0 <= i < dirty.len(),
        !dirty[i].1,
    ensures
        !without_deleted(listed, dirty).contains_key(dirty[i].0),
    decreases dirty.len(),
{
    if i < dirty.len() - 1 {
        lemma_deleted(listed, dirty.drop_last(), i);
        assert(dirty.drop_last()[i] == dirty[i]);
    }
}

/// The files of a walk that git knows of are taken, each with its blob, under a path with slashes;
/// others are left out.
pub proof fn known_files_are_taken(
    map: Map<Seq<char>, Seq<char>>,
    walk: Seq<Seq<char>>,
    entry: (Seq<char>, Seq<char>),
)
    ensures
        known_files(map, walk).contains(entry) <==> {
            &&& map.contains_key(entry.0)
            &&& map[entry.0] == entry.1
            &&& exists|i: int|
                0 <= i < walk.len() && text::replaced(#[trigger] walk[i], '\\', '/') == entry.0
        },
    decreases walk.len(),
{
    if walk.len() > 0 {
        let rest = walk.drop_last();
        known_files_are_taken(map, rest, entry);
        let before = known_files(map, rest);
        let all = known_files(map, walk);
        let path = text::replaced(walk.last(), '\\', '/');
        assert(walk[walk.len() - 1] == walk.last());
        if before.contains(entry) {
            let k = choose|k: int| 0 <= k < before.len() && before[k] == entry;
            assert(all[k] == entry);
            let i = choose|i: int|
                0 <= i < rest.len() && text::replaced(#[trigger] rest[i], '\\', '/') == entry.0;
            assert(walk[i] == rest[i]);
        }
        if map.contains_key(path) && entry == (path, map[path]) {
            assert(all[before.len() as int] == entry);
        }
        if all.contains(entry) {
            let k = choose|k: int| 0 <= k < all.len() && all[k] == entry;
            if k < before.len() {
                assert(before[k] == entry);
            }
        }
        if exists|i: int|
            0 <= i < walk.len() && text::replaced(#[trigger] walk[i], '\\', '/') == entry.0 {
            let i = choose|i: int|
                0 <= i < walk.len() && text::replaced(#[trigger] walk[i], '\\', '/') == entry.0;
            if i < rest.len() {
                assert(rest[i] == walk[i]);
            }
        }
    }
}

/// A package file is called `package.json`; its directory is what stands before that, and the top
/// for a file that lies there.
pub proof fn package_files_lie_in_their_directory(dir: Seq<char>, path: Seq<char>)
    ensures
        package_dir("package.json"@) == Some(Seq::<char>::empty()),
        package_dir(dir + "/package.json"@) == Some(dir),
        package_dir(path) is Some ==> path == "package.json"@ || "/package.json"@.is_suffix_of(
            path,
        ),
{
    reveal_strlit("package.json");
    reveal_strlit("/package.json");
    let file = "/package.json"@;
    assert(file =~= seq!['/'] + "package.json"@);
    let whole = dir + file;
    assert(whole.subrange(dir.len() as int, whole.len() as int) =~= file);
    assert(whole.take(dir.len() as int) =~= dir);
    assert(whole.len() >= 13);
}

/// The first part in which two versions differ decides which is older; parts that are missing
/// count as zero.
pub proof fn first_difference_decides(a: Seq<u32>, b: Seq<u32>, i: int)
    requires
        0 <= i,
        forall|j: int|
            0 <= j < i ==> (if j < a.len() {
                a[j]
            } else {
                0
            }) == #[trigger] version_part(b, j),
        i < a.len() || i < b.len(),
    ensures
        ({
            let x = if i < a.len() {
                a[i]
            } else {
                0
            };
            let y = if i < b.len() {
                b[i]
            } else {
                0
            };
            &&& x > y ==> not_older(a, b, 0)
            &&& x < y ==> !not_older(a, b, 0)
        }),
{
    lemma_same_so_far(a, b, 0, i);
}

proof fn lemma_same_so_far(a: Seq<u32>, b: Seq<u32>, k: int, i: int)
    requires
        0 <= k <= i,
        forall|j: int|
            k <= j < i ==> (if j < a.len() {
                a[j]
            } else {
                0
            }) == #[trigger] version_part(b, j),
        i < a.len() || i < b.len(),
    ensures
        not_older(a, b, k) == not_older(a, b, i),
    decreases i - k,
{
    if k < i {
        assert(version_part(a, k) == version_part(b, k));
        lemma_same_so_far(a, b, k + 1, i);
    }
}

/// Git is accepted exactly if it prints its version behind the words `git version` and that is not
/// older than 2.35.0.
pub proof fn accepted_git_versions(found: Seq<char>)
    requires
        found.len() > 0,
        !text::whitespace(found.last()),
    ensures
        git_version_error("git version "@ + found) is None <==> not_older(
            version(found),
            version("2.35.0"@),
            0,
        ),
{
    reveal_strlit("git version ");
    let line = "git version "@ + found;
    assert(line[0] == 'g' && line.last() == found.last());
    assert(text::trim_start(line) == line);
    assert(text::trimmed(line) == line);
    assert("git version "@ =~= line.subrange(0, 12));
    assert(text::after(line, 12) =~= found);
}

}
