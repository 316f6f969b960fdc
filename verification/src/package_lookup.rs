//! The package of a file, from the package files above it.
use crate::git_ops;
use crate::paths;
use crate::text;
use vstd::prelude::*;

verus! {

/// The directories above a file, from the nearest to the top.
pub open spec fn dirs_from(dir: Seq<char>) -> Seq<Seq<char>>
    decreases dir.len(),
{
    proof {
        paths::parent_is_shorter(dir);
    }
    match paths::parent(dir) {
        Some(parent) => seq![dir] + dirs_from(parent),
        None => seq![dir],
    }
}

/// The directories in which a package file is looked for, in this order.
pub open spec fn search_dirs(path: Seq<char>) -> Seq<Seq<char>> {
    dirs_from(git_ops::first_dir(path))
}

/// The directories in which the package file for a file is looked for.
pub fn candidate_directories(file_path: &str) -> (r: Vec<String>)
    ensures
        text::views(r@) == search_dirs(file_path@),
{
    let mut current = match paths::parent_of(file_path) {
        Some(parent) => parent,
        None => file_path.to_owned(),
    };
    let mut out: Vec<String> = Vec::new();
    assert(text::views(out@) + dirs_from(current@) =~= search_dirs(file_path@));
    loop
        invariant
            text::views(out@) + dirs_from(current@) == search_dirs(file_path@),
        decreases current@.len(),
    {
        let ghost before = text::views(out@);
        proof {
            paths::parent_is_shorter(current@);
        }
        let parent = paths::parent_of(current.as_str());
        out.push(current.clone());
        assert(text::views(out@) =~= before.push(current@));
        match parent {
            Some(p) => {
                assert(text::views(out@) + dirs_from(p@) =~= before + dirs_from(current@));
                current = p;
            },
            None => {
                assert(text::views(out@) =~= before + dirs_from(current@));
                return out;
            },
        }
    }
}

/// Position of the first occurrence of a text in another from a position on, or the length.
pub open spec fn find_from(s: Seq<char>, part: Seq<char>, i: int) -> int
    decreases s.len() - i,
{
    if i >= s.len() || text::occurs_at(s, part, i) {
        i
    } else {
        find_from(s, part, i + 1)
    }
}

/// What stands behind the first of a character in a text.
pub open spec fn behind(s: Seq<char>, c: char) -> Option<Seq<char>> {
    let n = text::first_index(s, c);
    if n < s.len() {
        Some(text::after(s, n + 1))
    } else {
        None
    }
}

/// The name in a package file: what is quoted behind the first colon that follows the first
/// key `name`.
pub open spec fn quoted_name(content: Seq<char>) -> Option<Seq<char>> {
    let key = "\"name\""@;
    let at = find_from(content, key, 0);
    if at >= content.len() {
        None
    } else {
        match behind(text::after(content, at + key.len()), ':') {
            None => None,
            Some(value) => match behind(value, '"') {
                None => None,
                Some(name) => {
                    let end = text::first_index(name, '"');
                    if end < name.len() {
                        Some(name.take(end))
                    } else {
                        None
                    }
                },
            },
        }
    }
}

fn find_part(cs: &Vec<char>, part: &Vec<char>) -> (r: usize)
    ensures
        r == find_from(cs@, part@, 0),
        r <= cs@.len(),
        r < cs@.len() ==> r + part@.len() <= cs@.len(),
{
    let n: usize = cs.len();
    for i in 0..n
        invariant
            n == cs@.len(),
            find_from(cs@, part@, 0) == find_from(cs@, part@, i as int),
    {
        if text::part_at(cs, part, i) {
            return i;
        }
    }
    n
}

fn find_char_from(cs: &Vec<char>, c: char, from: usize) -> (r: usize)
    requires
        from <= cs@.len(),
    ensures
        from <= r <= cs@.len(),
        r - from == text::first_index(text::after(cs@, from as int), c),
{
    let mut i: usize = from;
    let ghost tail = text::after(cs@, from as int);
    while i < cs.len() && cs[i] != c
        invariant
            from <= i <= cs@.len(),
            tail == text::after(cs@, from as int),
            forall|j: int| 0 <= j < i - from ==> #[trigger] tail[j] != c,
        decreases cs@.len() - i,
    {
        i = i + 1;
    }
    proof {
        text::lemma_first_index(tail, c);
        let k = text::first_index(tail, c);
        if k < i - from {
            assert(tail[k] != c);
        }
        if i < cs@.len() {
            assert(tail[i - from] == c);
        }
    }
    i
}

/// The name in a package file, see [`quoted_name`].
pub fn extract_package_name(content: &str) -> (r: Option<String>)
    ensures
        text::view_opt(r) == quoted_name(content@),
{
    let cs = text::chars(content);
    let key = text::chars("\"name\"");
    let n: usize = cs.len();
    let at: usize = find_part(&cs, &key);
    if at >= n {
        return None;
    }
    let after_key: usize = at + key.len();
    let colon: usize = find_char_from(&cs, ':', after_key);
    if colon >= n {
        return None;
    }
    proof {
        assert(text::after(text::after(cs@, after_key as int), colon - after_key + 1)
            =~= text::after(cs@, colon + 1));
    }
    let open: usize = find_char_from(&cs, '"', colon + 1);
    if open >= n {
        return None;
    }
    proof {
        assert(text::after(text::after(cs@, colon + 1), open - colon) =~= text::after(
            cs@,
            open + 1,
        ));
    }
    let close: usize = find_char_from(&cs, '"', open + 1);
    if close >= n {
        return None;
    }
    let name = text::part_of(&cs, open + 1, close);
    assert(name@ =~= text::after(cs@, open + 1).take(close - open - 1));
    Some(name)
}

/// The directory of a file as seen from the top of a repository; for a file outside of it,
/// the name of the file's directory.
pub open spec fn relative_dir(path: Seq<char>, root: Seq<char>) -> Seq<char> {
    match paths::stripped(path, root) {
        Some(rel) => text::replaced(git_ops::first_dir(rel), '\\', '/'),
        None => match paths::parent(path) {
            Some(dir) => match paths::file_name(dir) {
                Some(name) => name,
                None => "unknown"@,
            },
            None => "unknown"@,
        },
    }
}

/// The directory of a file as seen from the top of a repository, see [`relative_dir`].
pub fn strip_to_relative_path(file_path: &str, repo_root: &str) -> (r: String)
    ensures
        r@ == relative_dir(file_path@, repo_root@),
{
    match paths::strip_path(file_path, repo_root) {
        Some(rel) => {
            let dir = match paths::parent_of(rel.as_str()) {
                Some(parent) => parent,
                None => rel,
            };
            text::replace_char(dir.as_str(), '\\', '/')
        },
        None => {
            if let Some(dir) = paths::parent_of(file_path) {
                if let Some(name) = paths::file_name_of(dir.as_str()) {
                    return name;
                }
            }
            "unknown".to_owned()
        },
    }
}

/// What package files hold that were looked for.
pub open spec fn content_views(contents: Seq<Option<String>>) -> Seq<Option<Seq<char>>> {
    contents.map_values(|c: Option<String>| text::view_opt(c))
}

/// The first name among package files from a position on; a missing file has none.
pub open spec fn first_name(contents: Seq<Option<Seq<char>>>, i: int) -> Option<Seq<char>>
    decreases contents.len() - i,
{
    if i >= contents.len() {
        None
    } else {
        match contents[i] {
            Some(content) => match quoted_name(content) {
                Some(name) => Some(name),
                None => first_name(contents, i + 1),
            },
            None => first_name(contents, i + 1),
        }
    }
}

/// The package of a file. `contents` are the package files of the directories in which one
/// is looked for (see [`candidate_directories`]), where there are any. Without a name among
/// them, the file's directory stands for the package.
pub fn find_package_name(
    file_path: &str,
    repo_root: &str,
    contents: &Vec<Option<String>>,
) -> (r: String)
    ensures
        r@ == match first_name(content_views(contents@), 0) {
            Some(name) => name,
            None => relative_dir(file_path@, repo_root@),
        },
{
    let n: usize = contents.len();
    let ghost all = content_views(contents@);
    for i in 0..n
        invariant
            n == contents@.len(),
            all == content_views(contents@),
            first_name(all, i as int) == first_name(all, 0),
    {
        assert(all[i as int] == text::view_opt(contents@[i as int]));
        if let Some(content) = &contents[i] {
            if let Some(name) = extract_package_name(content.as_str()) {
                return name;
            }
        }
    }
    strip_to_relative_path(file_path, repo_root)
}

/// Package files are looked for from the file's own directory upwards, one directory after the
/// other, until there is none above.
pub proof fn directories_follow_each_other_upwards(dir: Seq<char>, k: int)
    requires
        0 <= k < dirs_from(dir).len(),
    ensures
        dirs_from(dir)[0] == dir,
        k + 1 < dirs_from(dir).len() ==> paths::parent(dirs_from(dir)[k]) == Some(
            dirs_from(dir)[k + 1],
        ),
        k + 1 == dirs_from(dir).len() ==> paths::parent(dirs_from(dir)[k]) is None,
    decreases dir.len(),
{
    paths::parent_is_shorter(dir);
    if let Some(parent) = paths::parent(dir) {
        let rest = dirs_from(parent);
        assert(dirs_from(dir) == seq![dir] + rest);
        lemma_some_dir(parent);
        directories_follow_each_other_upwards(
            parent,
            if k > 0 {
                k - 1
            } else {
                0
            },
        );
        if k > 0 {
            assert(dirs_from(dir)[k] == rest[k - 1]);
        }
        if k + 1 < dirs_from(dir).len() {
            assert(dirs_from(dir)[k + 1] == rest[k]);
        }
    }
}

proof fn lemma_some_dir(dir: Seq<char>)
    ensures
        dirs_from(dir).len() > 0,
{
}

/// The directories for a path that is made of names are those of its first names, from all but the
/// last down to none.
pub proof fn all_directories_above_are_searched(names: Seq<Seq<char>>, k: int)
    requires
        paths::plain_names(names),
        0 <= k < names.len(),
    ensures
        search_dirs(text::join(names, seq!['/'])).len() == names.len(),
        search_dirs(text::join(names, seq!['/']))[k] == text::join(
            names.take(names.len() - 1 - k),
            seq!['/'],
        ),
{
    let n = names.len() as int;
    paths::parent_drops_the_last_name(names);
    assert(names.drop_last() =~= names.take(n - 1));
    lemma_dirs_of_names(names, n - 1, k);
}

proof fn lemma_dirs_of_names(names: Seq<Seq<char>>, m: int, k: int)
    requires
        paths::plain_names(names),
        0 <= m < names.len(),
        0 <= k <= m,
    ensures
        dirs_from(text::join(names.take(m), seq!['/'])).len() == m + 1,
        dirs_from(text::join(names.take(m), seq!['/']))[k] == text::join(
            names.take(m - k),
            seq!['/'],
        ),
    decreases m,
{
    let part = names.take(m);
    let dir = text::join(part, seq!['/']);
    if m > 0 {
        assert forall|i: int| 0 <= i < part.len() implies (#[trigger] part[i]).len() > 0 && part[i]
            != seq!['.'] && !part[i].contains('/') by {
            assert(part[i] == names[i]);
        }
        paths::parent_drops_the_last_name(part);
        assert(part.drop_last() =~= names.take(m - 1));
        paths::parent_is_shorter(dir);
        let above = text::join(names.take(m - 1), seq!['/']);
        lemma_dirs_of_names(
            names,
            m - 1,
            if k > 0 {
                k - 1
            } else {
                0
            },
        );
        assert(dirs_from(dir) == seq![dir] + dirs_from(above));
        if k > 0 {
            assert(dirs_from(dir)[k] == dirs_from(above)[k - 1]);
        }
    } else {
        assert(part =~= Seq::empty());
        assert(dir =~= Seq::empty());
        assert(names.take(m - k) =~= part);
    }
}

/// The name of a package is what stands in quotes behind the colon of the first key `name`.
pub proof fn package_names_stand_behind_their_key(
    before: Seq<char>,
    gap: Seq<char>,
    space: Seq<char>,
    name: Seq<char>,
    rest: Seq<char>,
)
    requires
        !gap.contains(':'),
        !space.contains('"'),
        !name.contains('"'),
        forall|i: int|
            0 <= i < before.len() ==> !text::occurs_at(
                before + "\"name\""@ + gap + seq![':'] + space + seq!['"'] + name + seq!['"'] + rest,
                "\"name\""@,
                i,
            ),
    ensures
        quoted_name(
            before + "\"name\""@ + gap + seq![':'] + space + seq!['"'] + name + seq!['"'] + rest,
        ) == Some(name),
{
    let key = "\"name\""@;
    reveal_strlit("\"name\"");
    let content = before + key + gap + seq![':'] + space + seq!['"'] + name + seq!['"'] + rest;
    let at = before.len() as int;
    assert(content.subrange(at, at + key.len()) =~= key);
    assert(text::occurs_at(content, key, at));
    lemma_found(content, key, 0, at);
    let tail = name + seq!['"'] + rest;
    let value = space + seq!['"'] + tail;
    let pair = gap + seq![':'] + value;
    assert(text::after(content, at + key.len()) =~= pair);
    lemma_behind(gap, ':', value);
    lemma_behind(space, '"', tail);
    let n = name.len() as int;
    assert forall|i: int| 0 <= i < n implies tail[i] != '"' by {
        assert(tail[i] == name[i]);
        assert(name.contains(name[i]));
    }
    text::lemma_first_index_is(tail, '"', n);
    assert(tail.take(n) =~= name);
}

proof fn lemma_found(s: Seq<char>, part: Seq<char>, i: int, at: int)
    requires
        0 <= i <= at < s.len(),
        text::occurs_at(s, part, at),
        forall|k: int| 0 <= k < at ==> !text::occurs_at(s, part, k),
    ensures
        find_from(s, part, i) == at,
    decreases at - i,
{
    if i < at {
        assert(!text::occurs_at(s, part, i));
        lemma_found(s, part, i + 1, at);
    }
}

proof fn lemma_behind(front: Seq<char>, c: char, tail: Seq<char>)
    requires
        !front.contains(c),
    ensures
        behind(front + seq![c] + tail, c) == Some(tail),
{
    let s = front + seq![c] + tail;
    let n = front.len() as int;
    assert forall|i: int| 0 <= i < n implies s[i] != c by {
        assert(s[i] == front[i]);
        assert(front.contains(front[i]));
    }
    text::lemma_first_index_is(s, c, n);
    assert(text::after(s, n + 1) =~= tail);
}

/// The nearest package file with a name decides; those without one are passed over.
pub proof fn nearest_name_decides(contents: Seq<Option<Seq<char>>>, k: int, content: Seq<char>)
    requires
        0 <= k < contents.len(),
        contents[k] == Some(content),
        quoted_name(content) is Some,
        forall|i: int|
            0 <= i < k ==> ((#[trigger] contents[i]) matches Some(c) ==> quoted_name(c) is None),
    ensures
        first_name(contents, 0) == quoted_name(content),
{
    lemma_first_name(contents, 0, k);
}

proof fn lemma_first_name(contents: Seq<Option<Seq<char>>>, i: int, k: int)
    requires
        0 <= i <= k < contents.len(),
        forall|j: int|
            0 <= j < k ==> ((#[trigger] contents[j]) matches Some(c) ==> quoted_name(c) is None),
    ensures
        first_name(contents, i) == first_name(contents, k),
    decreases k - i,
{
    if i < k {
        assert(contents[i] matches Some(c) ==> quoted_name(c) is None);
        lemma_first_name(contents, i + 1, k);
    }
}

/// The directory of a file below the top of a repository is made of the names between the two.
pub proof fn directories_begin_at_the_top(
    absolute: bool,
    top: Seq<Seq<char>>,
    names: Seq<Seq<char>>,
)
    requires
        top.len() > 0,
        names.len() > 0,
        paths::plain_names(top + names),
    ensures
        relative_dir(paths::path_of(absolute, top + names), paths::path_of(absolute, top))
            == text::replaced(text::join(names.drop_last(), seq!['/']), '\\', '/'),
{
    let all = top + names;
    assert forall|i: int| 0 <= i < top.len() implies (#[trigger] top[i]).len() > 0 && top[i]
        != seq!['.'] && !top[i].contains('/') by {
        assert(top[i] == all[i]);
    }
    assert forall|i: int| 0 <= i < names.len() implies (#[trigger] names[i]).len() > 0 && names[i]
        != seq!['.'] && !names[i].contains('/') by {
        assert(names[i] == all[top.len() + i]);
    }
    assert(top =~= all.subrange(0, top.len() as int));
    assert(all.skip(top.len() as int) =~= names);
    paths::paths_are_stripped_by_names(absolute, all, top);
    paths::parent_drops_the_last_name(names);
}

}
