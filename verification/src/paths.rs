//! Paths whose parts are separated by slashes.
//!
//! A path may hold empty parts and dots that stand for the current directory; these do
//! not count as parts of their own, except for a dot at the very beginning.
use crate::text;
use vstd::prelude::*;

verus! {

/// The path without the slashes and dots at its end that do not count.
pub open spec fn trim_tail(path: Seq<char>) -> Seq<char>
    decreases path.len(),
{
    if path.len() >= 2 && path.last() == '/' {
        trim_tail(path.drop_last())
    } else if path.len() >= 2 && path.last() == '.' && path[path.len() - 2] == '/' {
        trim_tail(path.drop_last())
    } else {
        path
    }
}

/// Position after the last slash, or zero if there is none.
pub open spec fn last_part(path: Seq<char>) -> int
    decreases path.len(),
{
    if path.len() == 0 || path.last() == '/' {
        path.len() as int
    } else {
        last_part(path.drop_last())
    }
}

/// The path has a last part, other than the root.
pub open spec fn has_last_part(path: Seq<char>) -> bool {
    trim_tail(path).len() > 0 && trim_tail(path) != seq!['/']
}

/// The path of the directory that a path lies in; the empty path and the root lie in none.
pub open spec fn parent(path: Seq<char>) -> Option<Seq<char>> {
    let body = trim_tail(path);
    let n = last_part(body);
    if !has_last_part(path) {
        None
    } else if n == 0 {
        Some(Seq::empty())
    } else if n == 1 {
        Some(seq!['/'])
    } else {
        Some(trim_tail(body.take(n - 1)))
    }
}

/// The last part of a path, if it names a file or a directory.
pub open spec fn file_name(path: Seq<char>) -> Option<Seq<char>> {
    let name = text::after(trim_tail(path), last_part(trim_tail(path)));
    if !has_last_part(path) || name == seq!['.'] || name == seq!['.', '.'] {
        None
    } else {
        Some(name)
    }
}

proof fn lemma_trim_tail(path: Seq<char>)
    ensures
        trim_tail(path).len() <= path.len(),
        trim_tail(path) == path.take(trim_tail(path).len() as int),
        path.len() > 0 ==> trim_tail(path).len() > 0,
    decreases path.len(),
{
    if path.len() >= 2 && (path.last() == '/' || (path.last() == '.' && path[path.len() - 2]
        == '/')) {
        lemma_trim_tail(path.drop_last());
        assert(path.drop_last().take(trim_tail(path).len() as int) =~= path.take(
            trim_tail(path).len() as int,
        ));
    } else {
        assert(path.take(path.len() as int) =~= path);
    }
}

proof fn lemma_last_part(path: Seq<char>)
    ensures
        0 <= last_part(path) <= path.len(),
        last_part(path) > 0 ==> path[last_part(path) - 1] == '/',
    decreases path.len(),
{
    if path.len() > 0 && path.last() != '/' {
        lemma_last_part(path.drop_last());
    }
}

/// The directory that a path lies in has a shorter path.
pub proof fn parent_is_shorter(path: Seq<char>)
    ensures
        parent(path) matches Some(dir) ==> dir.len() < path.len(),
{
    let body = trim_tail(path);
    lemma_trim_tail(path);
    lemma_last_part(body);
    let n = last_part(body);
    if n > 1 {
        lemma_trim_tail(body.take(n - 1));
    }
    if n == 1 && body.len() == 1 {
        assert(body =~= seq!['/']);
    }
}

/// Length of a path without the slashes and dots at its end that do not count.
fn trimmed_len(cs: &Vec<char>, len: usize) -> (r: usize)
    requires
        len <= cs@.len(),
    ensures
        r <= len,
        trim_tail(cs@.take(len as int)) == cs@.take(r as int),
{
    let mut n: usize = len;
    while n >= 2 && (cs[n - 1] == '/' || (cs[n - 1] == '.' && cs[n - 2] == '/'))
        invariant
            n <= len <= cs@.len(),
            trim_tail(cs@.take(n as int)) == trim_tail(cs@.take(len as int)),
        decreases n,
    {
        assert(cs@.take(n as int).drop_last() =~= cs@.take(n - 1));
        n = n - 1;
    }
    n
}

/// Position after the last slash among the first `len` characters.
fn find_last_part(cs: &Vec<char>, len: usize) -> (r: usize)
    requires
        len <= cs@.len(),
    ensures
        r <= len,
        r == last_part(cs@.take(len as int)),
{
    let mut n: usize = len;
    while n > 0 && cs[n - 1] != '/'
        invariant
            n <= len <= cs@.len(),
            last_part(cs@.take(n as int)) == last_part(cs@.take(len as int)),
        decreases n,
    {
        assert(cs@.take(n as int).drop_last() =~= cs@.take(n - 1));
        n = n - 1;
    }
    n
}

/// The path of the directory that a path lies in.
pub fn parent_of(path: &str) -> (r: Option<String>)
    ensures
        text::view_opt(r) == parent(path@),
{
    let cs = text::chars(path);
    assert(cs@.take(cs@.len() as int) =~= path@);
    let len: usize = trimmed_len(&cs, cs.len());
    let ghost body = trim_tail(path@);
    if len == 0 || (len == 1 && cs[0] == '/') {
        assert(len == 1 ==> body =~= seq!['/']);
        return None;
    }
    assert(!(body =~= seq!['/'])) by {
        if body =~= seq!['/'] {
            assert(body[0] == cs@[0]);
        }
    }
    let n: usize = find_last_part(&cs, len);
    if n == 0 {
        return Some(String::new());
    }
    if n == 1 {
        let mut root = String::new();
        root.push('/');
        assert(root@ =~= seq!['/']);
        return Some(root);
    }
    assert(body.take(n - 1) =~= cs@.take(n - 1));
    let m: usize = trimmed_len(&cs, n - 1);
    let dir = text::string_of(vstd::slice::slice_subrange(cs.as_slice(), 0, m));
    assert(dir@ =~= cs@.take(m as int));
    Some(dir)
}

/// The last part of a path, if it names a file or a directory.
pub fn file_name_of(path: &str) -> (r: Option<String>)
    ensures
        text::view_opt(r) == file_name(path@),
{
    let cs = text::chars(path);
    assert(cs@.take(cs@.len() as int) =~= path@);
    let len: usize = trimmed_len(&cs, cs.len());
    let ghost body = trim_tail(path@);
    if len == 0 || (len == 1 && cs[0] == '/') {
        assert(len == 1 ==> body =~= seq!['/']);
        return None;
    }
    assert(!(body =~= seq!['/'])) by {
        if body =~= seq!['/'] {
            assert(body[0] == cs@[0]);
        }
    }
    let n: usize = find_last_part(&cs, len);
    let name = text::string_of(vstd::slice::slice_subrange(cs.as_slice(), n, len));
    assert(name@ =~= text::after(body, n as int));
    let dot = len - n == 1 && cs[n] == '.';
    let dots = len - n == 2 && cs[n] == '.' && cs[n + 1] == '.';
    proof {
        if dot {
            assert(name@ =~= seq!['.']);
        }
        if dots {
            assert(name@ =~= seq!['.', '.']);
        }
        if name@ == seq!['.'] {
            assert(name@[0] == cs@[n as int]);
        }
        if name@ == seq!['.', '.'] {
            assert(name@[0] == cs@[n as int] && name@[1] == cs@[n + 1]);
        }
    }
    if dot || dots {
        None
    } else {
        Some(name)
    }
}

/// Whether a part of a path counts as one of its components.
pub open spec fn counts(part: Seq<char>) -> bool {
    part.len() > 0 && part != "."@
}

/// The components of a path: its parts without the empty ones and without `.`, which counts
/// only at the very front. An absolute path has the component `/` in front.
pub open spec fn components(path: Seq<char>) -> Seq<Seq<char>> {
    let parts = text::split(path, '/');
    let front = if path.len() > 0 && path[0] == '/' {
        seq!["/"@]
    } else if parts[0] == "."@ {
        seq!["."@]
    } else {
        seq![]
    };
    front + parts.filter(|p: Seq<char>| counts(p))
}

/// The components of a path, see the specification of the same name.
pub fn components_of(path: &str) -> (r: Vec<String>)
    ensures
        text::views(r@) == components(path@),
{
    let parts = text::split_on(path, '/');
    let mut out: Vec<String> = Vec::new();
    let ghost all = text::split(path@, '/');
    assert(all.len() > 0);
    assert(text::views(parts@)[0] == parts@[0]@);
    if text::starts_with_char(path, '/') {
        out.push("/".to_owned());
        assert(text::views(out@) =~= seq!["/"@]);
    } else if text::same(parts[0].as_str(), ".") {
        out.push(".".to_owned());
        assert(text::views(out@) =~= seq!["."@]);
    } else {
        assert(text::views(out@) =~= seq![]);
    }
    let ghost front = text::views(out@);
    let ghost pred = |p: Seq<char>| counts(p);
    let n: usize = parts.len();
    proof {
        reveal(Seq::filter);
        assert(all.take(0).filter(pred) =~= seq![]);
        assert(text::views(out@) =~= front + all.take(0).filter(pred));
    }
    for i in 0..n
        invariant
            n == parts@.len(),
            text::views(parts@) == all,
            pred == (|p: Seq<char>| counts(p)),
            text::views(out@) == front + all.take(i as int).filter(pred),
    {
        let ghost before = out@;
        proof {
            reveal(Seq::filter);
            assert(all.take(i + 1).drop_last() =~= all.take(i as int));
            assert(all[i as int] == parts@[i as int]@);
        }
        let part = parts[i].as_str();
        if !part.is_empty() && !text::same(part, ".") {
            out.push(part.to_owned());
            assert(text::views(out@) =~= text::views(before).push(part@));
            assert(text::views(out@) =~= front + all.take(i + 1).filter(pred));
        }
    }
    assert(all.take(n as int) =~= all);
    out
}

/// A path with a relative path behind it.
pub open spec fn joined(base: Seq<char>, part: Seq<char>) -> Seq<char> {
    if base.len() == 0 {
        part
    } else if base.last() == '/' {
        base + part
    } else {
        base + seq!['/'] + part
    }
}

/// A path with a relative path behind it, see [`joined`].
pub fn join_path(base: &str, part: &str) -> (r: String)
    ensures
        r@ == joined(base@, part@),
{
    let mut out = base.to_owned();
    if !base.is_empty() && !text::ends_with_char(base, '/') {
        out.push('/');
        assert(out@ =~= base@ + seq!['/']);
    }
    out.append(part);
    assert(out@ =~= joined(base@, part@));
    out
}

proof fn lemma_split_joined(base: Seq<char>, part: Seq<char>)
    requires
        text::first_index(part, '/') >= part.len(),
    ensures
        text::split(base + seq!['/'] + part, '/') == text::split(base, '/').push(part),
    decreases base.len(),
{
    let whole = base + seq!['/'] + part;
    let n = text::first_index(base, '/');
    text::lemma_first_index(base, '/');
    if n >= base.len() {
        text::lemma_first_index_is(whole, '/', base.len() as int);
        assert(whole.take(base.len() as int) =~= base);
        assert(text::after(whole, base.len() as int + 1) =~= part);
        assert(text::split(part, '/') =~= seq![part]);
        assert(text::split(whole, '/') =~= seq![base].push(part));
    } else {
        let rest = text::after(base, n + 1);
        text::lemma_first_index_is(whole, '/', n);
        assert(whole.take(n) =~= base.take(n));
        assert(text::after(whole, n + 1) =~= rest + seq!['/'] + part);
        lemma_split_joined(rest, part);
        assert(text::split(whole, '/') =~= text::split(base, '/').push(part));
    }
}

proof fn lemma_split_last(base: Seq<char>)
    requires
        base.len() > 0,
        base.last() == '/',
    ensures
        text::split(base, '/') == text::split(base.drop_last(), '/').push(Seq::empty()),
{
    let none = Seq::<char>::empty();
    text::lemma_first_index(none, '/');
    lemma_split_joined(base.drop_last(), none);
    assert(base.drop_last() + seq!['/'] + none =~= base);
}

proof fn lemma_filter_push(parts: Seq<Seq<char>>, part: Seq<char>)
    ensures
        parts.push(part).filter(|p: Seq<char>| counts(p)) == if counts(part) {
            parts.filter(|p: Seq<char>| counts(p)).push(part)
        } else {
            parts.filter(|p: Seq<char>| counts(p))
        },
{
    reveal(Seq::filter);
    assert(parts.push(part).drop_last() =~= parts);
}

/// A name that is put behind a path becomes its last component.
pub proof fn joining_adds_a_component(base: Seq<char>, part: Seq<char>)
    requires
        counts(part),
        !part.contains('/'),
    ensures
        components(joined(base, part)) == components(base).push(part),
{
    text::lemma_first_index(part, '/');
    let path = joined(base, part);
    let none = Seq::<char>::empty();
    reveal_strlit(".");
    if base.len() == 0 {
        assert(base =~= none);
        reveal(Seq::filter);
        assert(text::split(part, '/') == seq![part]);
        assert(text::split(none, '/') == seq![none]);
        lemma_filter_push(Seq::empty(), part);
        lemma_filter_push(Seq::empty(), none);
        assert(Seq::<Seq<char>>::empty().push(part) =~= seq![part]);
        assert(Seq::<Seq<char>>::empty().push(none) =~= seq![none]);
        assert(components(path) =~= components(base).push(part));
    } else if base.last() == '/' {
        let front = base.drop_last();
        lemma_split_joined(front, part);
        assert(front + seq!['/'] + part =~= path);
        lemma_split_last(base);
        lemma_filter_push(text::split(front, '/'), part);
        lemma_filter_push(text::split(front, '/'), none);
        assert(components(path) =~= components(base).push(part));
    } else {
        lemma_split_joined(base, part);
        lemma_filter_push(text::split(base, '/'), part);
        assert(components(path) =~= components(base).push(part));
    }
}

/// Whether the part at a position counts as a component of a path: the one in front does in
/// an absolute path, and where it is a dot.
pub open spec fn counts_at(path: Seq<char>, parts: Seq<Seq<char>>, i: int) -> bool {
    counts(parts[i]) || i == 0 && (path.len() > 0 && path[0] == '/' || parts[0] == "."@)
}

/// Position of the first part from a position on that counts.
pub open spec fn next_counting(path: Seq<char>, parts: Seq<Seq<char>>, i: int) -> int
    decreases parts.len() - i,
{
    if i >= parts.len() || counts_at(path, parts, i) {
        i
    } else {
        next_counting(path, parts, i + 1)
    }
}

/// Position of the part that counts after `n` others that do, from a position on.
pub open spec fn after_counting(path: Seq<char>, parts: Seq<Seq<char>>, n: int, i: int) -> int
    decreases n,
{
    let k = next_counting(path, parts, i);
    if n <= 0 || k >= parts.len() {
        k
    } else {
        after_counting(path, parts, n - 1, k + 1)
    }
}

/// What is left of a path behind its first components.
pub open spec fn rest(path: Seq<char>, n: int) -> Seq<char> {
    let parts = text::split(path, '/');
    if n == 0 {
        trim_tail(path)
    } else {
        trim_tail(text::join(parts.skip(after_counting(path, parts, n, 0)), "/"@))
    }
}

/// What is left of a path behind another, if its components begin with those of the other.
pub open spec fn stripped(path: Seq<char>, prefix: Seq<char>) -> Option<Seq<char>> {
    let front = components(prefix);
    if front.is_prefix_of(components(path)) {
        Some(rest(path, front.len() as int))
    } else {
        None
    }
}

fn part_counts(path: &str, parts: &Vec<String>, i: usize) -> (r: bool)
    requires
        i < parts@.len(),
    ensures
        r == counts_at(path@, text::views(parts@), i as int),
{
    let ghost all = text::views(parts@);
    assert(all[i as int] == parts@[i as int]@);
    let part = parts[i].as_str();
    let dot = text::same(part, ".");
    if !part.is_empty() && !dot {
        return true;
    }
    i == 0 && (text::starts_with_char(path, '/') || dot)
}

fn find_counting(path: &str, parts: &Vec<String>, from: usize) -> (r: usize)
    requires
        from <= parts@.len(),
    ensures
        r == next_counting(path@, text::views(parts@), from as int),
        from <= r <= parts@.len(),
{
    let mut i: usize = from;
    while i < parts.len() && !part_counts(path, parts, i)
        invariant
            from <= i <= parts@.len(),
            next_counting(path@, text::views(parts@), from as int) == next_counting(
                path@,
                text::views(parts@),
                i as int,
            ),
        decreases parts@.len() - i,
    {
        i = i + 1;
    }
    i
}

fn tail_of(path: &str) -> (r: String)
    ensures
        r@ == trim_tail(path@),
{
    let cs = text::chars(path);
    assert(cs@.take(cs@.len() as int) =~= path@);
    let n: usize = trimmed_len(&cs, cs.len());
    let r = text::part_of(&cs, 0, n);
    assert(r@ =~= cs@.take(n as int));
    r
}

fn rest_of(path: &str, n: usize) -> (r: String)
    ensures
        r@ == rest(path@, n as int),
{
    if n == 0 {
        return tail_of(path);
    }
    let parts = text::split_on(path, '/');
    let ghost all = text::views(parts@);
    let mut at: usize = find_counting(path, &parts, 0);
    let mut left: usize = n;
    proof {
        lemma_next_is_stable(path@, all, 0);
    }
    while left > 0 && at < parts.len()
        invariant
            left <= n,
            at <= parts@.len(),
            all == text::views(parts@),
            at == next_counting(path@, all, at as int),
            after_counting(path@, all, left as int, at as int) == after_counting(
                path@,
                all,
                n as int,
                0,
            ),
        decreases left,
    {
        let next: usize = find_counting(path, &parts, at + 1);
        proof {
            lemma_next_is_stable(path@, all, at + 1);
            assert(after_counting(path@, all, left - 1, at + 1) == after_counting(
                path@,
                all,
                left - 1,
                next as int,
            ));
        }
        at = next;
        left = left - 1;
    }
    let joined = join_parts(&parts, at);
    assert(all.skip(at as int) =~= all.skip(after_counting(path@, all, n as int, 0)));
    tail_of(joined.as_str())
}

proof fn lemma_next_is_stable(path: Seq<char>, parts: Seq<Seq<char>>, i: int)
    ensures
        next_counting(path, parts, next_counting(path, parts, i)) == next_counting(path, parts, i),
    decreases parts.len() - i,
{
    if i < parts.len() && !counts_at(path, parts, i) {
        lemma_next_is_stable(path, parts, i + 1);
    }
}

fn join_parts(parts: &Vec<String>, from: usize) -> (r: String)
    requires
        from <= parts@.len(),
    ensures
        r@ == text::join(text::views(parts@).skip(from as int), "/"@),
{
    let ghost all = text::views(parts@).skip(from as int);
    let mut out = String::new();
    let n: usize = parts.len();
    assert(text::join(all.take(0), "/"@) =~= Seq::empty());
    for i in from..n
        invariant
            from <= n == parts@.len(),
            all == text::views(parts@).skip(from as int),
            out@ == text::join(all.take(i - from), "/"@),
    {
        proof {
            let next = all.take(i - from + 1);
            assert(next.drop_last() =~= all.take(i - from));
            assert(all[i - from] == parts@[i as int]@);
            assert(next.last() == parts@[i as int]@);
            if i == from {
                assert(next[0] == next.last());
            }
        }
        if i > from {
            out.append("/");
        }
        out.append(parts[i].as_str());
        assert(out@ =~= text::join(all.take(i - from + 1), "/"@));
    }
    assert(all.take(n - from) =~= all);
    out
}

/// What is left of a path behind another, see [`stripped`].
pub fn strip_path(path: &str, prefix: &str) -> (r: Option<String>)
    ensures
        text::view_opt(r) == stripped(path@, prefix@),
{
    let front = components_of(prefix);
    let whole = components_of(path);
    let n: usize = front.len();
    let ghost (f, w) = (text::views(front@), text::views(whole@));
    assert(f.len() == front@.len() && w.len() == whole@.len());
    if n > whole.len() {
        return None;
    }
    for i in 0..n
        invariant
            n == front@.len() <= whole@.len(),
            f == text::views(front@),
            w == text::views(whole@),
            f == components(prefix@),
            w == components(path@),
            forall|j: int| 0 <= j < i ==> f[j] == w[j],
    {
        assert(f[i as int] == front@[i as int]@);
        assert(w[i as int] == whole@[i as int]@);
        if !text::same(front[i].as_str(), whole[i].as_str()) {
            assert(w.subrange(0, n as int)[i as int] != f[i as int]);
            return None;
        }
    }
    assert(w.subrange(0, n as int) =~= f);
    Some(rest_of(path, n))
}

/// Names of directories and files: not empty, no dot, and without slashes.
pub open spec fn plain_names(names: Seq<Seq<char>>) -> bool {
    forall|i: int|
        0 <= i < names.len() ==> (#[trigger] names[i]).len() > 0 && names[i] != seq!['.']
            && !names[i].contains('/')
}

proof fn lemma_last_part_of(front: Seq<char>, name: Seq<char>)
    requires
        !name.contains('/'),
        front.len() == 0 || front.last() == '/',
    ensures
        last_part(front + name) == front.len(),
    decreases name.len(),
{
    let path = front + name;
    if name.len() == 0 {
        assert(path =~= front);
    } else {
        assert(name.contains(name.last()));
        assert(path.last() == name.last());
        assert(path.drop_last() =~= front + name.drop_last());
        assert forall|c: char| name.drop_last().contains(c) implies name.contains(c) by {
            let i = choose|i: int| 0 <= i < name.drop_last().len() && name.drop_last()[i] == c;
            assert(name[i] == c);
        }
        lemma_last_part_of(front, name.drop_last());
    }
}

proof fn lemma_plain_tail(front: Seq<char>, name: Seq<char>)
    requires
        name.len() > 0,
        name != seq!['.'],
        !name.contains('/'),
    ensures
        trim_tail(front + name) == front + name,
        (front + name).last() != '/',
{
    let path = front + name;
    assert(path.last() == name.last());
    assert(name.contains(name.last()));
    if name.len() == 1 {
        assert(name =~= seq![name[0]]);
    } else {
        assert(path[path.len() - 2] == name[name.len() - 2]);
        assert(name.contains(name[name.len() - 2]));
    }
}

/// The directory of a path that is made of names is the path of all names but the last.
pub proof fn parent_drops_the_last_name(names: Seq<Seq<char>>)
    requires
        names.len() > 0,
        plain_names(names),
    ensures
        parent(text::join(names, seq!['/'])) == Some(text::join(names.drop_last(), seq!['/'])),
{
    let sep = seq!['/'];
    let path = text::join(names, sep);
    let dir = text::join(names.drop_last(), sep);
    let name = names.last();
    assert(names[names.len() - 1] == name);
    if names.len() == 1 {
        assert(path =~= Seq::<char>::empty() + name);
        lemma_plain_tail(Seq::empty(), name);
        lemma_last_part_of(Seq::empty(), name);
        assert(dir =~= Seq::empty());
        assert(name != seq!['/']) by {
            if name == seq!['/'] {
                assert(name[0] == '/');
                assert(name.contains('/'));
            }
        }
    } else {
        let front = dir + sep;
        assert(path =~= front + name);
        lemma_plain_tail(front, name);
        lemma_last_part_of(front, name);
        let upper = names.drop_last();
        let last = upper.last();
        assert(upper[upper.len() - 1] == last);
        assert(last == names[names.len() - 2]);
        if upper.len() == 1 {
            assert(dir =~= Seq::<char>::empty() + last);
            lemma_plain_tail(Seq::empty(), last);
        } else {
            let more = text::join(upper.drop_last(), sep) + sep;
            assert(dir =~= more + last);
            lemma_plain_tail(more, last);
        }
        assert(path.take(front.len() - 1) =~= dir);
        assert(path.len() > 1);
    }
}

/// The components of a path that is made of names are the names.
pub proof fn components_are_the_names(names: Seq<Seq<char>>)
    requires
        plain_names(names),
    ensures
        components(text::join(names, seq!['/'])) == names,
    decreases names.len(),
{
    let sep = seq!['/'];
    let path = text::join(names, sep);
    let none = Seq::<char>::empty();
    reveal_strlit(".");
    assert("."@ =~= seq!['.']);
    if names.len() == 0 {
        reveal(Seq::filter);
        text::lemma_first_index(none, '/');
        assert(text::split(none, '/') == seq![none]);
        lemma_filter_push(Seq::empty(), none);
        assert(Seq::<Seq<char>>::empty().push(none) =~= seq![none]);
        assert(components(path) =~= names);
    } else {
        let upper = names.drop_last();
        let name = names.last();
        assert(names[names.len() - 1] == name);
        assert(plain_names(upper)) by {
            assert forall|i: int| 0 <= i < upper.len() implies (#[trigger] upper[i]).len() > 0
                && upper[i] != seq!['.'] && !upper[i].contains('/') by {
                assert(upper[i] == names[i]);
            }
        }
        components_are_the_names(upper);
        let dir = text::join(upper, sep);
        if upper.len() > 0 {
            let last = upper.last();
            assert(last == names[names.len() - 2]);
            if upper.len() == 1 {
                assert(dir =~= Seq::<char>::empty() + last);
                lemma_plain_tail(Seq::empty(), last);
            } else {
                let more = text::join(upper.drop_last(), sep) + sep;
                assert(dir =~= more + last);
                lemma_plain_tail(more, last);
            }
        }
        joining_adds_a_component(dir, name);
        assert(joined(dir, name) =~= path);
        assert(upper.push(name) =~= names);
    }
}

/// The path that names make, from the root or from where one stands.
pub open spec fn path_of(absolute: bool, names: Seq<Seq<char>>) -> Seq<char> {
    if absolute {
        seq!['/'] + text::join(names, seq!['/'])
    } else {
        text::join(names, seq!['/'])
    }
}

spec fn parts_of(absolute: bool, names: Seq<Seq<char>>) -> Seq<Seq<char>> {
    if absolute {
        seq![Seq::<char>::empty()] + names
    } else {
        names
    }
}

proof fn lemma_parts(absolute: bool, names: Seq<Seq<char>>)
    requires
        names.len() > 0,
        plain_names(names),
    ensures
        text::split(path_of(absolute, names), '/') == parts_of(absolute, names),
        path_of(absolute, names).len() > 0,
        path_of(absolute, names)[0] == '/' <==> absolute,
        forall|i: int|
            0 <= i < parts_of(absolute, names).len() ==> #[trigger] counts_at(
                path_of(absolute, names),
                parts_of(absolute, names),
                i,
            ),
{
    let sep = seq!['/'];
    let parts = parts_of(absolute, names);
    let path = path_of(absolute, names);
    reveal_strlit(".");
    assert("."@ =~= seq!['.']);
    assert(text::join(parts, sep) == path) by {
        if absolute {
            text::lemma_join_front(parts, sep);
            assert(parts.drop_first() =~= names);
            assert(text::join(parts, sep) =~= path);
        }
    }
    assert forall|i: int| 0 <= i < parts.len() implies !(#[trigger] parts[i]).contains('/') by {
        if absolute && i > 0 {
            assert(parts[i] == names[i - 1]);
        }
    }
    text::split_gives_joined_parts_back(parts, '/');
    if names.len() > 1 {
        text::lemma_join_front(names, sep);
    }
    assert(text::join(names, sep)[0] == names[0][0]);
    assert(names[0].contains(names[0][0]));
    assert forall|i: int| 0 <= i < parts.len() implies #[trigger] counts_at(path, parts, i) by {
        if absolute {
            if i > 0 {
                assert(parts[i] == names[i - 1]);
            }
        } else {
            assert(parts[i] == names[i]);
        }
    }
}

proof fn lemma_components(absolute: bool, names: Seq<Seq<char>>)
    requires
        names.len() > 0,
        plain_names(names),
    ensures
        components(path_of(absolute, names)) == if absolute {
            seq!["/"@] + names
        } else {
            names
        },
{
    components_are_the_names(names);
    lemma_parts(absolute, names);
    lemma_parts(false, names);
    reveal_strlit(".");
    assert("."@ =~= seq!['.']);
    assert(names[0] != "."@);
    let pred = |p: Seq<char>| counts(p);
    assert(names.filter(pred) =~= names);
    if absolute {
        let none = Seq::<char>::empty();
        Seq::filter_distributes_over_add(seq![none], names, pred);
        lemma_filter_push(Seq::empty(), none);
        assert(Seq::<Seq<char>>::empty().push(none) =~= seq![none]);
        reveal(Seq::filter);
        assert(seq![none].filter(pred) =~= Seq::empty());
        assert(components(path_of(absolute, names)) =~= seq!["/"@] + names);
    }
}

proof fn lemma_after_all(path: Seq<char>, parts: Seq<Seq<char>>, n: int, i: int)
    requires
        0 <= n,
        0 <= i,
        i + n <= parts.len(),
        forall|k: int| 0 <= k < parts.len() ==> #[trigger] counts_at(path, parts, k),
    ensures
        after_counting(path, parts, n, i) == i + n,
    decreases n,
{
    assert(i < parts.len() ==> counts_at(path, parts, i));
    assert(next_counting(path, parts, i) == i);
    if n > 0 {
        lemma_after_all(path, parts, n - 1, i + 1);
    }
}

/// A path lies below another exactly if the other's names come first in it, whole name by whole
/// name; what is left are the names behind them.
pub proof fn paths_are_stripped_by_names(
    absolute: bool,
    names: Seq<Seq<char>>,
    front: Seq<Seq<char>>,
)
    requires
        names.len() > 0,
        front.len() > 0,
        plain_names(names),
        plain_names(front),
    ensures
        stripped(path_of(absolute, names), path_of(absolute, front)) == if front.is_prefix_of(
            names,
        ) {
            Some(text::join(names.skip(front.len() as int), seq!['/']))
        } else {
            None::<Seq<char>>
        },
        stripped(path_of(true, names), path_of(false, front)) is None,
        stripped(path_of(false, names), path_of(true, front)) is None,
{
    lemma_components(absolute, names);
    lemma_components(absolute, front);
    lemma_prefix(absolute, names, front);
    if front.is_prefix_of(names) {
        lemma_rest(absolute, names, front.len() as int);
    }
    lemma_other_roots(names, front);
}

proof fn lemma_prefix(absolute: bool, names: Seq<Seq<char>>, front: Seq<Seq<char>>)
    ensures
        ({
            let f = if absolute {
                seq!["/"@] + front
            } else {
                front
            };
            let p = if absolute {
                seq!["/"@] + names
            } else {
                names
            };
            f.is_prefix_of(p) <==> front.is_prefix_of(names)
        }),
{
    if absolute {
        let (f, p) = (seq!["/"@] + front, seq!["/"@] + names);
        let n = front.len() as int;
        if front.is_prefix_of(names) {
            assert(p.subrange(0, n + 1) =~= seq!["/"@] + names.subrange(0, n));
        } else if f.is_prefix_of(p) {
            assert(names.subrange(0, n) =~= p.subrange(0, n + 1).skip(1));
            assert(f.skip(1) =~= front);
        }
    }
}

proof fn lemma_rest(absolute: bool, names: Seq<Seq<char>>, k: int)
    requires
        0 < k <= names.len(),
        plain_names(names),
    ensures
        rest(
            path_of(absolute, names),
            if absolute {
                k + 1
            } else {
                k
            },
        ) == text::join(names.skip(k), seq!['/']),
{
    let path = path_of(absolute, names);
    let parts = parts_of(absolute, names);
    let n = if absolute {
        k + 1
    } else {
        k
    };
    reveal_strlit("/");
    assert("/"@ =~= seq!['/']);
    lemma_parts(absolute, names);
    lemma_after_all(path, parts, n, 0);
    let behind = names.skip(k);
    assert(parts.skip(n) =~= behind);
    let left = text::join(behind, seq!['/']);
    if behind.len() > 0 {
        let last = behind.last();
        assert(last == names[names.len() - 1]);
        if behind.len() == 1 {
            assert(left =~= Seq::<char>::empty() + last);
            lemma_plain_tail(Seq::empty(), last);
        } else {
            let more = text::join(behind.drop_last(), seq!['/']) + seq!['/'];
            assert(left =~= more + last);
            lemma_plain_tail(more, last);
        }
    }
}

proof fn lemma_other_roots(names: Seq<Seq<char>>, front: Seq<Seq<char>>)
    requires
        names.len() > 0,
        front.len() > 0,
        plain_names(names),
        plain_names(front),
    ensures
        stripped(path_of(true, names), path_of(false, front)) is None,
        stripped(path_of(false, names), path_of(true, front)) is None,
{
    lemma_components(true, names);
    lemma_components(false, front);
    lemma_components(false, names);
    lemma_components(true, front);
    reveal_strlit("/");
    assert("/"@[0] == '/');
    if front[0] == "/"@ {
        assert(front[0].contains(front[0][0]));
    }
    if names[0] == "/"@ {
        assert(names[0].contains(names[0][0]));
    }
    let rooted = seq!["/"@] + names;
    if front.is_prefix_of(rooted) {
        assert(rooted.subrange(0, front.len() as int)[0] == front[0]);
    }
    let other = seq!["/"@] + front;
    if other.is_prefix_of(names) {
        assert(names.subrange(0, other.len() as int)[0] == other[0]);
    }
}

}
