//! Sets of texts that are kept in order.
use crate::text;
use vstd::prelude::*;

verus! {

/// Whether a text comes before another in the order of their characters.
pub open spec fn precedes(a: Seq<char>, b: Seq<char>) -> bool
    decreases b.len(),
{
    if b.len() == 0 {
        false
    } else if a.len() == 0 {
        true
    } else if a[0] != b[0] {
        a[0] < b[0]
    } else {
        precedes(a.drop_first(), b.drop_first())
    }
}

/// Whether each text comes before those that follow it.
pub open spec fn increasing(s: Seq<Seq<char>>) -> bool {
    forall|i: int, j: int| 0 <= i < j < s.len() ==> #[trigger] precedes(s[i], s[j])
}

/// No text comes before itself.
pub proof fn nothing_precedes_itself(a: Seq<char>)
    ensures
        !precedes(a, a),
    decreases a.len(),
{
    if a.len() > 0 {
        nothing_precedes_itself(a.drop_first());
    }
}

/// What comes before a text comes before all that follow it.
pub proof fn preceding_is_transitive(a: Seq<char>, b: Seq<char>, c: Seq<char>)
    requires
        precedes(a, b),
        precedes(b, c),
    ensures
        precedes(a, c),
    decreases c.len(),
{
    if a.len() > 0 && a[0] == b[0] && b[0] == c[0] {
        preceding_is_transitive(a.drop_first(), b.drop_first(), c.drop_first());
    }
}

/// Of two different texts, one comes before the other.
pub proof fn one_precedes_the_other(a: Seq<char>, b: Seq<char>)
    requires
        a != b,
    ensures
        precedes(a, b) || precedes(b, a),
    decreases b.len(),
{
    if a.len() == 0 {
        if b.len() == 0 {
            assert(a =~= b);
        }
    } else if b.len() > 0 && a[0] == b[0] {
        if a.drop_first() == b.drop_first() {
            assert(a =~= seq![a[0]] + a.drop_first());
            assert(b =~= seq![b[0]] + b.drop_first());
        } else {
            one_precedes_the_other(a.drop_first(), b.drop_first());
        }
    }
}

/// Whether a text comes before another.
pub fn is_before(a: &str, b: &str) -> (r: bool)
    ensures
        r == precedes(a@, b@),
{
    let x = text::chars(a);
    let y = text::chars(b);
    let mut i: usize = 0;
    assert(x@.skip(0) =~= x@);
    assert(y@.skip(0) =~= y@);
    while i < x.len() && i < y.len() && x[i] == y[i]
        invariant
            i <= x@.len(),
            i <= y@.len(),
            x@ == a@,
            y@ == b@,
            precedes(a@, b@) == precedes(x@.skip(i as int), y@.skip(i as int)),
        decreases x@.len() - i,
    {
        assert(x@.skip(i as int).drop_first() =~= x@.skip(i + 1));
        assert(y@.skip(i as int).drop_first() =~= y@.skip(i + 1));
        i = i + 1;
    }
    if i >= y.len() {
        return false;
    }
    if i >= x.len() {
        return true;
    }
    x[i] < y[i]
}

/// Where a text is in a list in order, or where it belongs.
fn position(names: &Vec<String>, name: &str) -> (r: usize)
    requires
        increasing(text::views(names@)),
    ensures
        r <= names@.len(),
        forall|i: int| 0 <= i < r ==> precedes(#[trigger] text::views(names@)[i], name@),
        forall|i: int| r <= i < names@.len() ==> !precedes(#[trigger] text::views(names@)[i], name@),
        text::views(names@).contains(name@) ==> r < names@.len() && names@[r as int]@ == name@,
{
    let ghost all = text::views(names@);
    let mut lo: usize = 0;
    let mut hi: usize = names.len();
    while lo < hi
        invariant
            lo <= hi <= names@.len(),
            all == text::views(names@),
            increasing(all),
            forall|i: int| 0 <= i < lo ==> precedes(#[trigger] all[i], name@),
            forall|i: int| hi <= i < all.len() ==> !precedes(#[trigger] all[i], name@),
        decreases hi - lo,
    {
        let mid: usize = lo + (hi - lo) / 2;
        assert(all[mid as int] == names@[mid as int]@);
        if is_before(names[mid].as_str(), name) {
            assert forall|i: int| 0 <= i <= mid implies precedes(#[trigger] all[i], name@) by {
                if i < mid {
                    assert(precedes(all[i], all[mid as int]));
                    preceding_is_transitive(all[i], all[mid as int], name@);
                }
            }
            lo = mid + 1;
        } else {
            assert forall|i: int| mid <= i < all.len() implies !precedes(
                #[trigger] all[i],
                name@,
            ) by {
                if i > mid && precedes(all[i], name@) {
                    assert(precedes(all[mid as int], all[i]));
                    preceding_is_transitive(all[mid as int], all[i], name@);
                }
            }
            hi = mid;
        }
    }
    proof {
        if all.contains(name@) {
            let k = choose|k: int| 0 <= k < all.len() && all[k] == name@;
            nothing_precedes_itself(name@);
            assert(k >= lo);
            assert(all[lo as int] == names@[lo as int]@);
            if k > lo {
                assert(precedes(all[lo as int], all[k]));
            }
        }
    }
    lo
}

/// A list in order stays in order when a text is put where it belongs.
proof fn lemma_insert_keeps_order(all: Seq<Seq<char>>, at: int, name: Seq<char>)
    requires
        increasing(all),
        0 <= at <= all.len(),
        forall|i: int| 0 <= i < at ==> precedes(#[trigger] all[i], name),
        forall|i: int| at <= i < all.len() ==> !precedes(#[trigger] all[i], name),
        !all.contains(name),
    ensures
        increasing(all.insert(at, name)),
        all.insert(at, name).to_set() == all.to_set().insert(name),
{
    let now = all.insert(at, name);
    assert forall|i: int, j: int| 0 <= i < j < now.len() implies #[trigger] precedes(
        now[i],
        now[j],
    ) by {
        if i == at {
            assert(now[j] == all[j - 1]);
            assert(all.contains(all[j - 1]));
            one_precedes_the_other(name, all[j - 1]);
        } else if j == at {
            assert(now[i] == all[i]);
        } else {
            let k = if i < at {
                i
            } else {
                i - 1
            };
            let l = if j < at {
                j
            } else {
                j - 1
            };
            assert(precedes(all[k], all[l]));
        }
    }
    assert forall|s: Seq<char>| now.to_set().contains(s) == all.to_set().insert(name).contains(
        s,
    ) by {
        if now.contains(s) {
            let k = choose|k: int| 0 <= k < now.len() && now[k] == s;
            if k < at {
                assert(all[k] == s);
            } else if k > at {
                assert(all[k - 1] == s);
            }
        }
        if all.contains(s) {
            let k = choose|k: int| 0 <= k < all.len() && all[k] == s;
            if k < at {
                assert(now[k] == s);
            } else {
                assert(now[k + 1] == s);
            }
        }
        assert(now[at] == name);
    }
    assert(now.to_set() =~= all.to_set().insert(name));
}

/// A set of texts.
#[derive(Debug)]
pub struct NameSet {
    names: Vec<String>,
}

impl NameSet {
    #[verifier::type_invariant]
    spec fn wf(self) -> bool {
        increasing(text::views(self.names@))
    }
}

impl View for NameSet {
    type V = Set<Seq<char>>;

    closed spec fn view(&self) -> Set<Seq<char>> {
        text::views(self.names@).to_set()
    }
}

proof fn lemma_increasing_is_unique(s: Seq<Seq<char>>)
    requires
        increasing(s),
    ensures
        s.no_duplicates(),
{
    assert forall|i: int, j: int| 0 <= i < s.len() && 0 <= j < s.len() && i != j implies s[i]
        != s[j] by {
        nothing_precedes_itself(s[i]);
        if i < j {
            assert(precedes(s[i], s[j]));
        } else {
            assert(precedes(s[j], s[i]));
        }
    }
}

impl NameSet {
    /// The empty set.
    pub fn new() -> (r: Self)
        ensures
            r@ == Set::<Seq<char>>::empty(),
    {
        let r = NameSet { names: Vec::new() };
        assert(r@ =~= Set::<Seq<char>>::empty());
        r
    }

    /// Whether a text is in the set.
    pub fn contains(&self, name: &str) -> (r: bool)
        ensures
            r == self@.contains(name@),
    {
        proof {
            use_type_invariant(self);
        }
        let at: usize = position(&self.names, name);
        let ghost all = text::views(self.names@);
        if at < self.names.len() && text::same(self.names[at].as_str(), name) {
            assert(all[at as int] == name@);
            return true;
        }
        false
    }

    /// Puts a text into the set.
    pub fn insert(&mut self, name: &str)
        ensures
            final(self)@ == old(self)@.insert(name@),
    {
        proof {
            use_type_invariant(&*self);
        }
        let at: usize = position(&self.names, name);
        let ghost all = text::views(self.names@);
        if at < self.names.len() && text::same(self.names[at].as_str(), name) {
            assert(all[at as int] == name@);
            assert(self@ =~= old(self)@.insert(name@));
            return;
        }
        let mut names: Vec<String> = Vec::new();
        std::mem::swap(&mut names, &mut self.names);
        names.insert(at, name.to_owned());
        proof {
            lemma_insert_keeps_order(all, at as int, name@);
            assert(text::views(names@) =~= all.insert(at as int, name@));
        }
        self.names = names;
    }

    /// Puts all texts of another set into the set.
    pub fn extend(&mut self, other: &NameSet)
        ensures
            final(self)@ == old(self)@.union(other@),
    {
        let ghost before = self@;
        let ghost all = text::views(other.names@);
        let n: usize = other.names.len();
        assert(before.union(all.take(0).to_set()) =~= before);
        for i in 0..n
            invariant
                n == other.names@.len(),
                all == text::views(other.names@),
                self@ == before.union(all.take(i as int).to_set()),
        {
            self.insert(other.names[i].as_str());
            proof {
                let next = all.take(i + 1);
                assert(all[i as int] == other.names@[i as int]@);
                assert(next =~= all.take(i as int).push(all[i as int]));
                assert forall|s: Seq<char>| next.to_set().contains(s) == all.take(
                    i as int,
                ).to_set().insert(all[i as int]).contains(s) by {
                    broadcast use vstd::seq_lib::group_seq_properties;

                }
                assert(self@ =~= before.union(next.to_set()));
            }
        }
        assert(all.take(n as int) =~= all);
    }

    /// Number of texts.
    pub fn len(&self) -> (r: usize)
        ensures
            r == self@.len(),
    {
        proof {
            use_type_invariant(self);
            lemma_increasing_is_unique(text::views(self.names@));
            text::views(self.names@).unique_seq_to_set();
        }
        self.names.len()
    }

    /// Whether there is no text.
    pub fn is_empty(&self) -> (r: bool)
        ensures
            r == (self@ == Set::<Seq<char>>::empty()),
    {
        let ghost all = text::views(self.names@);
        if self.names.len() == 0 {
            assert(self@ =~= Set::<Seq<char>>::empty());
            true
        } else {
            assert(all.contains(all[0]));
            assert(self@.contains(all[0]));
            false
        }
    }

    /// The texts in order.
    pub fn to_sorted(&self) -> (r: Vec<String>)
        ensures
            increasing(text::views(r@)),
            text::views(r@).to_set() == self@,
            r@.len() == self@.len(),
    {
        proof {
            use_type_invariant(self);
            lemma_increasing_is_unique(text::views(self.names@));
            text::views(self.names@).unique_seq_to_set();
        }
        let n: usize = self.names.len();
        let r = text::copy_strings(&self.names, 0, n);
        assert(text::views(r@) =~= text::views(self.names@));
        r
    }
}

/// A table of texts by name.
#[derive(Debug)]
pub struct NameMap {
    names: Vec<String>,
    values: Vec<String>,
}

impl NameMap {
    #[verifier::type_invariant]
    spec fn wf(self) -> bool {
        increasing(text::views(self.names@)) && self.names@.len() == self.values@.len()
    }
}

/// The table that a list of different names and a list of values make.
spec fn table(names: Seq<Seq<char>>, values: Seq<Seq<char>>) -> Map<Seq<char>, Seq<char>> {
    Map::new(|k: Seq<char>| names.contains(k), |k: Seq<char>| values[names.index_of(k)])
}

impl View for NameMap {
    type V = Map<Seq<char>, Seq<char>>;

    closed spec fn view(&self) -> Map<Seq<char>, Seq<char>> {
        table(text::views(self.names@), text::views(self.values@))
    }
}

proof fn lemma_index_of(names: Seq<Seq<char>>, i: int)
    requires
        increasing(names),
        0 <= i < names.len(),
    ensures
        names.index_of(names[i]) == i,
{
    lemma_increasing_is_unique(names);
    let k = names.index_of(names[i]);
    assert(names.contains(names[i]));
    assert(names[k] == names[i]);
}

proof fn lemma_table_update(names: Seq<Seq<char>>, values: Seq<Seq<char>>, i: int, v: Seq<char>)
    requires
        increasing(names),
        names.len() == values.len(),
        0 <= i < names.len(),
    ensures
        table(names, values.update(i, v)) == table(names, values).insert(names[i], v),
{
    let now = table(names, values.update(i, v));
    let then = table(names, values).insert(names[i], v);
    lemma_index_of(names, i);
    assert(names.contains(names[i]));
    assert forall|k: Seq<char>| #[trigger] names.contains(k) implies now[k] == then[k] by {
        let j = names.index_of(k);
        assert(names[j] == k);
    }
    assert(now =~= then);
}

proof fn lemma_table_insert(
    names: Seq<Seq<char>>,
    values: Seq<Seq<char>>,
    at: int,
    name: Seq<char>,
    v: Seq<char>,
)
    requires
        increasing(names),
        names.len() == values.len(),
        0 <= at <= names.len(),
        !names.contains(name),
        increasing(names.insert(at, name)),
        names.insert(at, name).to_set() == names.to_set().insert(name),
    ensures
        table(names.insert(at, name), values.insert(at, v)) == table(names, values).insert(name, v),
{
    let keys = names.insert(at, name);
    let vals = values.insert(at, v);
    let now = table(keys, vals);
    let then = table(names, values).insert(name, v);
    assert forall|k: Seq<char>| keys.contains(k) <==> names.contains(k) || k == name by {
        assert(keys.to_set().contains(k) <==> names.to_set().insert(name).contains(k));
    }
    assert forall|k: Seq<char>| keys.contains(k) implies #[trigger] now[k] == then[k] by {
        if k == name {
            assert(keys[at] == name);
            lemma_index_of(keys, at);
        } else {
            let j = names.index_of(k);
            assert(names.contains(k));
            assert(names[j] == k);
            if j < at {
                assert(keys[j] == k);
                lemma_index_of(keys, j);
            } else {
                assert(keys[j + 1] == k);
                lemma_index_of(keys, j + 1);
            }
        }
    }
    assert(now =~= then);
}

proof fn lemma_table_remove(names: Seq<Seq<char>>, values: Seq<Seq<char>>, at: int)
    requires
        increasing(names),
        names.len() == values.len(),
        0 <= at < names.len(),
    ensures
        increasing(names.remove(at)),
        table(names.remove(at), values.remove(at)) == table(names, values).remove(names[at]),
{
    let keys = names.remove(at);
    let vals = values.remove(at);
    let now = table(keys, vals);
    let then = table(names, values).remove(names[at]);
    assert forall|i: int, j: int| 0 <= i < j < keys.len() implies #[trigger] precedes(
        keys[i],
        keys[j],
    ) by {
        let k = if i < at {
            i
        } else {
            i + 1
        };
        let l = if j < at {
            j
        } else {
            j + 1
        };
        assert(precedes(names[k], names[l]));
    }
    lemma_increasing_is_unique(names);
    assert forall|k: Seq<char>| keys.contains(k) <==> names.contains(k) && k != names[at] by {
        if keys.contains(k) {
            let j = choose|j: int| 0 <= j < keys.len() && keys[j] == k;
            let m = if j < at {
                j
            } else {
                j + 1
            };
            assert(names[m] == k);
        }
        if names.contains(k) && k != names[at] {
            let j = choose|j: int| 0 <= j < names.len() && names[j] == k;
            if j < at {
                assert(keys[j] == k);
            } else {
                assert(keys[j - 1] == k);
            }
        }
    }
    assert forall|k: Seq<char>| keys.contains(k) implies #[trigger] now[k] == then[k] by {
        let j = keys.index_of(k);
        assert(keys[j] == k);
        let m = if j < at {
            j
        } else {
            j + 1
        };
        assert(names[m] == k);
        lemma_index_of(names, m);
    }
    assert(now =~= then);
}

impl NameMap {
    /// The empty table.
    pub fn new() -> (r: Self)
        ensures
            r@ == Map::<Seq<char>, Seq<char>>::empty(),
    {
        let r = NameMap { names: Vec::new(), values: Vec::new() };
        assert(r@ =~= Map::<Seq<char>, Seq<char>>::empty());
        r
    }

    /// The text for a name.
    pub fn get(&self, name: &str) -> (r: Option<&str>)
        ensures
            match r {
                Some(v) => self@.contains_key(name@) && self@[name@] == v@,
                None => !self@.contains_key(name@),
            },
    {
        proof {
            use_type_invariant(self);
        }
        let at: usize = position(&self.names, name);
        let ghost all = text::views(self.names@);
        if at < self.names.len() && text::same(self.names[at].as_str(), name) {
            proof {
                assert(all[at as int] == name@);
                lemma_index_of(all, at as int);
                assert(text::views(self.values@)[at as int] == self.values@[at as int]@);
            }
            return Some(self.values[at].as_str());
        }
        None
    }

    /// Sets the text for a name.
    pub fn insert(&mut self, name: &str, value: &str)
        ensures
            final(self)@ == old(self)@.insert(name@, value@),
    {
        proof {
            use_type_invariant(&*self);
        }
        let at: usize = position(&self.names, name);
        let ghost all = text::views(self.names@);
        let ghost texts = text::views(self.values@);
        let found = at < self.names.len() && text::same(self.names[at].as_str(), name);
        let mut whole = NameMap { names: Vec::new(), values: Vec::new() };
        std::mem::swap(&mut whole, self);
        let NameMap { names: mut names, values: mut values } = whole;
        if found {
            values.set(at, value.to_owned());
            proof {
                assert(all[at as int] == name@);
                lemma_table_update(all, texts, at as int, value@);
                assert(text::views(values@) =~= texts.update(at as int, value@));
            }
        } else {
            names.insert(at, name.to_owned());
            values.insert(at, value.to_owned());
            proof {
                lemma_insert_keeps_order(all, at as int, name@);
                lemma_table_insert(all, texts, at as int, name@, value@);
                assert(text::views(names@) =~= all.insert(at as int, name@));
                assert(text::views(values@) =~= texts.insert(at as int, value@));
            }
        }
        *self = NameMap { names, values };
    }

    /// Removes a name.
    pub fn remove(&mut self, name: &str)
        ensures
            final(self)@ == old(self)@.remove(name@),
    {
        proof {
            use_type_invariant(&*self);
        }
        let at: usize = position(&self.names, name);
        let ghost all = text::views(self.names@);
        let ghost texts = text::views(self.values@);
        if at < self.names.len() && text::same(self.names[at].as_str(), name) {
            let mut whole = NameMap { names: Vec::new(), values: Vec::new() };
            std::mem::swap(&mut whole, self);
            let NameMap { names: mut names, values: mut values } = whole;
            let _ = names.remove(at);
            let _ = values.remove(at);
            proof {
                assert(all[at as int] == name@);
                lemma_table_remove(all, texts, at as int);
                assert(text::views(names@) =~= all.remove(at as int));
                assert(text::views(values@) =~= texts.remove(at as int));
            }
            *self = NameMap { names, values };
        } else {
            assert(self@ =~= old(self)@.remove(name@));
        }
    }
}

/// The first character in which two texts differ decides, and a text comes before all that begin
/// with it.
pub proof fn first_difference_decides(
    front: Seq<char>,
    x: char,
    y: char,
    a: Seq<char>,
    b: Seq<char>,
)
    ensures
        x < y ==> precedes(front + seq![x] + a, front + seq![y] + b),
        x > y ==> !precedes(front + seq![x] + a, front + seq![y] + b),
        precedes(front, front + seq![x] + a),
    decreases front.len(),
{
    let s = front + seq![x] + a;
    let t = front + seq![y] + b;
    if front.len() > 0 {
        let rest = front.drop_first();
        first_difference_decides(rest, x, y, a, b);
        assert(s[0] == front[0] && t[0] == front[0]);
        assert(s.drop_first() =~= rest + seq![x] + a);
        assert(t.drop_first() =~= rest + seq![y] + b);
    } else {
        assert(s[0] == x && t[0] == y);
    }
}

}
