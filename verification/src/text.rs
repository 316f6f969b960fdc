//! Strings as sequences of characters: the vocabulary in which the rest of the
//! library states what it does with text.
use vstd::prelude::*;
use vstd::utf8::{decode_utf8, encode_utf8, valid_utf8};

verus! {

/// `String::push` appends one character at the end of the string.
pub assume_specification[ String::push ](s: &mut String, c: char)
    ensures
        final(s)@ == old(s)@.push(c),
;

/// The text that stands for a byte sequence that need not be valid UTF-8.
pub uninterp spec fn lossy_utf8(bytes: Seq<u8>) -> Seq<char>;

/// `String::from_utf8_lossy` decodes UTF-8 and puts the replacement character in
/// the place of what is not valid; valid input is decoded as it stands.
#[verifier::external_body]
pub(crate) fn decode_lossy(bytes: &[u8]) -> (r: String)
    ensures
        r@ == lossy_utf8(bytes@),
        valid_utf8(bytes@) ==> r@ == decode_utf8(bytes@),
{
    String::from_utf8_lossy(bytes).into_owned()
}

/// Largest source text, in bytes, that is parsed: the offsets, rows and nodes of a parse are
/// counted with 32-bit numbers, and a text can have more nodes than bytes.
pub const MAX_DOCUMENT_BYTES: usize = 0x7fff_fffe;

/// The characters of each string of a list.
pub open spec fn views(v: Seq<String>) -> Seq<Seq<char>> {
    v.map_values(|s: String| s@)
}

/// The characters of an optional string.
pub open spec fn view_opt(s: Option<String>) -> Option<Seq<char>> {
    match s {
        Some(x) => Some(x@),
        None => None,
    }
}

/// Length of a text in bytes once encoded as UTF-8.
pub open spec fn byte_len(s: Seq<char>) -> nat {
    encode_utf8(s).len()
}

/// Position of the first `c` in `s`, or the length of `s` if there is none.
pub open spec fn first_index(s: Seq<char>, c: char) -> int
    decreases s.len(),
{
    if s.len() == 0 {
        0
    } else if s[0] == c {
        0
    } else {
        1 + first_index(s.drop_first(), c)
    }
}

/// What follows the characters before position `n`.
pub open spec fn after(s: Seq<char>, n: int) -> Seq<char> {
    s.subrange(n, s.len() as int)
}

/// A line without its carriage return, if it ends in one.
pub open spec fn without_cr(line: Seq<char>) -> Seq<char> {
    if line.len() > 0 && line.last() == '\r' {
        line.drop_last()
    } else {
        line
    }
}

/// The lines of a text. Each line feed ends a line, together with a carriage
/// return right before it; a last line without a line feed counts if it is not empty.
pub open spec fn lines(s: Seq<char>) -> Seq<Seq<char>>
    decreases s.len(),
{
    if s.len() == 0 {
        Seq::empty()
    } else {
        let n = first_index(s, '\n');
        if n >= s.len() {
            seq![s]
        } else {
            proof {
                lemma_first_index(s, '\n');
            }
            seq![without_cr(s.take(n))] + lines(after(s, n + 1))
        }
    }
}

/// The parts with `sep` between each two of them.
pub open spec fn join(parts: Seq<Seq<char>>, sep: Seq<char>) -> Seq<char>
    decreases parts.len(),
{
    if parts.len() == 0 {
        Seq::empty()
    } else if parts.len() == 1 {
        parts[0]
    } else {
        join(parts.drop_last(), sep) + sep + parts.last()
    }
}

pub proof fn lemma_first_index(s: Seq<char>, c: char)
    ensures
        0 <= first_index(s, c) <= s.len(),
        first_index(s, c) < s.len() ==> s[first_index(s, c)] == c,
        forall|i: int| 0 <= i < first_index(s, c) ==> s[i] != c,
    decreases s.len(),
{
    if s.len() > 0 && s[0] != c {
        lemma_first_index(s.drop_first(), c);
        assert forall|i: int| 0 <= i < first_index(s, c) implies s[i] != c by {
            if i > 0 {
                assert(s.drop_first()[i - 1] == s[i]);
            }
        }
    }
}

pub proof fn lemma_first_index_is(s: Seq<char>, c: char, n: int)
    requires
        0 <= n <= s.len(),
        n < s.len() ==> s[n] == c,
        forall|i: int| 0 <= i < n ==> s[i] != c,
    ensures
        first_index(s, c) == n,
{
    lemma_first_index(s, c);
    let k = first_index(s, c);
    if k < n {
        assert(s[k] != c);
    }
    if k > n {
        assert(s[n] != c);
    }
}

/// The characters of a string.
pub fn chars(s: &str) -> (r: Vec<char>)
    ensures
        r@ == s@,
{
    let mut v: Vec<char> = Vec::new();
    for c in it: s.chars()
        invariant
            v@ == it.seq().take(it.index() as int),
            it.seq() == s@,
    {
        v.push(c);
        assert(v@ =~= it.seq().take(it.index() as int + 1));
    }
    v
}

/// The string with the given characters.
pub fn string_of(v: &[char]) -> (r: String)
    ensures
        r@ == v@,
{
    let mut s = String::new();
    let n: usize = v.len();
    for i in 0..n
        invariant
            n == v@.len(),
            s@ == v@.take(i as int),
    {
        s.push(v[i]);
        assert(s@ =~= v@.take(i + 1));
    }
    assert(v@.take(n as int) =~= v@);
    s
}

/// Whether two strings hold the same characters.
pub fn same(a: &str, b: &str) -> (r: bool)
    ensures
        r == (a@ == b@),
{
    if a.as_bytes().len() != b.as_bytes().len() {
        return false;
    }
    let x = chars(a);
    let y = chars(b);
    if x.len() != y.len() {
        return false;
    }
    for i in 0..x.len()
        invariant
            x@ == a@,
            y@ == b@,
            x@.len() == y@.len(),
            forall|j: int| 0 <= j < i ==> x@[j] == y@[j],
    {
        if x[i] != y[i] {
            return false;
        }
    }
    assert(x@ =~= y@);
    true
}

/// Number of bytes of a string.
pub fn len_in_bytes(s: &str) -> (r: usize)
    ensures
        r == byte_len(s@),
{
    s.as_bytes().len()
}

/// Whether a text begins with another.
pub fn starts_with(s: &str, prefix: &str) -> (r: bool)
    ensures
        r == prefix@.is_prefix_of(s@),
{
    let cs = chars(s);
    let ps = chars(prefix);
    let n: usize = ps.len();
    if n > cs.len() {
        return false;
    }
    for i in 0..n
        invariant
            cs@ == s@,
            ps@ == prefix@,
            n == ps@.len() <= cs@.len(),
            forall|j: int| 0 <= j < i ==> cs@[j] == ps@[j],
    {
        if cs[i] != ps[i] {
            assert(s@.subrange(0, n as int)[i as int] != prefix@[i as int]);
            return false;
        }
    }
    assert(s@.subrange(0, n as int) =~= prefix@);
    true
}

/// Whether a text ends with another.
pub fn ends_with(s: &str, suffix: &str) -> (r: bool)
    ensures
        r == suffix@.is_suffix_of(s@),
{
    let cs = chars(s);
    let ps = chars(suffix);
    let n: usize = ps.len();
    if n > cs.len() {
        return false;
    }
    let total: usize = cs.len();
    let from: usize = total - n;
    let ghost end = s@.subrange(s@.len() - n, s@.len() as int);
    for i in 0..n
        invariant
            cs@ == s@,
            ps@ == suffix@,
            n == ps@.len() <= cs@.len(),
            from + n == total == cs@.len(),
            end == s@.subrange(s@.len() - n, s@.len() as int),
            forall|j: int| 0 <= j < i ==> #[trigger] cs@[from + j] == ps@[j],
    {
        if cs[from + i] != ps[i] {
            assert(end[i as int] != suffix@[i as int]);
            return false;
        }
    }
    assert forall|j: int| 0 <= j < n implies end[j] == suffix@[j] by {
        assert(cs@[from + j] == ps@[j]);
    }
    assert(end =~= suffix@);
    true
}

/// The lines of a text (see [`lines`]).
pub fn split_lines(s: &str) -> (r: Vec<String>)
    ensures
        views(r@) == lines(s@),
{
    let cs = chars(s);
    let n: usize = cs.len();
    let mut out: Vec<String> = Vec::new();
    let mut start: usize = 0;
    let mut i: usize = 0;
    assert(after(s@, 0) =~= s@);
    assert(views(out@) + lines(s@) =~= lines(s@));
    while i < n
        invariant
            cs@ == s@,
            n == cs@.len(),
            start <= i <= n,
            forall|j: int| start <= j < i ==> cs@[j] != '\n',
            views(out@) + lines(after(s@, start as int)) == lines(s@),
        decreases n - i,
    {
        if cs[i] == '\n' {
            let ghost rest = after(s@, start as int);
            proof {
                lemma_first_index_is(rest, '\n', i - start);
            }
            let mut end: usize = i;
            if end > start && cs[end - 1] == '\r' {
                end = end - 1;
            }
            let line = string_of(vstd::slice::slice_subrange(cs.as_slice(), start, end));
            proof {
                let raw = rest.take(i - start);
                assert(raw =~= s@.subrange(start as int, i as int));
                assert(line@ =~= without_cr(raw));
                assert(after(rest, i - start + 1) =~= after(s@, i + 1));
                assert(views(out@.push(line)) =~= views(out@).push(line@));
                assert(views(out@) + lines(rest) =~= views(out@.push(line)) + lines(
                    after(s@, i + 1),
                ));
            }
            out.push(line);
            start = i + 1;
        }
        i = i + 1;
    }
    if start < n {
        let line = string_of(vstd::slice::slice_subrange(cs.as_slice(), start, n));
        proof {
            let rest = after(s@, start as int);
            lemma_first_index_is(rest, '\n', n - start);
            assert(line@ =~= rest);
            assert(views(out@.push(line)) =~= views(out@) + lines(rest));
        }
        out.push(line);
    } else {
        assert(lines(after(s@, start as int)) =~= Seq::<Seq<char>>::empty());
        assert(views(out@) =~= lines(s@));
    }
    out
}

/// The Unicode characters with the property White_Space.
pub open spec fn whitespace(c: char) -> bool {
    let n = c as int;
    ||| 0x09 <= n <= 0x0d
    ||| n == 0x20
    ||| n == 0x85
    ||| n == 0xa0
    ||| n == 0x1680
    ||| 0x2000 <= n <= 0x200a
    ||| n == 0x2028
    ||| n == 0x2029
    ||| n == 0x202f
    ||| n == 0x205f
    ||| n == 0x3000
}

/// The Unicode characters of the general category Cc.
pub open spec fn control(c: char) -> bool {
    c as int <= 0x1f || 0x7f <= c as int <= 0x9f
}

/// Whether a character is white space.
pub fn is_whitespace(c: char) -> (r: bool)
    ensures
        r == whitespace(c),
{
    let n: u32 = c as u32;
    (0x09 <= n && n <= 0x0d) || n == 0x20 || n == 0x85 || n == 0xa0 || n == 0x1680 || (0x2000 <= n
        && n <= 0x200a) || n == 0x2028 || n == 0x2029 || n == 0x202f || n == 0x205f || n == 0x3000
}

/// Whether a character is a control character.
pub fn is_control(c: char) -> (r: bool)
    ensures
        r == control(c),
{
    let n: u32 = c as u32;
    n <= 0x1f || (0x7f <= n && n <= 0x9f)
}

/// The text holds nothing but white space.
pub open spec fn blank(s: Seq<char>) -> bool {
    forall|i: int| 0 <= i < s.len() ==> whitespace(#[trigger] s[i])
}

/// Whether a text holds nothing but white space.
pub fn is_blank(s: &str) -> (r: bool)
    ensures
        r == blank(s@),
{
    let cs = chars(s);
    for i in 0..cs.len()
        invariant
            cs@ == s@,
            forall|j: int| 0 <= j < i ==> whitespace(#[trigger] s@[j]),
    {
        if !is_whitespace(cs[i]) {
            assert(!whitespace(s@[i as int]));
            return false;
        }
    }
    true
}

/// The digit for a number below ten.
pub open spec fn digit(n: int) -> char {
    (0x30 + n) as char
}

/// A number in decimal notation.
pub open spec fn decimal(n: nat) -> Seq<char>
    decreases n,
{
    if n < 10 {
        seq![digit(n as int)]
    } else {
        decimal(n / 10).push(digit((n % 10) as int))
    }
}

/// Appends a number in decimal notation.
pub fn push_decimal(out: &mut String, n: u64)
    ensures
        final(out)@ == old(out)@ + decimal(n as nat),
    decreases n,
{
    if n >= 10 {
        push_decimal(out, n / 10);
    }
    out.push((0x30u8 + (n % 10) as u8) as char);
}

/// A number in decimal notation, with a minus sign if it is negative.
pub open spec fn signed(n: int) -> Seq<char> {
    if n < 0 {
        seq!['-'] + decimal((-n) as nat)
    } else {
        decimal(n as nat)
    }
}

/// Appends a number in decimal notation, with a minus sign if it is negative.
pub fn push_signed(out: &mut String, n: i32)
    ensures
        final(out)@ == old(out)@ + signed(n as int),
{
    let ghost before = out@;
    if n < 0 {
        out.push('-');
        push_decimal(out, (-(n as i64)) as u64);
        assert(out@ =~= before + signed(n as int));
    } else {
        push_decimal(out, n as u64);
    }
}

/// The parts of a text between the occurrences of `c`.
pub open spec fn split(s: Seq<char>, c: char) -> Seq<Seq<char>>
    decreases s.len(),
{
    let n = first_index(s, c);
    if n >= s.len() {
        seq![s]
    } else {
        proof {
            lemma_first_index(s, c);
        }
        seq![s.take(n)] + split(after(s, n + 1), c)
    }
}

/// The parts of a text between the occurrences of `c`.
pub fn split_on(s: &str, c: char) -> (r: Vec<String>)
    ensures
        views(r@) == split(s@, c),
        r@.len() >= 1,
{
    let cs = chars(s);
    let n: usize = cs.len();
    let mut out: Vec<String> = Vec::new();
    let mut start: usize = 0;
    assert(after(s@, 0) =~= s@);
    assert(views(out@) + split(s@, c) =~= split(s@, c));
    for i in 0..n
        invariant
            cs@ == s@,
            n == cs@.len(),
            start <= i,
            forall|j: int| start <= j < i ==> cs@[j] != c,
            views(out@) + split(after(s@, start as int), c) == split(s@, c),
    {
        if cs[i] == c {
            let part = string_of(vstd::slice::slice_subrange(cs.as_slice(), start, i));
            proof {
                let rest = after(s@, start as int);
                lemma_first_index_is(rest, c, i - start);
                assert(part@ =~= rest.take(i - start));
                assert(after(rest, i - start + 1) =~= after(s@, i + 1));
                assert(views(out@.push(part)) =~= views(out@).push(part@));
                assert(views(out@) + split(rest, c) =~= views(out@.push(part)) + split(
                    after(s@, i + 1),
                    c,
                ));
            }
            out.push(part);
            start = i + 1;
        }
    }
    let part = string_of(vstd::slice::slice_subrange(cs.as_slice(), start, n));
    proof {
        let rest = after(s@, start as int);
        lemma_first_index_is(rest, c, n - start);
        assert(part@ =~= rest);
        assert(views(out@.push(part)) =~= views(out@) + split(rest, c));
    }
    out.push(part);
    out
}

pub proof fn lemma_join_front(parts: Seq<Seq<char>>, sep: Seq<char>)
    requires
        parts.len() >= 2,
    ensures
        join(parts, sep) == parts[0] + sep + join(parts.drop_first(), sep),
    decreases parts.len(),
{
    if parts.len() == 2 {
        assert(parts.drop_last() =~= seq![parts[0]]);
        assert(parts.drop_first() =~= seq![parts[1]]);
        assert(join(parts.drop_last(), sep) == parts[0]);
        assert(join(parts.drop_first(), sep) == parts[1]);
    } else {
        lemma_join_front(parts.drop_last(), sep);
        assert(parts.drop_last().drop_first() =~= parts.drop_first().drop_last());
        assert(join(parts, sep) =~= parts[0] + sep + join(parts.drop_first(), sep));
    }
}

/// Parts that are joined by a character that occurs in none of them come back when
/// the text is split at that character.
pub proof fn split_gives_joined_parts_back(parts: Seq<Seq<char>>, c: char)
    requires
        parts.len() > 0,
        forall|i: int| 0 <= i < parts.len() ==> !(#[trigger] parts[i]).contains(c),
    ensures
        split(join(parts, seq![c]), c) == parts,
    decreases parts.len(),
{
    let whole = join(parts, seq![c]);
    let n = parts[0].len() as int;
    assert forall|i: int| 0 <= i < n implies parts[0][i] != c by {
        if parts[0][i] == c {
            assert(parts[0].contains(c));
        }
    }
    if parts.len() == 1 {
        lemma_first_index_is(whole, c, n);
        assert(parts =~= seq![parts[0]]);
    } else {
        lemma_join_front(parts, seq![c]);
        let rest = parts.drop_first();
        assert forall|i: int| 0 <= i < rest.len() implies !(#[trigger] rest[i]).contains(c) by {
            assert(rest[i] == parts[i + 1]);
        }
        split_gives_joined_parts_back(rest, c);
        assert forall|i: int| 0 <= i < n implies whole[i] != c by {
            assert(whole[i] == parts[0][i]);
        }
        assert(whole[n] == c);
        lemma_first_index_is(whole, c, n);
        assert(whole.take(n) =~= parts[0]);
        assert(after(whole, n + 1) =~= join(rest, seq![c]));
        assert(parts =~= seq![parts[0]] + rest);
    }
}

/// Different numbers have different notations.
pub proof fn decimal_is_injective(m: nat, n: nat)
    requires
        decimal(m) == decimal(n),
    ensures
        m == n,
    decreases m,
{
    let a = decimal(m);
    let b = decimal(n);
    lemma_decimal_len(m);
    lemma_decimal_len(n);
    assert(a.last() == digit((m % 10) as int));
    assert(b.last() == digit((n % 10) as int));
    if m >= 10 && n >= 10 {
        assert(a.drop_last() =~= decimal(m / 10));
        assert(b.drop_last() =~= decimal(n / 10));
        decimal_is_injective(m / 10, n / 10);
    }
}

proof fn lemma_decimal_len(n: nat)
    ensures
        decimal(n).len() >= 1,
        n >= 10 ==> decimal(n).len() >= 2,
    decreases n,
{
    if n >= 10 {
        lemma_decimal_len(n / 10);
    }
}

/// Two lists of parts can be joined one after the other.
pub proof fn lemma_join_concat(a: Seq<Seq<char>>, b: Seq<Seq<char>>, sep: Seq<char>)
    requires
        a.len() > 0,
        b.len() > 0,
    ensures
        join(a + b, sep) == join(a, sep) + sep + join(b, sep),
    decreases b.len(),
{
    let all = a + b;
    assert(all.drop_last() =~= a + b.drop_last());
    if b.len() == 1 {
        assert(all.drop_last() =~= a);
        assert(all.last() == b[0]);
    } else {
        lemma_join_concat(a, b.drop_last(), sep);
        assert(all.last() == b.last());
        assert(join(all, sep) =~= join(a, sep) + sep + join(b, sep));
    }
}

/// The text without the white space at its beginning.
pub open spec fn trim_start(s: Seq<char>) -> Seq<char>
    decreases s.len(),
{
    if s.len() > 0 && whitespace(s[0]) {
        trim_start(s.drop_first())
    } else {
        s
    }
}

/// The text without the white space at its end.
pub open spec fn trim_end(s: Seq<char>) -> Seq<char>
    decreases s.len(),
{
    if s.len() > 0 && whitespace(s.last()) {
        trim_end(s.drop_last())
    } else {
        s
    }
}

/// The text without the white space at its beginning and its end.
pub open spec fn trimmed(s: Seq<char>) -> Seq<char> {
    trim_end(trim_start(s))
}

/// The text without the occurrences of `c` at its beginning.
pub open spec fn strip_leading(s: Seq<char>, c: char) -> Seq<char>
    decreases s.len(),
{
    if s.len() > 0 && s[0] == c {
        strip_leading(s.drop_first(), c)
    } else {
        s
    }
}

/// The text without the white space at its beginning and its end.
pub fn trim(s: &str) -> (r: String)
    ensures
        r@ == trimmed(s@),
{
    let cs = chars(s);
    let mut from: usize = 0;
    let mut to: usize = cs.len();
    assert(after(s@, 0) =~= s@);
    while from < to && is_whitespace(cs[from])
        invariant
            cs@ == s@,
            from <= to == cs@.len(),
            trim_start(after(s@, from as int)) == trim_start(s@),
        decreases to - from,
    {
        assert(after(s@, from as int).drop_first() =~= after(s@, from + 1));
        from = from + 1;
    }
    let ghost body = after(s@, from as int);
    assert(body == trim_start(s@));
    assert(s@.subrange(from as int, to as int) =~= body);
    while from < to && is_whitespace(cs[to - 1])
        invariant
            cs@ == s@,
            from <= to <= cs@.len(),
            trim_end(s@.subrange(from as int, to as int)) == trim_end(body),
        decreases to - from,
    {
        assert(s@.subrange(from as int, to as int).drop_last() =~= s@.subrange(
            from as int,
            to - 1,
        ));
        to = to - 1;
    }
    string_of(vstd::slice::slice_subrange(cs.as_slice(), from, to))
}

/// The text without the occurrences of `c` at its beginning.
pub fn trim_leading(s: &str, c: char) -> (r: String)
    ensures
        r@ == strip_leading(s@, c),
{
    let cs = chars(s);
    let n: usize = cs.len();
    let mut from: usize = 0;
    assert(after(s@, 0) =~= s@);
    while from < n && cs[from] == c
        invariant
            cs@ == s@,
            from <= n == cs@.len(),
            strip_leading(after(s@, from as int), c) == strip_leading(s@, c),
        decreases n - from,
    {
        assert(after(s@, from as int).drop_first() =~= after(s@, from + 1));
        from = from + 1;
    }
    string_of(vstd::slice::slice_subrange(cs.as_slice(), from, n))
}

/// A text has no more lines than bytes.
pub proof fn lemma_lines_len(s: Seq<char>)
    ensures
        lines(s).len() <= s.len() <= byte_len(s),
    decreases s.len(),
{
    if s.len() > 0 {
        let n = first_index(s, '\n');
        lemma_first_index(s, '\n');
        lemma_byte_len(s);
        if n < s.len() {
            lemma_lines_len(after(s, n + 1));
        }
    }
}

pub(crate) proof fn lemma_more_bytes_than_chars(s: Seq<char>)
    ensures
        s.len() <= byte_len(s),
{
    lemma_byte_len(s);
}

proof fn lemma_byte_len(s: Seq<char>)
    ensures
        s.len() <= byte_len(s),
    decreases s.len(),
{
    if s.len() > 0 {
        lemma_byte_len(s.drop_first());
    }
}

/// Joins strings with a line feed between each two of them, from position `from` up to
/// position `to`.
pub fn join_lines(lines: &Vec<String>, from: usize, to: usize) -> (r: String)
    requires
        from <= to <= lines@.len(),
    ensures
        r@ == join(views(lines@).subrange(from as int, to as int), seq!['\n']),
{
    let ghost all = views(lines@);
    let mut out = String::new();
    let mut i: usize = from;
    while i < to
        invariant
            all == views(lines@),
            from <= i <= to <= lines@.len(),
            out@ == join(all.subrange(from as int, i as int), seq!['\n']),
        decreases to - i,
    {
        proof {
            let part = all.subrange(from as int, i + 1);
            assert(part.drop_last() =~= all.subrange(from as int, i as int));
            assert(part.last() == lines@[i as int]@);
        }
        if i > from {
            out.push('\n');
        }
        out.append(lines[i].as_str());
        proof {
            let part = all.subrange(from as int, i as int);
            if i > from {
                assert(out@ =~= join(part, seq!['\n']) + seq!['\n'] + lines@[i as int]@);
            } else {
                assert(out@ =~= lines@[i as int]@);
            }
        }
        i = i + 1;
    }
    out
}

/// A copy of the strings from position `from` up to position `to`.
pub fn copy_strings(v: &Vec<String>, from: usize, to: usize) -> (r: Vec<String>)
    requires
        from <= to <= v@.len(),
    ensures
        views(r@) == views(v@).subrange(from as int, to as int),
{
    let mut out: Vec<String> = Vec::new();
    let mut i: usize = from;
    assert(views(out@) =~= views(v@).subrange(from as int, from as int));
    while i < to
        invariant
            from <= i <= to <= v@.len(),
            views(out@) == views(v@).subrange(from as int, i as int),
        decreases to - i,
    {
        let s = v[i].clone();
        assert(views(out@.push(s)) =~= views(out@).push(views(v@)[i as int]));
        assert(views(out@.push(s)) =~= views(v@).subrange(from as int, i + 1));
        out.push(s);
        i = i + 1;
    }
    out
}

/// `part` stands in `s` at position `i`.
pub open spec fn occurs_at(s: Seq<char>, part: Seq<char>, i: int) -> bool {
    0 <= i && i + part.len() <= s.len() && s.subrange(i, i + part.len()) == part
}

/// `part` stands somewhere in `s`.
pub open spec fn has_part(s: Seq<char>, part: Seq<char>) -> bool {
    exists|i: int| occurs_at(s, part, i)
}

/// Whether the characters of `part` stand in `cs` at position `i`.
pub fn part_at(cs: &Vec<char>, part: &Vec<char>, i: usize) -> (r: bool)
    requires
        i <= cs@.len(),
    ensures
        r == occurs_at(cs@, part@, i as int),
{
    let n: usize = part.len();
    let total: usize = cs.len();
    if n > total - i {
        return false;
    }
    for j in 0..n
        invariant
            n == part@.len(),
            total == cs@.len(),
            i + n <= total,
            forall|k: int| 0 <= k < j ==> #[trigger] cs@[i + k] == part@[k],
    {
        if cs[i + j] != part[j] {
            assert(cs@.subrange(i as int, i + n)[j as int] != part@[j as int]);
            return false;
        }
    }
    assert forall|k: int| 0 <= k < n implies cs@.subrange(i as int, i + n)[k] == part@[k] by {
        assert(cs@[i + k] == part@[k]);
    }
    assert(cs@.subrange(i as int, i + n) =~= part@);
    true
}

/// Whether `part` stands somewhere in `s`.
pub fn contains(s: &str, part: &str) -> (r: bool)
    ensures
        r == has_part(s@, part@),
{
    let cs = chars(s);
    let ps = chars(part);
    let n: usize = cs.len();
    let mut i: usize = 0;
    while i < n
        invariant
            cs@ == s@,
            ps@ == part@,
            i <= n == cs@.len(),
            forall|k: int| 0 <= k < i ==> !occurs_at(s@, part@, k),
        decreases n - i,
    {
        if part_at(&cs, &ps, i) {
            return true;
        }
        i = i + 1;
    }
    let at_end = part_at(&cs, &ps, n);
    proof {
        if !at_end {
            assert forall|k: int| !occurs_at(s@, part@, k) by {
                if k >= n && occurs_at(s@, part@, k) {
                    assert(k == n);
                }
            }
        }
    }
    at_end
}

/// Whether a text begins with a character.
pub fn starts_with_char(s: &str, c: char) -> (r: bool)
    ensures
        r == (s@.len() > 0 && s@[0] == c),
{
    let cs = chars(s);
    cs.len() > 0 && cs[0] == c
}

/// Whether a text ends with a character.
pub fn ends_with_char(s: &str, c: char) -> (r: bool)
    ensures
        r == (s@.len() > 0 && s@.last() == c),
{
    let cs = chars(s);
    cs.len() > 0 && cs[cs.len() - 1] == c
}

/// Position of the first `c`, or the length of the text if there is none.
pub fn find_char(cs: &Vec<char>, c: char) -> (r: usize)
    ensures
        r == first_index(cs@, c),
        r <= cs@.len(),
{
    let n: usize = cs.len();
    let mut i: usize = 0;
    while i < n && cs[i] != c
        invariant
            i <= n == cs@.len(),
            forall|j: int| 0 <= j < i ==> cs@[j] != c,
        decreases n - i,
    {
        i = i + 1;
    }
    proof {
        lemma_first_index_is(cs@, c, i as int);
    }
    i
}

/// A text with another before it and a third after it.
pub fn around(before: &str, s: &str, after: &str) -> (r: String)
    ensures
        r@ == before@ + s@ + after@,
{
    let mut out = before.to_owned();
    out.append(s);
    out.append(after);
    out
}

/// A number with a text before it and another after it.
pub fn around_number(before: &str, n: u64, after: &str) -> (r: String)
    ensures
        r@ == before@ + decimal(n as nat) + after@,
{
    let mut out = before.to_owned();
    push_decimal(&mut out, n);
    out.append(after);
    out
}

/// A text with a number behind it.
pub fn before_number(before: &str, n: usize) -> (r: String)
    ensures
        r@ == before@ + decimal(n as nat),
{
    let mut out = before.to_owned();
    push_decimal(&mut out, n as u64);
    out
}

/// Whether two lists hold the same texts.
pub fn same_texts(a: &Vec<String>, b: &Vec<String>) -> (r: bool)
    ensures
        r == (views(a@) == views(b@)),
{
    if a.len() != b.len() {
        assert(views(a@).len() != views(b@).len());
        return false;
    }
    let n: usize = a.len();
    for i in 0..n
        invariant
            n == a@.len() == b@.len(),
            forall|j: int| 0 <= j < i ==> #[trigger] views(a@)[j] == views(b@)[j],
    {
        if !same(a[i].as_str(), b[i].as_str()) {
            assert(views(a@)[i as int] != views(b@)[i as int]);
            return false;
        }
        assert(views(a@)[i as int] == views(b@)[i as int]);
    }
    assert(views(a@) =~= views(b@));
    true
}

/// Number of bytes of a character in UTF-8.
pub open spec fn width(c: char) -> int {
    if c <= '\u{7f}' {
        1
    } else if c <= '\u{7ff}' {
        2
    } else if c <= '\u{ffff}' {
        3
    } else {
        4
    }
}

/// The number of characters at the front that take `n` bytes, if some do exactly.
pub open spec fn cut(s: Seq<char>, n: int) -> Option<int>
    decreases s.len(),
{
    if n == 0 {
        Some(0)
    } else if s.len() == 0 || width(s[0]) > n {
        None
    } else {
        match cut(s.drop_first(), n - width(s[0])) {
            Some(k) => Some(k + 1),
            None => None,
        }
    }
}

/// The number of characters at the front that take `n` bytes, see [`cut`].
pub fn cut_at(cs: &Vec<char>, n: usize) -> (r: Option<usize>)
    ensures
        match r {
            Some(k) => k <= cs@.len() && cut(cs@, n as int) == Some(k as int),
            None => cut(cs@, n as int) is None,
        },
{
    let mut left: usize = n;
    let mut k: usize = 0;
    assert(cs@.skip(0) =~= cs@);
    while left > 0
        invariant
            k <= cs@.len(),
            left <= n,
            match cut(cs@.skip(k as int), left as int) {
                Some(m) => cut(cs@, n as int) == Some(k + m),
                None => cut(cs@, n as int) is None,
            },
        decreases left,
    {
        if k >= cs.len() {
            return None;
        }
        let c = cs[k];
        let w: usize = if c <= '\u{7f}' {
            1
        } else if c <= '\u{7ff}' {
            2
        } else if c <= '\u{ffff}' {
            3
        } else {
            4
        };
        if w > left {
            return None;
        }
        assert(cs@.skip(k as int).drop_first() =~= cs@.skip(k + 1));
        k = k + 1;
        left = left - w;
    }
    Some(k)
}

/// A text in which one character stands for another.
pub open spec fn replaced(s: Seq<char>, from: char, to: char) -> Seq<char> {
    s.map_values(
        |c: char|
            if c == from {
                to
            } else {
                c
            },
    )
}

/// A text in which one character stands for another, see [`replaced`].
pub fn replace_char(s: &str, from: char, to: char) -> (r: String)
    ensures
        r@ == replaced(s@, from, to),
{
    let cs = chars(s);
    let mut out = String::new();
    let n: usize = cs.len();
    for i in 0..n
        invariant
            n == cs@.len(),
            cs@ == s@,
            out@ =~= replaced(s@.take(i as int), from, to),
    {
        let c = cs[i];
        out.push(
            if c == from {
                to
            } else {
                c
            },
        );
        assert(out@ =~= replaced(s@.take(i + 1), from, to));
    }
    assert(s@.take(n as int) =~= s@);
    out
}

/// The text from a position to another.
pub fn part_of(cs: &Vec<char>, from: usize, to: usize) -> (r: String)
    requires
        from <= to <= cs@.len(),
    ensures
        r@ == cs@.subrange(from as int, to as int),
{
    string_of(vstd::slice::slice_subrange(cs.as_slice(), from, to))
}

/// A number of more than one digit is written as the number of its tens, followed by its last
/// digit.
pub proof fn numbers_are_written_digit_by_digit(n: nat, d: nat)
    requires
        d < 10,
    ensures
        decimal(d) == seq![(0x30 + d) as char],
        n > 0 ==> decimal(10 * n + d) == decimal(n).push((0x30 + d) as char),
        n > 0 ==> signed(-n) == seq!['-'] + decimal(n),
        signed(n as int) == decimal(n),
{
    assert((10 * n + d) / 10 == n);
    assert((10 * n + d) % 10 == d);
}

/// A line ends before a line feed, or before a carriage return and a line feed, or at the end of
/// the text.
pub proof fn lines_end_at_line_feeds(line: Seq<char>, rest: Seq<char>)
    requires
        !line.contains('\n'),
        line.len() > 0 ==> line.last() != '\r',
    ensures
        lines(line + seq!['\n'] + rest) == seq![line] + lines(rest),
        lines(line + seq!['\r', '\n'] + rest) == seq![line] + lines(rest),
        line.len() > 0 ==> lines(line) == seq![line],
        lines(Seq::empty()) == Seq::<Seq<char>>::empty(),
{
    let a = line + seq!['\n'] + rest;
    let b = line + seq!['\r', '\n'] + rest;
    let n = line.len() as int;
    assert forall|i: int| 0 <= i < n implies a[i] != '\n' && b[i] != '\n' by {
        assert(line.contains(line[i]));
        assert(a[i] == line[i] && b[i] == line[i]);
    }
    lemma_first_index_is(a, '\n', n);
    assert(a.take(n) =~= line);
    assert(after(a, n + 1) =~= rest);
    assert(b[n] == '\r' && b[n + 1] == '\n');
    lemma_first_index_is(b, '\n', n + 1);
    assert(b.take(n + 1) =~= line.push('\r'));
    assert(line.push('\r').drop_last() =~= line);
    assert(after(b, n + 2) =~= rest);
    lemma_first_index(line, '\n');
    if first_index(line, '\n') < n {
        assert(line.contains(line[first_index(line, '\n')]));
    }
}

/// White space at both ends is taken away, and nothing else.
pub proof fn trimming_takes_white_space_away(before: Seq<char>, s: Seq<char>, after: Seq<char>)
    requires
        blank(before),
        blank(after),
        s.len() > 0,
        !whitespace(s[0]),
        !whitespace(s.last()),
    ensures
        trimmed(before + s + after) == s,
{
    lemma_trim_start(before, s + after);
    assert(before + s + after =~= before + (s + after));
    assert((s + after)[0] == s[0]);
    lemma_trim_end(s, after);
}

proof fn lemma_trim_start(before: Seq<char>, s: Seq<char>)
    requires
        blank(before),
        s.len() > 0,
        !whitespace(s[0]),
    ensures
        trim_start(before + s) == s,
    decreases before.len(),
{
    let all = before + s;
    if before.len() > 0 {
        assert(whitespace(before[0]));
        assert(all[0] == before[0]);
        assert(all.drop_first() =~= before.drop_first() + s);
        assert forall|i: int| 0 <= i < before.drop_first().len() implies whitespace(
            #[trigger] before.drop_first()[i],
        ) by {
            assert(whitespace(before[i + 1]));
        }
        lemma_trim_start(before.drop_first(), s);
    } else {
        assert(all =~= s);
    }
}

proof fn lemma_trim_end(s: Seq<char>, after: Seq<char>)
    requires
        blank(after),
        s.len() > 0,
        !whitespace(s.last()),
    ensures
        trim_end(s + after) == s,
    decreases after.len(),
{
    let all = s + after;
    if after.len() > 0 {
        assert(whitespace(after[after.len() - 1]));
        assert(all.last() == after.last());
        assert(all.drop_last() =~= s + after.drop_last());
        assert forall|i: int| 0 <= i < after.drop_last().len() implies whitespace(
            #[trigger] after.drop_last()[i],
        ) by {
            assert(whitespace(after[i]));
        }
        lemma_trim_end(s, after.drop_last());
    } else {
        assert(all =~= s);
    }
}

}
