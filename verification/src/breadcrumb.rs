//! Breadcrumbs: hierarchical locators of the form `package:file:symbol_or_heading`.
//!
//! In the components, the characters that the notation reserves are percent-encoded.
//! The slash is not: it separates the parts of a path. Headings of a document become
//! slugs, in the way of GitHub.
use crate::text;
use vstd::prelude::*;
use vstd::utf8::{encode_scalar, encode_utf8};

verus! {

/// Characters that may not stand in a component as they are.
pub open spec fn reserved(c: char) -> bool {
    ||| c == ':'
    ||| c == '@'
    ||| c == '='
    ||| c == '+'
    ||| c == '#'
    ||| c == '%'
    ||| text::control(c)
    ||| text::whitespace(c)
}

/// The hexadecimal digit for a number below sixteen, in upper case.
pub open spec fn hex_upper(n: int) -> char {
    if n < 10 {
        (0x30 + n) as char
    } else {
        (0x37 + n) as char
    }
}

/// Bytes as percent signs and two hexadecimal digits each.
pub open spec fn escaped(bytes: Seq<u8>) -> Seq<char>
    decreases bytes.len(),
{
    if bytes.len() == 0 {
        Seq::empty()
    } else {
        seq!['%', hex_upper(bytes[0] as int / 16), hex_upper(bytes[0] as int % 16)] + escaped(
            bytes.drop_first(),
        )
    }
}

/// What stands for a character in an encoded component.
pub open spec fn encoded_char(c: char) -> Seq<char> {
    if reserved(c) {
        escaped(encode_scalar(c as u32))
    } else {
        seq![c]
    }
}

/// The encoded form of a component.
pub open spec fn encoded(s: Seq<char>) -> Seq<char>
    decreases s.len(),
{
    if s.len() == 0 {
        Seq::empty()
    } else {
        encoded_char(s[0]) + encoded(s.drop_first())
    }
}

fn is_reserved(c: char) -> (r: bool)
    ensures
        r == reserved(c),
{
    c == ':' || c == '@' || c == '=' || c == '+' || c == '#' || c == '%' || text::is_control(c)
        || text::is_whitespace(c)
}

fn push_hex(out: &mut String, n: u8)
    requires
        n < 16,
    ensures
        final(out)@ == old(out)@.push(hex_upper(n as int)),
{
    if n < 10 {
        out.push((0x30u8 + n) as char);
    } else {
        out.push((0x37u8 + n) as char);
    }
}

/// Appends bytes in escaped form.
fn push_escaped(out: &mut String, bytes: &[u8])
    ensures
        final(out)@ == old(out)@ + escaped(bytes@),
{
    let n: usize = bytes.len();
    let ghost before = out@;
    assert(bytes@.subrange(0, n as int) =~= bytes@);
    for i in 0..n
        invariant
            n == bytes@.len(),
            out@ + escaped(bytes@.subrange(i as int, n as int)) == before + escaped(bytes@),
    {
        let b: u8 = bytes[i];
        let ghost rest = bytes@.subrange(i as int, n as int);
        let ghost so_far = out@;
        assert(rest.drop_first() =~= bytes@.subrange(i + 1, n as int));
        out.push('%');
        push_hex(out, b / 16);
        push_hex(out, b % 16);
        assert(out@ + escaped(rest.drop_first()) =~= so_far + escaped(rest));
    }
    assert(out@ + escaped(bytes@.subrange(n as int, n as int)) =~= out@);
}

/// Percent-encodes the reserved characters of a component.
pub fn encode_path_component(s: &str) -> (r: String)
    ensures
        r@ == encoded(s@),
{
    let cs = text::chars(s);
    let n: usize = cs.len();
    let mut out = String::new();
    assert(text::after(s@, 0) =~= s@);
    assert(out@ + encoded(s@) =~= encoded(s@));
    for i in 0..n
        invariant
            n == cs@.len(),
            cs@ == s@,
            out@ + encoded(text::after(s@, i as int)) == encoded(s@),
    {
        let c = cs[i];
        let ghost rest = text::after(s@, i as int);
        let ghost so_far = out@;
        assert(rest.drop_first() =~= text::after(s@, i + 1));
        if is_reserved(c) {
            let mut one = String::new();
            one.push(c);
            proof {
                assert(one@ =~= seq![c]);
                assert(seq![c].drop_first() =~= Seq::<char>::empty());
                reveal_with_fuel(encode_utf8, 2);
                assert(encode_utf8(seq![c]) =~= encode_scalar(c as u32));
            }
            push_escaped(&mut out, one.as_str().as_bytes());
        } else {
            out.push(c);
        }
        assert(out@ + encoded(rest.drop_first()) =~= so_far + encoded(rest));
    }
    assert(out@ + encoded(text::after(s@, n as int)) =~= out@);
    out
}

/// The value of a hexadecimal digit in upper case.
pub open spec fn hex_value(c: char) -> int {
    if c as int <= 0x39 {
        c as int - 0x30
    } else {
        c as int - 0x37
    }
}

/// The UTF-8 bytes that an encoded component stands for.
pub open spec fn decoded(s: Seq<char>) -> Seq<u8>
    decreases s.len(),
{
    if s.len() == 0 {
        Seq::empty()
    } else if s[0] == '%' && s.len() >= 3 {
        seq![(16 * hex_value(s[1]) + hex_value(s[2])) as u8] + decoded(s.skip(3))
    } else {
        encode_scalar(s[0] as u32) + decoded(s.drop_first())
    }
}

proof fn lemma_decoded_escaped(bytes: Seq<u8>, rest: Seq<char>)
    ensures
        decoded(escaped(bytes) + rest) == bytes + decoded(rest),
    decreases bytes.len(),
{
    if bytes.len() == 0 {
        assert(escaped(bytes) + rest =~= rest);
        assert(bytes + decoded(rest) =~= decoded(rest));
    } else {
        let b = bytes[0];
        let tail = escaped(bytes.drop_first()) + rest;
        let all = escaped(bytes) + rest;
        lemma_decoded_escaped(bytes.drop_first(), rest);
        assert(all.skip(3) =~= tail);
        assert(all[0] == '%' && all[1] == hex_upper(b as int / 16) && all[2] == hex_upper(
            b as int % 16,
        ));
        assert((16 * hex_value(all[1]) + hex_value(all[2])) as u8 == b);
        assert(decoded(all) =~= bytes + decoded(rest));
    }
}

/// Decoding an encoded component gives its UTF-8 bytes back.
pub proof fn decoding_undoes_encoding(s: Seq<char>)
    ensures
        decoded(encoded(s)) == encode_utf8(s),
    decreases s.len(),
{
    if s.len() > 0 {
        let rest = encoded(s.drop_first());
        decoding_undoes_encoding(s.drop_first());
        if reserved(s[0]) {
            lemma_decoded_escaped(encode_scalar(s[0] as u32), rest);
        } else {
            assert((seq![s[0]] + rest).drop_first() =~= rest);
        }
    }
}

/// Two components with the same encoded form are the same.
pub proof fn encoding_is_injective(a: Seq<char>, b: Seq<char>)
    requires
        encoded(a) == encoded(b),
    ensures
        a == b,
{
    broadcast use vstd::utf8::encode_utf8_decode_utf8;

    decoding_undoes_encoding(a);
    decoding_undoes_encoding(b);
    assert(vstd::utf8::decode_utf8(encode_utf8(a)) == a);
    assert(vstd::utf8::decode_utf8(encode_utf8(b)) == b);
}

proof fn lemma_escaped_safe(bytes: Seq<u8>)
    ensures
        forall|i: int|
            0 <= i < escaped(bytes).len() ==> (#[trigger] escaped(bytes)[i]) == '%' || !reserved(
                escaped(bytes)[i],
            ),
    decreases bytes.len(),
{
    if bytes.len() > 0 {
        let tail = escaped(bytes.drop_first());
        lemma_escaped_safe(bytes.drop_first());
        assert forall|i: int| 0 <= i < escaped(bytes).len() implies (#[trigger] escaped(bytes)[i])
            == '%' || !reserved(escaped(bytes)[i]) by {
            if i >= 3 {
                assert(escaped(bytes)[i] == tail[i - 3]);
            }
        }
    }
}

/// In an encoded component no reserved character is left but the percent sign.
pub proof fn encoded_component_is_safe(s: Seq<char>)
    ensures
        forall|i: int|
            0 <= i < encoded(s).len() ==> (#[trigger] encoded(s)[i]) == '%' || !reserved(
                encoded(s)[i],
            ),
    decreases s.len(),
{
    if s.len() > 0 {
        let first = encoded_char(s[0]);
        let rest = encoded(s.drop_first());
        encoded_component_is_safe(s.drop_first());
        lemma_escaped_safe(encode_scalar(s[0] as u32));
        assert forall|i: int| 0 <= i < encoded(s).len() implies (#[trigger] encoded(s)[i]) == '%'
            || !reserved(encoded(s)[i]) by {
            if i < first.len() {
                assert(encoded(s)[i] == first[i]);
            } else {
                assert(encoded(s)[i] == rest[i - first.len()]);
            }
        }
    }
}

/// A breadcrumb of the given components.
pub open spec fn breadcrumb(components: Seq<Seq<char>>) -> Seq<char> {
    text::join(components.map_values(|s: Seq<char>| encoded(s)), seq![':'])
}

/// The encoded components are what a breadcrumb falls into at its colons.
pub proof fn breadcrumb_splits_at_colons(components: Seq<Seq<char>>)
    requires
        components.len() > 0,
    ensures
        text::split(breadcrumb(components), ':') == components.map_values(
            |s: Seq<char>| encoded(s),
        ),
{
    let parts = components.map_values(|s: Seq<char>| encoded(s));
    assert forall|i: int| 0 <= i < parts.len() implies !(#[trigger] parts[i]).contains(':') by {
        encoded_component_is_safe(components[i]);
        if parts[i].contains(':') {
            let k = choose|k: int| 0 <= k < parts[i].len() && parts[i][k] == ':';
            assert(encoded(components[i])[k] == ':');
        }
    }
    text::split_gives_joined_parts_back(parts, ':');
}

/// The GitHub slugger: it remembers the slugs that it has given.
#[verifier::external_type_specification]
#[verifier::external_body]
pub struct ExSlugger(github_slugger::Slugger);

/// The slugs that a slugger has given so far.
pub uninterp spec fn given_slugs(slugger: github_slugger::Slugger) -> Set<Seq<char>>;

/// The slug of a heading that has not occurred before.
pub uninterp spec fn plain_slug(heading: Seq<char>) -> Seq<char>;

/// The slug with the number that tells repetitions apart; zero stands for none.
pub open spec fn numbered(slug: Seq<char>, k: nat) -> Seq<char> {
    if k == 0 {
        slug
    } else {
        slug + seq!['-'] + text::decimal(k)
    }
}

/// `k` is the smallest number with which the slug is free.
pub open spec fn first_free(given: Set<Seq<char>>, slug: Seq<char>, k: nat) -> bool {
    &&& !given.contains(numbered(slug, k))
    &&& forall|j: nat| j < k ==> given.contains(#[trigger] numbered(slug, j))
}

/// The slug that a heading gets after the given ones.
pub open spec fn next_slug(given: Set<Seq<char>>, heading: Seq<char>) -> Seq<char> {
    let slug = plain_slug(heading);
    numbered(slug, choose|k: nat| first_free(given, slug, k))
}

/// `github_slugger::Slugger::default`: a slugger that has not given any slug.
#[verifier::external_body]
pub(crate) fn new_slugger() -> (r: github_slugger::Slugger)
    ensures
        given_slugs(r) == Set::<Seq<char>>::empty(),
{
    github_slugger::Slugger::default()
}

/// Turns a heading into a slug by `github_slugger::Slugger::slug`. A heading whose plain
/// slug was given before gets the smallest number with which it is free; the slug is
/// remembered. The number is a signed 32-bit one, which bounds how many may be given.
#[verifier::external_body]
pub fn slugify_heading(slugger: &mut github_slugger::Slugger, heading: &str) -> (r: String)
    requires
        given_slugs(*old(slugger)).finite(),
        given_slugs(*old(slugger)).len() < 0x7fff_ffff,
    ensures
        r@ == next_slug(given_slugs(*old(slugger)), heading@),
        exists|k: nat|
            first_free(given_slugs(*old(slugger)), plain_slug(heading@), k) && r@ == #[trigger] numbered(
                plain_slug(heading@),
                k,
            ),
        given_slugs(*final(slugger)) == given_slugs(*old(slugger)).insert(r@),
{
    slugger.slug(heading)
}

proof fn lemma_numbered_injective(slug: Seq<char>, j: nat, k: nat)
    requires
        numbered(slug, j) == numbered(slug, k),
    ensures
        j == k,
{
    let a = numbered(slug, j);
    let n = slug.len() as int;
    if j > 0 && k > 0 {
        assert(text::after(a, n + 1) =~= text::decimal(j));
        assert(text::after(a, n + 1) =~= text::decimal(k));
        text::decimal_is_injective(j, k);
    } else if j > 0 {
        assert(a.len() > n);
    } else if k > 0 {
        assert(numbered(slug, k).len() > n);
    }
}

/// A set that holds a slug with the numbers below `n` has at least `n` members.
proof fn lemma_taken_slugs(given: Set<Seq<char>>, slug: Seq<char>, n: nat)
    requires
        given.finite(),
        forall|j: nat| j < n ==> given.contains(#[trigger] numbered(slug, j)),
    ensures
        n <= given.len(),
    decreases n,
{
    if n > 0 {
        let last = (n - 1) as nat;
        let fewer = given.remove(numbered(slug, last));
        assert(given.contains(numbered(slug, last)));
        assert forall|j: nat| j < last implies fewer.contains(#[trigger] numbered(slug, j)) by {
            if numbered(slug, j) == numbered(slug, last) {
                lemma_numbered_injective(slug, j, last);
            }
        }
        lemma_taken_slugs(fewer, slug, last);
    }
}

/// Below `n`, some number is the first with which the slug is free, unless all are taken.
proof fn lemma_first_free(given: Set<Seq<char>>, slug: Seq<char>, n: nat)
    ensures
        (exists|k: nat| first_free(given, slug, k)) || (forall|j: nat|
            j < n ==> given.contains(#[trigger] numbered(slug, j))),
    decreases n,
{
    if n > 0 {
        let last = (n - 1) as nat;
        lemma_first_free(given, slug, last);
        if !(exists|k: nat| first_free(given, slug, k)) {
            if !given.contains(numbered(slug, last)) {
                assert(first_free(given, slug, last));
            }
        }
    }
}

/// The slug that a heading gets is a new one, and it is the plain slug if that is new.
pub proof fn slugs_are_never_repeated(given: Set<Seq<char>>, heading: Seq<char>)
    requires
        given.finite(),
    ensures
        !given.contains(next_slug(given, heading)),
        !given.contains(plain_slug(heading)) ==> next_slug(given, heading) == plain_slug(heading),
{
    let slug = plain_slug(heading);
    let n = given.len() + 1;
    lemma_first_free(given, slug, n);
    if !(exists|k: nat| first_free(given, slug, k)) {
        lemma_taken_slugs(given, slug, n);
    }
    let k = choose|k: nat| first_free(given, slug, k);
    assert(first_free(given, slug, k));
    if !given.contains(slug) && k > 0 {
        assert(given.contains(numbered(slug, 0)));
    }
}

/// Components are encoded character by character. The characters of the notation become a percent
/// sign with two hexadecimal digits; letters, digits and the marks of paths and names stay.
pub proof fn components_are_encoded_one_by_one(a: Seq<char>, b: Seq<char>, c: char)
    ensures
        encoded(a + b) == encoded(a) + encoded(b),
        encoded(a + seq![':'] + b) == encoded(a) + "%3A"@ + encoded(b),
        encoded(a + seq!['@'] + b) == encoded(a) + "%40"@ + encoded(b),
        encoded(a + seq!['='] + b) == encoded(a) + "%3D"@ + encoded(b),
        encoded(a + seq!['+'] + b) == encoded(a) + "%2B"@ + encoded(b),
        encoded(a + seq!['#'] + b) == encoded(a) + "%23"@ + encoded(b),
        encoded(a + seq!['%'] + b) == encoded(a) + "%25"@ + encoded(b),
        encoded(a + seq![' '] + b) == encoded(a) + "%20"@ + encoded(b),
        'a' <= c <= 'z' || 'A' <= c <= 'Z' || '0' <= c <= '9' || c == '/' || c == '.' || c == '-'
            || c == '_' ==> encoded(a + seq![c] + b) == encoded(a) + seq![c] + encoded(b),
{
    lemma_encoded_concat(a, b);
    lemma_encoded_between(a, ':', b);
    lemma_encoded_between(a, '@', b);
    lemma_encoded_between(a, '=', b);
    lemma_encoded_between(a, '+', b);
    lemma_encoded_between(a, '#', b);
    lemma_encoded_between(a, '%', b);
    lemma_encoded_between(a, ' ', b);
    lemma_encoded_between(a, c, b);
    reveal_strlit("%3A");
    reveal_strlit("%40");
    reveal_strlit("%3D");
    reveal_strlit("%2B");
    reveal_strlit("%23");
    reveal_strlit("%25");
    reveal_strlit("%20");
    lemma_escape(':', "%3A"@);
    lemma_escape('@', "%40"@);
    lemma_escape('=', "%3D"@);
    lemma_escape('+', "%2B"@);
    lemma_escape('#', "%23"@);
    lemma_escape('%', "%25"@);
    lemma_escape(' ', "%20"@);
}

proof fn lemma_encoded_concat(a: Seq<char>, b: Seq<char>)
    ensures
        encoded(a + b) == encoded(a) + encoded(b),
    decreases a.len(),
{
    let all = a + b;
    if a.len() == 0 {
        assert(all =~= b);
        assert(encoded(a) + encoded(b) =~= encoded(b));
    } else {
        lemma_encoded_concat(a.drop_first(), b);
        assert(all[0] == a[0]);
        assert(all.drop_first() =~= a.drop_first() + b);
        assert(encoded(all) =~= encoded(a) + encoded(b));
    }
}

proof fn lemma_encoded_between(a: Seq<char>, c: char, b: Seq<char>)
    ensures
        encoded(a + seq![c] + b) == encoded(a) + encoded_char(c) + encoded(b),
{
    lemma_encoded_concat(a + seq![c], b);
    lemma_encoded_concat(a, seq![c]);
    let one = seq![c];
    assert(one.drop_first() =~= Seq::empty());
    assert(encoded(one.drop_first()) =~= Seq::empty());
    assert(one[0] == c);
    assert(encoded(one) == encoded_char(one[0]) + encoded(one.drop_first()));
    assert(encoded(one) =~= encoded_char(c));
}

proof fn lemma_escape(c: char, text: Seq<char>)
    requires
        reserved(c),
        (c as u32) < 128,
        text.len() == 3,
        text[0] == '%',
        text[1] == hex_upper(c as int / 16),
        text[2] == hex_upper(c as int % 16),
    ensures
        encoded_char(c) == text,
{
    let bytes = encode_scalar(c as u32);
    let n = c as u32;
    assert((n & 0x7f) as u8 == n as u8) by (bit_vector)
        requires
            n < 128,
    ;
    assert(bytes =~= seq![n as u8]);
    assert(bytes[0] as int == c as int);
    assert(bytes.drop_first() =~= Seq::empty());
    assert(escaped(bytes.drop_first()) =~= Seq::empty());
    assert(encoded_char(c) =~= text);
}

/// Nothing of the notation is left in an encoded component, nor white space, nor what a terminal
/// would obey.
pub proof fn nothing_of_the_notation_is_left(s: Seq<char>, i: int)
    requires
        0 <= i < encoded(s).len(),
    ensures
        ({
            let c = encoded(s)[i];
            &&& c != ':' && c != '@' && c != '=' && c != '+' && c != '#'
            &&& c != ' ' && c != '\t' && c != '\n' && c != '\r'
            &&& c as int > 0x20
        }),
{
    encoded_component_is_safe(s);
    assert(encoded(s)[i] == '%' || !reserved(encoded(s)[i]));
}

}
