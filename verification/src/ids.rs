//! Content hashes and the identifiers of files and chunks.
use crate::text;
use vstd::prelude::*;
use vstd::utf8::encode_utf8;

verus! {

/// Identifies the model that turns chunks into vectors.
pub const EMBEDDER_ID: &'static str = "jina-embeddings-v2-base-code:v1";

/// Identifies the way in which files are divided into chunks.
pub const CHUNKER_ID: &'static str = "typescript-partitioner:v1";

/// The SHA-256 digest of a byte sequence.
pub uninterp spec fn sha256(bytes: Seq<u8>) -> Seq<u8>;

/// `sha2::Sha256::digest`: the SHA-256 digest, which has 32 bytes and depends on the
/// input alone.
#[verifier::external_body]
fn sha256_digest(bytes: &[u8]) -> (r: Vec<u8>)
    ensures
        r@ == sha256(bytes@),
        r@.len() == 32,
{
    <sha2::Sha256 as sha2::Digest>::digest(bytes).to_vec()
}

/// The hexadecimal digit for a number below sixteen, in lower case.
pub open spec fn hex_lower(n: int) -> char {
    if n < 10 {
        (0x30 + n) as char
    } else {
        (0x57 + n) as char
    }
}

/// Bytes in hexadecimal notation, two digits each.
pub open spec fn hex(bytes: Seq<u8>) -> Seq<char>
    decreases bytes.len(),
{
    if bytes.len() == 0 {
        Seq::empty()
    } else {
        hex(bytes.drop_last()).push(hex_lower(bytes.last() as int / 16)).push(
            hex_lower(bytes.last() as int % 16),
        )
    }
}

fn hex_digit(n: u8) -> (r: char)
    requires
        n < 16,
    ensures
        r == hex_lower(n as int),
{
    if n < 10 {
        (0x30u8 + n) as char
    } else {
        (0x57u8 + n) as char
    }
}

/// Appends the first `n` bytes in hexadecimal notation.
fn push_hex(out: &mut String, bytes: &Vec<u8>, n: usize)
    requires
        n <= bytes@.len(),
    ensures
        final(out)@ == old(out)@ + hex(bytes@.take(n as int)),
{
    let ghost before = out@;
    assert(before + hex(bytes@.take(0)) =~= before);
    for i in 0..n
        invariant
            n <= bytes@.len(),
            out@ == before + hex(bytes@.take(i as int)),
    {
        assert(bytes@.take(i + 1).drop_last() =~= bytes@.take(i as int));
        out.push(hex_digit(bytes[i] / 16));
        out.push(hex_digit(bytes[i] % 16));
        assert(out@ =~= before + hex(bytes@.take(i + 1)));
    }
}

/// The content hash of a text.
pub open spec fn content_hash(s: Seq<char>) -> Seq<char> {
    "sha256:"@ + hex(sha256(encode_utf8(s)))
}

/// The content hash of a text: the digest of its UTF-8 bytes, with the algorithm's name.
pub fn compute_hash(content: &str) -> (r: String)
    ensures
        r@ == content_hash(content@),
{
    let digest = sha256_digest(content.as_bytes());
    let mut out = "sha256:".to_owned();
    push_hex(&mut out, &digest, 32);
    assert(digest@.take(32) =~= digest@);
    out
}

/// What the identifier of a file is the digest of: the four parts with null characters
/// between them.
pub open spec fn file_key(
    embedder_id: Seq<char>,
    chunker_id: Seq<char>,
    blob_id: Seq<char>,
    relative_path: Seq<char>,
) -> Seq<char> {
    embedder_id + seq!['\0'] + chunker_id + seq!['\0'] + blob_id + seq!['\0'] + relative_path
}

/// The identifier of a file with a given content at a given path.
pub open spec fn file_id(
    embedder_id: Seq<char>,
    chunker_id: Seq<char>,
    blob_id: Seq<char>,
    relative_path: Seq<char>,
) -> Seq<char> {
    hex(sha256(encode_utf8(file_key(embedder_id, chunker_id, blob_id, relative_path))).take(8))
}

/// A hexadecimal digit, in either case.
pub open spec fn hex_digit_char(c: char) -> bool {
    ('0' <= c && c <= '9') || ('a' <= c && c <= 'f') || ('A' <= c && c <= 'F')
}

/// The form of a file's identifier: sixteen hexadecimal digits.
pub open spec fn is_file_id(s: Seq<char>) -> bool {
    s.len() == 16 && forall|i: int| 0 <= i < s.len() ==> hex_digit_char(#[trigger] s[i])
}

proof fn lemma_hex(bytes: Seq<u8>)
    ensures
        hex(bytes).len() == 2 * bytes.len(),
        forall|i: int| 0 <= i < hex(bytes).len() ==> hex_digit_char(#[trigger] hex(bytes)[i]),
    decreases bytes.len(),
{
    if bytes.len() > 0 {
        lemma_hex(bytes.drop_last());
    }
}

/// The identifier of a file: sixteen hexadecimal digits that depend on the embedder,
/// the chunker, the content and the path.
pub fn compute_file_id(
    embedder_id: &str,
    chunker_id: &str,
    blob_id: &str,
    relative_path: &str,
) -> (r: String)
    ensures
        r@ == file_id(embedder_id@, chunker_id@, blob_id@, relative_path@),
        is_file_id(r@),
{
    let mut key = embedder_id.to_owned();
    key.push('\0');
    key.append(chunker_id);
    key.push('\0');
    key.append(blob_id);
    key.push('\0');
    key.append(relative_path);
    assert(key@ =~= file_key(embedder_id@, chunker_id@, blob_id@, relative_path@));
    let digest = sha256_digest(key.as_str().as_bytes());
    let mut out = String::new();
    push_hex(&mut out, &digest, 8);
    assert(out@ =~= hex(digest@.take(8)));
    proof {
        lemma_hex(digest@.take(8));
    }
    out
}

/// The identifier of a chunk of a file.
pub open spec fn point_id(file_id: Seq<char>, ordinal: nat) -> Seq<char> {
    file_id + seq![':'] + text::decimal(ordinal)
}

/// The identifier of a chunk: the file's identifier, a colon and the chunk's ordinal.
pub fn compute_point_id(file_id: &str, chunk_ordinal: usize) -> (r: String)
    ensures
        r@ == point_id(file_id@, chunk_ordinal as nat),
{
    let mut out = file_id.to_owned();
    out.push(':');
    text::push_decimal(&mut out, chunk_ordinal as u64);
    assert(out@ =~= point_id(file_id@, chunk_ordinal as nat));
    out
}

/// Two files have different keys unless all four parts agree, where no part but the
/// path holds a null character.
pub proof fn file_keys_are_unique(
    a: (Seq<char>, Seq<char>, Seq<char>, Seq<char>),
    b: (Seq<char>, Seq<char>, Seq<char>, Seq<char>),
)
    requires
        file_key(a.0, a.1, a.2, a.3) == file_key(b.0, b.1, b.2, b.3),
        !a.0.contains('\0') && !a.1.contains('\0') && !a.2.contains('\0'),
        !b.0.contains('\0') && !b.1.contains('\0') && !b.2.contains('\0'),
    ensures
        a == b,
{
    let nul = seq!['\0'];
    assert(file_key(a.0, a.1, a.2, a.3) =~= a.0 + nul + (a.1 + nul + (a.2 + nul + a.3)));
    assert(file_key(b.0, b.1, b.2, b.3) =~= b.0 + nul + (b.1 + nul + (b.2 + nul + b.3)));
    lemma_first_part(a.0, a.1 + nul + (a.2 + nul + a.3), b.0, b.1 + nul + (b.2 + nul + b.3));
    lemma_first_part(a.1, a.2 + nul + a.3, b.1, b.2 + nul + b.3);
    lemma_first_part(a.2, a.3, b.2, b.3);
}

proof fn lemma_first_part(a: Seq<char>, x: Seq<char>, b: Seq<char>, y: Seq<char>)
    requires
        a + seq!['\0'] + x == b + seq!['\0'] + y,
        !a.contains('\0'),
        !b.contains('\0'),
    ensures
        a == b,
        x == y,
{
    let s = a + seq!['\0'] + x;
    let t = b + seq!['\0'] + y;
    assert(s[a.len() as int] == '\0');
    assert(t[b.len() as int] == '\0');
    if a.len() < b.len() {
        assert(t[a.len() as int] == b[a.len() as int]);
        assert(b.contains('\0'));
    }
    if b.len() < a.len() {
        assert(s[b.len() as int] == a[b.len() as int]);
        assert(a.contains('\0'));
    }
    assert(a =~= s.take(a.len() as int));
    assert(b =~= t.take(b.len() as int));
    assert(x =~= text::after(s, a.len() as int + 1));
    assert(y =~= text::after(t, b.len() as int + 1));
}

/// Different chunks have different identifiers.
pub proof fn point_ids_are_unique(f: Seq<char>, m: nat, g: Seq<char>, n: nat)
    requires
        is_file_id(f),
        is_file_id(g),
        point_id(f, m) == point_id(g, n),
    ensures
        f == g,
        m == n,
{
    let p = point_id(f, m);
    assert(f =~= p.take(16));
    assert(g =~= p.take(16));
    assert(text::decimal(m) =~= text::after(p, 17));
    assert(text::decimal(n) =~= text::after(p, 17));
    text::decimal_is_injective(m, n);
}

/// The digits at two positions stand for the byte, in lower case and the higher one first.
pub proof fn hexadecimal_digits_stand_for_bytes(bytes: Seq<u8>, i: int)
    requires
        0 <= i < bytes.len(),
    ensures
        ({
            let value = |c: char| if '0' <= c && c <= '9' {
                c as int - 0x30
            } else {
                c as int - 0x57
            };
            let (a, b) = (hex(bytes)[2 * i], hex(bytes)[2 * i + 1]);
            &&& hex(bytes).len() == 2 * bytes.len()
            &&& ('0' <= a <= '9' || 'a' <= a <= 'f') && ('0' <= b <= '9' || 'a' <= b <= 'f')
            &&& 16 * value(a) + value(b) == bytes[i]
        }),
    decreases bytes.len(),
{
    lemma_hex(bytes);
    let rest = bytes.drop_last();
    lemma_hex(rest);
    if i < rest.len() {
        hexadecimal_digits_stand_for_bytes(rest, i);
        assert(hex(bytes)[2 * i] == hex(rest)[2 * i]);
        assert(hex(bytes)[2 * i + 1] == hex(rest)[2 * i + 1]);
    } else {
        assert(bytes.last() == bytes[i]);
    }
}

/// The content hash names its algorithm and depends on the bytes of the content alone.
pub proof fn content_hashes_name_their_algorithm(s: Seq<char>)
    ensures
        content_hash(s) == "sha256:"@ + hex(sha256(encode_utf8(s))),
{
}

}
