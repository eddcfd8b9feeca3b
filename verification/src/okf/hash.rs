//! Content hashes: `sha256:<hex>` semantic hashes over framed payloads, and
//! the MD5 chart key of a beatmap file.

use vstd::prelude::*;

use crate::okf::body::{normalize_body, normalized};
use crate::text::{push_str_chars, string_from_chars};
use vstd::utf8::encode_utf8;

verus! {

/// The SHA-256 digest of a byte string.
pub uninterp spec fn sha256(bytes: Seq<u8>) -> Seq<u8>;

/// The MD5 digest of a byte string.
pub uninterp spec fn md5(bytes: Seq<u8>) -> Seq<u8>;

/// `sha2::Sha256::digest`: the SHA-256 digest of `bytes`, which is 32 bytes
/// long. Trusted: the contract names the digest and states its length only.
#[verifier::external_body]
fn sha256_digest(bytes: &[u8]) -> (d: Vec<u8>)
    ensures
        d@ == sha256(bytes@),
        d@.len() == 32,
{
    <sha2::Sha256 as sha2::Digest>::digest(bytes).to_vec()
}

/// `md5::compute`: the MD5 digest of `bytes`, which is 16 bytes long.
/// Trusted: the contract names the digest and states its length only.
#[verifier::external_body]
fn md5_digest(bytes: &[u8]) -> (d: Vec<u8>)
    ensures
        d@ == md5(bytes@),
        d@.len() == 16,
{
    md5::compute(bytes).0.to_vec()
}

/// The lower-case hexadecimal digit for `n` (expected to be below sixteen).
pub open spec fn hex_digit(n: nat) -> char {
    if n < 10 {
        (48 + n) as char
    } else {
        (87 + n) as char
    }
}

/// Two lower-case hexadecimal digits per byte, most significant first.
pub open spec fn hex(bytes: Seq<u8>) -> Seq<char>
    decreases bytes.len(),
{
    if bytes.len() == 0 {
        Seq::empty()
    } else {
        hex(bytes.drop_last()) + seq![
            hex_digit((bytes.last() / 16) as nat),
            hex_digit((bytes.last() % 16) as nat),
        ]
    }
}

fn hex_char(n: u8) -> (c: char)
    requires
        n < 16,
    ensures
        c == hex_digit(n as nat),
{
    if n < 10 {
        (n + 48) as char
    } else {
        (n + 87) as char
    }
}

/// The lower-case hexadecimal rendering of `bytes`.
pub fn hex_chars(bytes: &[u8]) -> (v: Vec<char>)
    ensures
        v@ == hex(bytes@),
{
    let mut v: Vec<char> = Vec::new();
    let mut i: usize = 0;
    while i < bytes.len()
        invariant
            i <= bytes.len(),
            v@ == hex(bytes@.take(i as int)),
        decreases bytes.len() - i,
    {
        let b = bytes[i];
        let hi = hex_char(b / 16);
        let lo = hex_char(b % 16);
        v.push(hi);
        v.push(lo);
        assert(bytes@.take(i + 1).drop_last() == bytes@.take(i as int));
        i = i + 1;
        assert(v@ =~= hex(bytes@.take(i as int)));
    }
    assert(bytes@.take(bytes.len() as int) == bytes@);
    v
}

/// The semantic hash of a byte string: `sha256:` and the hex digest.
pub open spec fn hash_of(bytes: Seq<u8>) -> Seq<char> {
    "sha256:"@ + hex(sha256(bytes))
}

/// Hashes `bytes` into `sha256:<64 lower-case hex digits>`.
pub fn hash_bytes(bytes: &[u8]) -> (s: String)
    ensures
        s@ == hash_of(bytes@),
{
    let digest = sha256_digest(bytes);
    let mut v: Vec<char> = Vec::new();
    push_str_chars(&mut v, "sha256:");
    let h = hex_chars(digest.as_slice());
    let mut i: usize = 0;
    let ghost start = v@;
    while i < h.len()
        invariant
            i <= h.len(),
            v@ == start + h@.take(i as int),
        decreases h.len() - i,
    {
        v.push(h[i]);
        i = i + 1;
    }
    assert(h@.take(h.len() as int) == h@);
    string_from_chars(&v)
}

/// The text that an object's semantic hash covers: the canonical JSON of its
/// projected front matter, a separator line, and the normalized body.
pub open spec fn object_payload(json: Seq<char>, body: Seq<char>) -> Seq<char> {
    json + "\n---BODY---\n"@ + normalized(body)
}

/// Frames the payload of an object hash.
pub fn object_payload_text(json: &str, body: &str) -> (s: String)
    ensures
        s@ == object_payload(json@, body@),
{
    let normalized_body = normalize_body(body);
    let mut v: Vec<char> = Vec::new();
    push_str_chars(&mut v, json);
    push_str_chars(&mut v, "\n---BODY---\n");
    push_str_chars(&mut v, normalized_body.as_str());
    string_from_chars(&v)
}

/// The semantic hash of an object, from the canonical JSON text of its
/// projected front matter and its Markdown body.
pub fn object_hash_of(json: &str, body: &str) -> (s: String)
    ensures
        s@ == hash_of(encode_utf8(object_payload(json@, body@))),
{
    let payload = object_payload_text(json, body);
    let h = hash_bytes(payload.as_str().as_bytes());
    h
}

/// The semantic hash of a claim, from the canonical JSON text of its
/// projection.
pub fn claim_hash_of(json: &str) -> (s: String)
    ensures
        s@ == hash_of(encode_utf8(json@)),
{
    hash_bytes(json.as_bytes())
}

/// The chart key of a beatmap file: the lower-case hex MD5 of its bytes.
pub fn chart_key(contents: &[u8]) -> (s: String)
    ensures
        s@ == hex(md5(contents@)),
{
    let digest = md5_digest(contents);
    let h = hex_chars(digest.as_slice());
    string_from_chars(&h)
}

} // verus!
