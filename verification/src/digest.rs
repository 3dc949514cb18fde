//! SHA-256 digests, hex text, and the `sel:v1.0:sha256:` hash format.
use vstd::prelude::*;
use vstd::string::StringSliceAdditionalSpecFns;
use vstd::utf8::{encode_utf8, encode_utf8_decode_utf8, is_ascii_chars, is_ascii_chars_encode_utf8};
use sha2::Digest;
use crate::text::{lemma_middle_injective, push_str};

verus! {

/// The SHA-256 digest of `data`.
pub uninterp spec fn sha256_digest(data: Seq<u8>) -> Seq<u8>;

/// SHA-256 of `data` (`sha2::Sha256::digest`). Trusted: the result is the
/// digest of exactly `data`, and a SHA-256 digest is 32 bytes long.
#[verifier::external_body]
pub fn sha256(data: &[u8]) -> (res: Vec<u8>)
    ensures
        res@ == sha256_digest(data@),
        res@.len() == 32,
{
    sha2::Sha256::digest(data).to_vec()
}

/// Lower-case hex digit for a value below 16.
pub open spec fn hex_digit(v: int) -> char {
    if v < 10 {
        ((v + 48) as u8) as char
    } else {
        ((v + 87) as u8) as char
    }
}

/// Lower-case hex text of `b`: two digits per byte, high nibble first.
pub open spec fn hex_lower(b: Seq<u8>) -> Seq<char>
    decreases b.len(),
{
    if b.len() == 0 {
        Seq::empty()
    } else {
        hex_lower(b.drop_last()) + seq![hex_digit(b.last() as int / 16), hex_digit(b.last() as int % 16)]
    }
}

/// `hex::encode`. Trusted: the result is the lower-case hex text of `data`,
/// two digits per byte in order (the crate's `HEX_CHARS_LOWER` table).
#[verifier::external_body]
pub fn hex_encode(data: &[u8]) -> (res: String)
    ensures
        res@ == hex_lower(data@),
{
    hex::encode(data)
}

/// Value of an ASCII hex digit byte (either case).
pub open spec fn hex_byte_value(c: u8) -> Option<u8> {
    if 48 <= c <= 57 {
        Some((c - 48) as u8)
    } else if 65 <= c <= 70 {
        Some((c - 55) as u8)
    } else if 97 <= c <= 102 {
        Some((c - 87) as u8)
    } else {
        None
    }
}

/// Every byte of `b` is an ASCII hex digit.
pub open spec fn all_hex_bytes(b: Seq<u8>) -> bool {
    forall|i: int| 0 <= i < b.len() ==> (#[trigger] hex_byte_value(b[i])) is Some
}

/// What `hex::decode` gives for the bytes `b`: `None` for an odd length or a
/// byte that is not a hex digit, else one byte per pair of digits.
pub open spec fn hex_decoded(b: Seq<u8>) -> Option<Seq<u8>> {
    if b.len() % 2 == 0 && all_hex_bytes(b) {
        Some(
            Seq::new(
                b.len() / 2,
                |i: int| (hex_byte_value(b[2 * i])->0 * 16 + hex_byte_value(b[2 * i + 1])->0) as u8,
            ),
        )
    } else {
        None
    }
}

/// `hex::decode`. Trusted: `None` exactly when the text has an odd number of
/// bytes or a byte that is not an ASCII hex digit; otherwise the decoded bytes.
#[verifier::external_body]
pub fn hex_decode(s: &str) -> (res: Option<Vec<u8>>)
    ensures
        match res {
            Some(v) => hex_decoded(s.spec_bytes()) == Some(v@),
            None => hex_decoded(s.spec_bytes()) is None,
        },
{
    match hex::decode(s) {
        Ok(v) => Some(v),
        Err(_) => None,
    }
}

proof fn lemma_hex_lower_shape(b: Seq<u8>)
    ensures
        hex_lower(b).len() == 2 * b.len(),
        forall|i: int|
            0 <= i < b.len() ==> hex_lower(b)[2 * i] == hex_digit(b[i] as int / 16) && hex_lower(
                b,
            )[2 * i + 1] == hex_digit(b[i] as int % 16),
    decreases b.len(),
{
    if b.len() > 0 {
        let p = b.drop_last();
        lemma_hex_lower_shape(p);
        assert forall|i: int| 0 <= i < b.len() implies hex_lower(b)[2 * i] == hex_digit(
            b[i] as int / 16,
        ) && hex_lower(b)[2 * i + 1] == hex_digit(b[i] as int % 16) by {
            if i < b.len() - 1 {
                assert(p[i] == b[i]);
            }
        }
    }
}

/// Hex text has two lower-case hex digits per byte.
pub proof fn lemma_hex_lower_digits(b: Seq<u8>)
    ensures
        hex_lower(b).len() == 2 * b.len(),
        forall|i: int|
            0 <= i < hex_lower(b).len() ==> ('0' <= #[trigger] hex_lower(b)[i] && hex_lower(b)[i]
                <= '9') || ('a' <= hex_lower(b)[i] && hex_lower(b)[i] <= 'f'),
{
    lemma_hex_lower_shape(b);
    let h = hex_lower(b);
    assert forall|i: int| 0 <= i < h.len() implies ('0' <= #[trigger] h[i] && h[i] <= '9') || (
    'a' <= h[i] && h[i] <= 'f') by {
        let j = i / 2;
        if i % 2 == 0 {
            assert(i == 2 * j);
            assert(h[2 * j] == hex_digit(b[j] as int / 16));
        } else {
            assert(i == 2 * j + 1);
            assert(h[2 * j + 1] == hex_digit(b[j] as int % 16));
        }
    }
}

proof fn lemma_hex_digit_value(v: int)
    requires
        0 <= v < 16,
    ensures
        hex_digit(v) as u32 <= 0x7f,
        hex_byte_value(hex_digit(v) as u8) == Some(v as u8),
{
}

/// The hex text of bytes is ASCII, so its UTF-8 bytes are its characters.
pub proof fn lemma_hex_lower_ascii(b: Seq<u8>)
    ensures
        is_ascii_chars(hex_lower(b)),
{
    lemma_hex_lower_shape(b);
    let h = hex_lower(b);
    assert forall|k: int| 0 <= k < h.len() implies '\0' <= #[trigger] h[k] <= '\u{7f}' by {
        let i = k / 2;
        assert(0 <= i < b.len());
        lemma_hex_digit_value(b[i] as int / 16);
        lemma_hex_digit_value(b[i] as int % 16);
        if k % 2 == 0 {
            assert(k == 2 * i);
        } else {
            assert(k == 2 * i + 1);
        }
    }
}

/// Hex text decodes back to the bytes it was made from.
pub proof fn lemma_hex_round_trip(b: Seq<u8>)
    ensures
        hex_decoded(encode_utf8(hex_lower(b))) == Some(b),
{
    lemma_hex_lower_shape(b);
    lemma_hex_lower_ascii(b);
    let h = hex_lower(b);
    is_ascii_chars_encode_utf8(h);
    let e = encode_utf8(h);
    assert forall|k: int| 0 <= k < e.len() implies (#[trigger] hex_byte_value(e[k])) is Some by {
        let i = k / 2;
        lemma_hex_digit_value(b[i] as int / 16);
        lemma_hex_digit_value(b[i] as int % 16);
        if k % 2 == 0 {
            assert(k == 2 * i);
        } else {
            assert(k == 2 * i + 1);
        }
    }
    let d = hex_decoded(e)->0;
    assert forall|i: int| 0 <= i < b.len() implies d[i] == b[i] by {
        lemma_hex_digit_value(b[i] as int / 16);
        lemma_hex_digit_value(b[i] as int % 16);
        assert(e[2 * i] == h[2 * i] as u8);
        assert(e[2 * i + 1] == h[2 * i + 1] as u8);
    }
    assert(d =~= b);
}

/// Version of the canonical hashing spec named in every hash (`sel:v1.0:`).
pub const CANONICAL_SPEC_VERSION: &'static str = "1.0";

/// The tag mixed into every versioned hash.
pub open spec fn sel_tag() -> Seq<char> {
    "sel:v1.0:"@
}

/// The prefix of every hash text.
pub open spec fn hash_prefix() -> Seq<char> {
    "sel:v1.0:sha256:"@
}

/// `sel:v1.0:sha256:<hex>` of the SHA-256 digest of `data`.
pub open spec fn digest_text(data: Seq<u8>) -> Seq<char> {
    hash_prefix() + hex_lower(sha256_digest(data))
}

/// The versioned hash of a canonical text: the digest of the UTF-8 bytes of
/// `sel:v1.0:` followed by the text.
pub open spec fn versioned_hash_text(canonical: Seq<char>) -> Seq<char> {
    digest_text(encode_utf8(sel_tag() + canonical))
}

/// `sha256_digest` gives one digest for two different inputs.
pub open spec fn sha256_collides(x: Seq<u8>, y: Seq<u8>) -> bool {
    x != y && sha256_digest(x) == sha256_digest(y)
}

/// Equal hash texts come from equal digests.
pub proof fn lemma_digest_text_injective(x: Seq<u8>, y: Seq<u8>)
    requires
        digest_text(x) == digest_text(y),
    ensures
        sha256_digest(x) == sha256_digest(y),
{
    let hx = hex_lower(sha256_digest(x));
    let hy = hex_lower(sha256_digest(y));
    assert(digest_text(x) =~= hash_prefix() + hx + Seq::<char>::empty());
    assert(digest_text(y) =~= hash_prefix() + hy + Seq::<char>::empty());
    lemma_middle_injective(hash_prefix(), hx, hy, Seq::<char>::empty());
    lemma_hex_round_trip(sha256_digest(x));
    lemma_hex_round_trip(sha256_digest(y));
}

/// Versioned hashes of different texts are equal only if SHA-256 collides on
/// the tagged texts.
pub proof fn lemma_versioned_hash_distinguishes(s: Seq<char>, t: Seq<char>)
    requires
        s != t,
    ensures
        versioned_hash_text(s) == versioned_hash_text(t) ==> sha256_collides(
            encode_utf8(sel_tag() + s),
            encode_utf8(sel_tag() + t),
        ),
{
    encode_utf8_decode_utf8(sel_tag() + s);
    encode_utf8_decode_utf8(sel_tag() + t);
    if sel_tag() + s == sel_tag() + t {
        assert(sel_tag() + s =~= sel_tag() + s + Seq::<char>::empty());
        assert(sel_tag() + t =~= sel_tag() + t + Seq::<char>::empty());
        lemma_middle_injective(sel_tag(), s, t, Seq::<char>::empty());
    }
    if versioned_hash_text(s) == versioned_hash_text(t) {
        lemma_digest_text_injective(encode_utf8(sel_tag() + s), encode_utf8(sel_tag() + t));
    }
}

/// Digest of raw bytes wrapped in the hash text format (the v0.1 hash path).
pub fn digest_hash(data: &[u8]) -> (res: String)
    ensures
        res@ == digest_text(data@),
        res@.len() == 80,
{
    let d = sha256(data);
    let h = hex_encode(d.as_slice());
    proof {
        lemma_hex_lower_shape(d@);
        reveal_strlit("sel:v1.0:sha256:");
    }
    let mut out = String::from_str("sel:v1.0:sha256:");
    push_str(&mut out, h.as_str());
    out
}

/// Versioned hash of a canonical text: `sel:v1.0:` is prefixed to the input
/// before SHA-256, and the result is written as `sel:v1.0:sha256:<hex>`.
pub fn versioned_hash(canonical: &str) -> (res: String)
    ensures
        res@ == versioned_hash_text(canonical@),
        res@.len() == 80,
{
    let mut tagged = String::from_str("sel:v1.0:");
    push_str(&mut tagged, canonical);
    let bytes = tagged.as_str().as_bytes();
    digest_hash(bytes)
}

} // verus!
