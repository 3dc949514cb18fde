//! Ed25519 keys: signing, verifying, key ids and key file encodings.
use vstd::prelude::*;
use vstd::string::StringSliceAdditionalSpecFns;
use ed25519_dalek::{Signature, Signer, SigningKey, Verifier, VerifyingKey};
use crate::digest::{hex_decode, hex_decoded, hex_encode, hex_lower, sha256, sha256_digest};
use crate::attestation::model::{attestation_hash_of, DeploymentAttestation};
use crate::attestation::verify::signed_bytes;
use crate::error::{KeyError, SignatureError};
use crate::text::{
    chars_of, char_vecs, has_prefix, lemma_split_lines_line, lemma_split_lines_nonempty,
    lemma_split_lines_single, lemma_trim_final_newline, lemma_trim_len, lemma_trim_unchanged,
    lemma_without_ws_len, lemma_without_ws_unchanged, occurs, occurs_in,
    push_char, push_str, remove_whitespace, split_lines, split_lines_vec, string_of, trim, trim_vec,
    without_ws, is_ws,
};
use vstd::utf8::{decode_utf8, encode_utf8, valid_utf8};
use base64::Engine;

verus! {

/// The Ed25519 public key of a 32-byte secret seed.
pub uninterp spec fn ed25519_public_of(seed: Seq<u8>) -> Seq<u8>;

/// The Ed25519 signature of `msg` under the secret seed.
pub uninterp spec fn ed25519_signature_of(seed: Seq<u8>, msg: Seq<u8>) -> Seq<u8>;

/// `VerifyingKey::from_bytes` accepts these 32 bytes as a curve point.
pub uninterp spec fn ed25519_key_accepted(public: Seq<u8>) -> bool;

/// `VerifyingKey::verify` accepts `sig` as a signature of `msg` by `public`.
pub uninterp spec fn ed25519_signature_accepted(public: Seq<u8>, msg: Seq<u8>, sig: Seq<u8>) -> bool;

/// Outcome of an Ed25519 verification.
pub enum Ed25519Outcome {
    KeyRejected,
    SignatureRejected,
    Accepted,
}

/// The public key of a seed (`SigningKey::from_bytes(seed).verifying_key()`).
/// Trusted: the result is a function of the seed, and the public key of a
/// signing key is a valid point that `VerifyingKey::from_bytes` accepts.
#[verifier::external_body]
fn ed25519_public(seed: &[u8; 32]) -> (res: [u8; 32])
    ensures
        res@ == ed25519_public_of(seed@),
        ed25519_key_accepted(res@),
{
    SigningKey::from_bytes(seed).verifying_key().to_bytes()
}

/// Ed25519 signature of `msg` (`SigningKey::sign`). Trusted: Ed25519 signing
/// is deterministic, so the result is a function of the seed and message; and
/// a signature made with a signing key verifies under its own public key.
#[verifier::external_body]
fn ed25519_sign(seed: &[u8; 32], msg: &[u8]) -> (res: [u8; 64])
    ensures
        res@ == ed25519_signature_of(seed@, msg@),
        ed25519_signature_accepted(ed25519_public_of(seed@), msg@, res@),
{
    let sig: Signature = SigningKey::from_bytes(seed).sign(msg);
    sig.to_bytes()
}

/// `VerifyingKey::from_bytes` followed by `Verifier::verify`.
#[verifier::external_body]
fn ed25519_verify(public: &[u8; 32], msg: &[u8], sig: &[u8; 64]) -> (res: Ed25519Outcome)
    ensures
        res == (if !ed25519_key_accepted(public@) {
            Ed25519Outcome::KeyRejected
        } else if !ed25519_signature_accepted(public@, msg@, sig@) {
            Ed25519Outcome::SignatureRejected
        } else {
            Ed25519Outcome::Accepted
        }),
{
    match VerifyingKey::from_bytes(public) {
        Err(_) => Ed25519Outcome::KeyRejected,
        Ok(vk) => match vk.verify(msg, &Signature::from_bytes(sig)) {
            Ok(()) => Ed25519Outcome::Accepted,
            Err(_) => Ed25519Outcome::SignatureRejected,
        },
    }
}

/// A fresh secret seed from the operating system's random source
/// (`SigningKey::generate(&mut OsRng)`). The value depends on chance.
#[verifier::external_body]
fn ed25519_generate_seed() -> (res: [u8; 32]) {
    let mut rng = rand::rngs::OsRng;
    SigningKey::generate(&mut rng).to_bytes()
}

fn bytes32(v: &[u8]) -> (res: [u8; 32])
    requires
        v@.len() == 32,
    ensures
        res@ == v@,
{
    let mut arr = [0u8; 32];
    let mut i: usize = 0;
    while i < 32
        invariant
            v@.len() == 32,
            i <= 32,
            forall|j: int| 0 <= j < i ==> arr@[j] == v@[j],
        decreases 32 - i,
    {
        arr[i] = v[i];
        i = i + 1;
    }
    assert(arr@ =~= v@);
    arr
}

fn bytes64(v: &[u8]) -> (res: [u8; 64])
    requires
        v@.len() == 64,
    ensures
        res@ == v@,
{
    let mut arr = [0u8; 64];
    let mut i: usize = 0;
    while i < 64
        invariant
            v@.len() == 64,
            i <= 64,
            forall|j: int| 0 <= j < i ==> arr@[j] == v@[j],
        decreases 64 - i,
    {
        arr[i] = v[i];
        i = i + 1;
    }
    assert(arr@ =~= v@);
    arr
}

/// Key id of a public key: hex of the first 8 bytes of its SHA-256 digest.
pub open spec fn key_id_text(public: Seq<u8>) -> Seq<char> {
    hex_lower(sha256_digest(public).take(8))
}

/// Key id of a public key: hex of the first 8 bytes of its SHA-256 digest.
pub fn key_id_from_verifying_bytes(bytes: &[u8]) -> (res: String)
    ensures
        res@ == key_id_text(bytes@),
{
    let hash = sha256(bytes);
    let mut first: Vec<u8> = Vec::new();
    let mut i: usize = 0;
    while i < 8
        invariant
            hash@.len() == 32,
            i <= 8,
            first@ == hash@.take(i as int),
        decreases 8 - i,
    {
        first.push(hash[i]);
        assert(first@ =~= hash@.take(i + 1));
        i = i + 1;
    }
    hex_encode(first.as_slice())
}

/// What `verify_sig` reports for a message, hex signature text (as bytes)
/// and public key bytes.
pub open spec fn signature_check(data: Seq<u8>, sig_hex: Seq<u8>, public: Seq<u8>) -> Result<
    (),
    SignatureError,
> {
    match hex_decoded(sig_hex) {
        None => Err(SignatureError::InvalidHex),
        Some(sig) => if sig.len() != 64 {
            Err(SignatureError::SignatureLength(sig.len() as usize))
        } else if public.len() != 32 {
            Err(SignatureError::KeyLength(public.len() as usize))
        } else if !ed25519_key_accepted(public) {
            Err(SignatureError::KeyRejected)
        } else if !ed25519_signature_accepted(public, data, sig) {
            Err(SignatureError::Mismatch)
        } else {
            Ok(())
        },
    }
}

/// Check an Ed25519 signature given as hex text against a 32-byte public key.
pub fn verify_sig(data: &[u8], sig_hex: &str, pubkey_bytes: &[u8]) -> (res: Result<
    (),
    SignatureError,
>)
    ensures
        res == signature_check(data@, sig_hex.spec_bytes(), pubkey_bytes@),
{
    let sig_bytes = match hex_decode(sig_hex) {
        Some(b) => b,
        None => return Err(SignatureError::InvalidHex),
    };
    if sig_bytes.len() != 64 {
        return Err(SignatureError::SignatureLength(sig_bytes.len()));
    }
    if pubkey_bytes.len() != 32 {
        return Err(SignatureError::KeyLength(pubkey_bytes.len()));
    }
    let sig_arr = bytes64(sig_bytes.as_slice());
    let pk_arr = bytes32(pubkey_bytes);
    match ed25519_verify(&pk_arr, data, &sig_arr) {
        Ed25519Outcome::KeyRejected => Err(SignatureError::KeyRejected),
        Ed25519Outcome::SignatureRejected => Err(SignatureError::Mismatch),
        Ed25519Outcome::Accepted => Ok(()),
    }
}

/// The public key of `seed` is 32 bytes that `VerifyingKey::from_bytes` accepts.
pub open spec fn signer_key_valid(seed: Seq<u8>) -> bool {
    &&& ed25519_public_of(seed).len() == 32
    &&& ed25519_key_accepted(ed25519_public_of(seed))
}

/// Signs attestations with an Ed25519 key, held as its 32-byte secret seed.
pub struct AttestationSigner {
    seed: [u8; 32],
}

impl AttestationSigner {
    #[verifier::type_invariant]
    spec fn key_valid(self) -> bool {
        signer_key_valid(self.seed@)
    }

    /// The 32-byte secret seed.
    pub closed spec fn spec_seed(&self) -> Seq<u8> {
        self.seed@
    }

    /// The public key.
    pub open spec fn spec_public(&self) -> Seq<u8> {
        ed25519_public_of(self.spec_seed())
    }

    fn checked(seed: [u8; 32]) -> (res: Self)
        ensures
            res.spec_seed() == seed@,
    {
        let public = ed25519_public(&seed);
        assert(public@.len() == 32);
        AttestationSigner { seed }
    }

    /// A signer for a 32-byte secret seed.
    pub fn from_seed(seed: &[u8]) -> (res: Self)
        requires
            seed@.len() == 32,
        ensures
            res.spec_seed() == seed@,
    {
        Self::checked(bytes32(seed))
    }

    /// A signer with a freshly generated random key.
    pub fn generate() -> (res: Self)
        ensures
            res.spec_seed().len() == 32,
    {
        Self::checked(ed25519_generate_seed())
    }

    /// The 32-byte secret seed.
    pub fn seed_bytes(&self) -> (res: Vec<u8>)
        ensures
            res@ == self.spec_seed(),
    {
        vstd::slice::slice_to_vec(self.seed.as_slice())
    }

    /// Hex text of the Ed25519 signature of `data`.
    pub fn sign(&self, data: &[u8]) -> (res: String)
        ensures
            res@ == hex_lower(ed25519_signature_of(self.spec_seed(), data@)),
            ed25519_signature_of(self.spec_seed(), data@).len() == 64,
            ed25519_signature_accepted(self.spec_public(), data@, ed25519_signature_of(self.spec_seed(), data@)),
    {
        let sig = ed25519_sign(&self.seed, data);
        hex_encode(sig.as_slice())
    }

    /// Key id of this signer's public key.
    pub fn key_id(&self) -> (res: String)
        ensures
            res@ == key_id_text(self.spec_public()),
    {
        let public = ed25519_public(&self.seed);
        key_id_from_verifying_bytes(public.as_slice())
    }

    /// The 32 bytes of this signer's public key.
    pub fn verifying_key_bytes(&self) -> (res: Vec<u8>)
        ensures
            res@ == self.spec_public(),
            res@.len() == 32,
            ed25519_key_accepted(res@),
    {
        let public = ed25519_public(&self.seed);
        vstd::slice::slice_to_vec(public.as_slice())
    }
}


/// PEM label of a private key file.
pub const PRIV_LABEL: &'static str = "ED25519 PRIVATE KEY";

/// PEM label of a public key file.
pub const PUB_LABEL: &'static str = "ED25519 PUBLIC KEY";

/// Standard base64 text (with padding) of `data`.
pub uninterp spec fn base64_text(data: Seq<u8>) -> Seq<char>;

/// What standard base64 decoding (padding required) gives for a text.
pub uninterp spec fn base64_decoded(text: Seq<char>) -> Option<Seq<u8>>;

/// A character of the standard base64 alphabet or the padding character.
pub open spec fn is_base64_char(c: char) -> bool {
    ||| ('A' <= c && c <= 'Z')
    ||| ('a' <= c && c <= 'z')
    ||| ('0' <= c && c <= '9')
    ||| c == '+'
    ||| c == '/'
    ||| c == '='
}

/// `base64::engine::general_purpose::STANDARD.encode`. Trusted: the result is
/// a function of the data; it is made of the standard alphabet and `=`
/// padding; it is empty exactly when the data is; and decoding it with the
/// same engine gives the data back.
#[verifier::external_body]
fn base64_encode(data: &[u8]) -> (res: String)
    ensures
        res@ == base64_text(data@),
        forall|i: int| 0 <= i < res@.len() ==> is_base64_char(#[trigger] res@[i]),
        res@.len() == 0 <==> data@.len() == 0,
        base64_decoded(res@) == Some(data@),
{
    base64::engine::general_purpose::STANDARD.encode(data)
}

/// `base64::engine::general_purpose::STANDARD.decode`. Trusted: the result is
/// a function of the text.
#[verifier::external_body]
fn base64_decode(text: &str) -> (res: Option<Vec<u8>>)
    ensures
        match res {
            Some(v) => base64_decoded(text@) == Some(v@),
            None => base64_decoded(text@) is None,
        },
{
    match base64::engine::general_purpose::STANDARD.decode(text) {
        Ok(v) => Some(v),
        Err(_) => None,
    }
}

/// `std::str::from_utf8`: the text of valid UTF-8 bytes.
#[verifier::external_body]
fn utf8_text(raw: &[u8]) -> (res: Option<String>)
    ensures
        match res {
            Some(s) => valid_utf8(raw@) && s@ == decode_utf8(raw@),
            None => !valid_utf8(raw@),
        },
{
    match std::str::from_utf8(raw) {
        Ok(s) => Some(s.to_string()),
        Err(_) => None,
    }
}

/// The base64 text split into lines of 64 characters, each ended by a line feed.
pub open spec fn pem_lines(t: Seq<char>) -> Seq<char>
    decreases t.len(),
{
    if t.len() == 0 {
        Seq::empty()
    } else if t.len() <= 64 {
        t.push('\n')
    } else {
        t.take(64).push('\n') + pem_lines(t.skip(64))
    }
}

/// A PEM document with the given label around the base64 text of `data`.
pub open spec fn pem_text(label: Seq<char>, data: Seq<u8>) -> Seq<char> {
    "-----BEGIN "@ + label + "-----\n"@ + pem_lines(base64_text(data)) + "-----END "@ + label
        + "-----\n"@
}

/// A label that fits on the `BEGIN` and `END` lines: it has no line feed.
pub open spec fn pem_label_ok(label: Seq<char>) -> bool {
    forall|i: int| 0 <= i < label.len() ==> label[i] != '\n'
}

/// Non-empty text of base64 characters.
pub open spec fn base64_body_ok(t: Seq<char>) -> bool {
    t.len() > 0 && forall|i: int| 0 <= i < t.len() ==> is_base64_char(#[trigger] t[i])
}

proof fn lemma_base64_line(t: Seq<char>)
    requires
        base64_body_ok(t),
    ensures
        forall|i: int| 0 <= i < t.len() ==> t[i] != '\n',
        trim(t) == t,
        !"-----BEGIN "@.is_prefix_of(t),
        !"-----END "@.is_prefix_of(t),
{
    reveal_strlit("-----BEGIN ");
    reveal_strlit("-----END ");
    assert(is_base64_char(t[0]));
    assert(is_base64_char(t.last()));
    lemma_trim_unchanged(t);
    if "-----BEGIN "@.is_prefix_of(t) {
        assert(t[0] == "-----BEGIN "@[0]);
    }
    if "-----END "@.is_prefix_of(t) {
        assert(t[0] == "-----END "@[0]);
    }
}

/// The PEM lines of base64 text, followed by an `END` line, give back the text.
proof fn lemma_pem_lines_body(t: Seq<char>, e: Seq<char>)
    requires
        base64_body_ok(t),
        "-----END "@.is_prefix_of(trim(split_lines(e)[0])),
    ensures
        pem_body(split_lines(pem_lines(t) + e), true) == t,
    decreases t.len(),
{
    reveal_strlit("-----BEGIN ");
    reveal_strlit("-----END ");
    lemma_split_lines_nonempty(e);
    let l0 = trim(split_lines(e)[0]);
    assert(!"-----BEGIN "@.is_prefix_of(l0)) by {
        if "-----BEGIN "@.is_prefix_of(l0) {
            assert(l0[5] == "-----END "@[5]);
            assert(l0[5] == "-----BEGIN "@[5]);
        }
    }
    assert(pem_body(split_lines(e), true) == Seq::<char>::empty());
    if t.len() <= 64 {
        lemma_base64_line(t);
        lemma_split_lines_line(t, e);
        let lines = seq![t] + split_lines(e);
        assert(lines[0] == t);
        assert(lines.drop_first() =~= split_lines(e));
        assert(pem_body(lines, true) == t + pem_body(split_lines(e), true));
        assert(t + Seq::<char>::empty() =~= t);
    } else {
        let head = t.take(64);
        let rest = t.skip(64);
        assert(base64_body_ok(head));
        assert(base64_body_ok(rest));
        lemma_base64_line(head);
        lemma_pem_lines_body(rest, e);
        assert(pem_lines(t) + e =~= head.push('\n') + (pem_lines(rest) + e));
        lemma_split_lines_line(head, pem_lines(rest) + e);
        let lines = seq![head] + split_lines(pem_lines(rest) + e);
        assert(lines[0] == head);
        assert(lines.drop_first() =~= split_lines(pem_lines(rest) + e));
        assert(pem_body(lines, true) == head + pem_body(split_lines(pem_lines(rest) + e), true));
        assert(head + rest =~= t);
    }
}

/// The `BEGIN` line of a PEM document (without its line feed).
pub open spec fn pem_begin_line(label: Seq<char>) -> Seq<char> {
    "-----BEGIN "@ + label + "-----"@
}

/// The `END` line of a PEM document (without its line feed).
pub open spec fn pem_end_line(label: Seq<char>) -> Seq<char> {
    "-----END "@ + label + "-----"@
}

proof fn lemma_pem_line_shape(label: Seq<char>)
    requires
        pem_label_ok(label),
    ensures
        forall|i: int| 0 <= i < pem_begin_line(label).len() ==> pem_begin_line(label)[i] != '\n',
        forall|i: int| 0 <= i < pem_end_line(label).len() ==> pem_end_line(label)[i] != '\n',
        trim(pem_begin_line(label)) == pem_begin_line(label),
        trim(pem_end_line(label)) == pem_end_line(label),
        "-----BEGIN "@.is_prefix_of(pem_begin_line(label)),
        "-----END "@.is_prefix_of(pem_end_line(label)),
{
    reveal_strlit("-----BEGIN ");
    reveal_strlit("-----END ");
    reveal_strlit("-----");
    let b = pem_begin_line(label);
    let e = pem_end_line(label);
    assert forall|i: int| 0 <= i < b.len() implies b[i] != '\n' by {
        if 11 <= i < 11 + label.len() {
            assert(b[i] == label[i - 11]);
        }
    }
    assert forall|i: int| 0 <= i < e.len() implies e[i] != '\n' by {
        if 9 <= i < 9 + label.len() {
            assert(e[i] == label[i - 9]);
        }
    }
    assert(b[0] == '-' && b.last() == '-');
    assert(e[0] == '-' && e.last() == '-');
    lemma_trim_unchanged(b);
    lemma_trim_unchanged(e);
    assert(b.subrange(0, 11) =~= "-----BEGIN "@);
    assert(e.subrange(0, 9) =~= "-----END "@);
}

/// The body of a PEM document made of a `BEGIN` line, the PEM lines of `t`,
/// and an `END` line (with or without its final line feed) is `t`.
proof fn lemma_pem_document_body(label: Seq<char>, t: Seq<char>, final_feed: bool)
    requires
        pem_label_ok(label),
        base64_body_ok(t),
    ensures
        pem_body(
            split_lines(
                pem_begin_line(label).push('\n') + pem_lines(t) + (if final_feed {
                    pem_end_line(label).push('\n')
                } else {
                    pem_end_line(label)
                }),
            ),
            false,
        ) == t,
{
    reveal_strlit("-----BEGIN ");
    lemma_pem_line_shape(label);
    let b = pem_begin_line(label);
    let f = pem_end_line(label);
    let e = if final_feed {
        f.push('\n')
    } else {
        f
    };
    if final_feed {
        lemma_split_lines_line(f, Seq::<char>::empty());
        assert(f.push('\n') + Seq::<char>::empty() =~= f.push('\n'));
        assert(split_lines(e)[0] == f);
    } else {
        lemma_split_lines_single(f);
        assert(split_lines(e)[0] == f);
    }
    lemma_pem_lines_body(t, e);
    assert(b.push('\n') + pem_lines(t) + e =~= b.push('\n') + (pem_lines(t) + e));
    lemma_split_lines_line(b, pem_lines(t) + e);
    let lines = seq![b] + split_lines(pem_lines(t) + e);
    assert(lines[0] == b);
    assert(lines.drop_first() =~= split_lines(pem_lines(t) + e));
}

/// A PEM document is its `BEGIN` line, the PEM lines, and its `END` line,
/// each ended by a line feed.
proof fn lemma_pem_text_parts(label: Seq<char>, data: Seq<u8>)
    ensures
        pem_text(label, data) == pem_begin_line(label).push('\n') + pem_lines(base64_text(data))
            + pem_end_line(label).push('\n'),
{
    reveal_strlit("-----BEGIN ");
    reveal_strlit("-----END ");
    reveal_strlit("-----");
    reveal_strlit("-----\n");
    assert(pem_text(label, data) =~= pem_begin_line(label).push('\n') + pem_lines(
        base64_text(data),
    ) + pem_end_line(label).push('\n'));
}

/// PEM-encode `bytes` under `label`.
pub fn encode_pem(label: &str, bytes: &[u8]) -> (res: String)
    ensures
        res@ == pem_text(label@, bytes@),
        pem_label_ok(label@) && bytes@.len() > 0 ==> pem_decoded(res@) == Ok::<Seq<u8>, KeyError>(
            bytes@,
        ) && pem_decoded(trim(res@)) == Ok::<Seq<u8>, KeyError>(bytes@)
            && "-----BEGIN "@.is_prefix_of(trim(res@)),
{
    let b64 = base64_encode(bytes);
    assert(bytes@.len() > 0 ==> base64_body_ok(b64@));
    let t = chars_of(b64.as_str());
    let mut out = String::from_str("-----BEGIN ");
    push_str(&mut out, label);
    push_str(&mut out, "-----\n");
    let ghost head = out@;
    let mut i: usize = 0;
    assert(t@.skip(0) =~= t@);
    while i < t.len()
        invariant
            i <= t.len(),
            out@ + pem_lines(t@.skip(i as int)) == head + pem_lines(t@),
        decreases t.len() - i,
    {
        let ghost rest = t@.skip(i as int);
        let end: usize = if t.len() - i > 64 { i + 64 } else { t.len() };
        let ghost before = out@;
        let mut k: usize = i;
        while k < end
            invariant
                i <= k <= end <= t.len(),
                out@ == before + t@.subrange(i as int, k as int),
            decreases end - k,
        {
            push_char(&mut out, t[k]);
            assert(out@ =~= before + t@.subrange(i as int, k + 1));
            k = k + 1;
        }
        push_char(&mut out, '\n');
        if t.len() - i > 64 {
            assert(rest.take(64) =~= t@.subrange(i as int, end as int));
            assert(rest.skip(64) =~= t@.skip(end as int));
        } else {
            assert(rest =~= t@.subrange(i as int, end as int));
            assert(t@.skip(end as int) =~= Seq::<char>::empty());
        }
        i = end;
    }
    assert(t@.skip(t.len() as int) =~= Seq::<char>::empty());
    push_str(&mut out, "-----END ");
    push_str(&mut out, label);
    push_str(&mut out, "-----\n");
    proof {
        if pem_label_ok(label@) && bytes@.len() > 0 {
            lemma_pem_round_trip(label@, bytes@, b64@);
        }
    }
    out
}

proof fn lemma_pem_round_trip(label: Seq<char>, data: Seq<u8>, b64: Seq<char>)
    requires
        pem_label_ok(label),
        b64 == base64_text(data),
        base64_body_ok(b64),
        base64_decoded(b64) == Some(data),
    ensures
        pem_decoded(pem_text(label, data)) == Ok::<Seq<u8>, KeyError>(data),
        pem_decoded(trim(pem_text(label, data))) == Ok::<Seq<u8>, KeyError>(data),
        "-----BEGIN "@.is_prefix_of(trim(pem_text(label, data))),
{
    reveal_strlit("-----BEGIN ");
    reveal_strlit("-----");
    lemma_pem_text_parts(label, data);
    lemma_pem_document_body(label, b64, true);
    lemma_pem_document_body(label, b64, false);
    let doc = pem_begin_line(label).push('\n') + pem_lines(b64) + pem_end_line(label);
    assert(pem_text(label, data) =~= doc.push('\n'));
    assert(doc[0] == '-');
    assert(doc.last() == '-');
    lemma_trim_final_newline(doc);
    lemma_pem_line_shape(label);
    assert(doc.subrange(0, 11) =~= "-----BEGIN "@);
}

/// The base64 body of PEM lines: the trimmed non-empty lines after a line
/// starting `-----BEGIN `, up to a line starting `-----END `.
pub open spec fn pem_body(lines: Seq<Seq<char>>, inside: bool) -> Seq<char>
    decreases lines.len(),
{
    if lines.len() == 0 {
        Seq::empty()
    } else {
        let line = trim(lines[0]);
        if "-----BEGIN "@.is_prefix_of(line) {
            pem_body(lines.drop_first(), true)
        } else if "-----END "@.is_prefix_of(line) {
            Seq::empty()
        } else {
            (if inside && line.len() > 0 {
                line
            } else {
                Seq::empty()
            }) + pem_body(lines.drop_first(), inside)
        }
    }
}

/// What `decode_pem` gives for a PEM text.
pub open spec fn pem_decoded(s: Seq<char>) -> Result<Seq<u8>, KeyError> {
    let body = pem_body(split_lines(s), false);
    if body.len() == 0 {
        Err(KeyError::EmptyPem)
    } else {
        match base64_decoded(body) {
            Some(b) => Ok(b),
            None => Err(KeyError::InvalidBase64),
        }
    }
}

fn pem_body_chars(lines: &Vec<Vec<char>>) -> (res: Vec<char>)
    ensures
        res@ == pem_body(char_vecs(lines@), false),
{
    let ghost all = char_vecs(lines@);
    let begin = chars_of("-----BEGIN ");
    let end = chars_of("-----END ");
    let mut body: Vec<char> = Vec::new();
    let mut inside = false;
    let mut i: usize = 0;
    assert(all.skip(0) =~= all);
    while i < lines.len()
        invariant
            i <= lines.len(),
            all == char_vecs(lines@),
            all.len() == lines.len(),
            begin@ == "-----BEGIN "@,
            end@ == "-----END "@,
            body@ + pem_body(all.skip(i as int), inside) == pem_body(all, false),
        decreases lines.len() - i,
    {
        let ghost rest = all.skip(i as int);
        assert(rest[0] == lines@[i as int]@);
        assert(rest.drop_first() =~= all.skip(i + 1));
        let line = trim_vec(&lines[i]);
        if has_prefix(&line, &begin) {
            inside = true;
        } else if has_prefix(&line, &end) {
            assert(body@ + pem_body(all.skip(i as int), inside) == body@);
            return body;
        } else if inside && line.len() > 0 {
            let ghost before = body@;
            let mut k: usize = 0;
            while k < line.len()
                invariant
                    k <= line.len(),
                    body@ == before + line@.take(k as int),
                decreases line.len() - k,
            {
                body.push(line[k]);
                assert(body@ =~= before + line@.take(k + 1));
                k = k + 1;
            }
            assert(line@.take(line.len() as int) =~= line@);
            assert(body@ + pem_body(all.skip(i + 1), inside) =~= before + (line@ + pem_body(
                all.skip(i + 1),
                inside,
            )));
        } else {
            assert(body@ + pem_body(all.skip(i + 1), inside) =~= body@ + (Seq::<char>::empty()
                + pem_body(all.skip(i + 1), inside)));
        }
        i = i + 1;
    }
    assert(all.skip(lines.len() as int) =~= Seq::<Seq<char>>::empty());
    body
}

/// Decode a PEM document: the base64 body between its `BEGIN` and `END` lines.
pub fn decode_pem(s: &str) -> (res: Result<Vec<u8>, KeyError>)
    ensures
        match res {
            Ok(v) => pem_decoded(s@) == Ok::<Seq<u8>, KeyError>(v@),
            Err(e) => pem_decoded(s@) == Err::<Seq<u8>, KeyError>(e),
        },
{
    let cs = chars_of(s);
    let lines = split_lines_vec(&cs);
    let body = pem_body_chars(&lines);
    if body.len() == 0 {
        return Err(KeyError::EmptyPem);
    }
    let text = string_of(&body);
    match base64_decode(text.as_str()) {
        Some(b) => Ok(b),
        None => Err(KeyError::InvalidBase64),
    }
}

/// An ASCII hex digit.
pub open spec fn is_hex_char(c: char) -> bool {
    ||| ('0' <= c && c <= '9')
    ||| ('a' <= c && c <= 'f')
    ||| ('A' <= c && c <= 'F')
}

/// Every character of `s` is an ASCII hex digit.
pub open spec fn all_hex_chars(s: Seq<char>) -> bool {
    forall|i: int| 0 <= i < s.len() ==> is_hex_char(#[trigger] s[i])
}

/// What the text forms of key bytes decode to, when they are text in a form
/// the reader recognizes: PEM when the trimmed text contains `BEGIN`, or hex
/// of `2 * n` digits once white space is removed.
pub open spec fn key_text_decoded(raw: Seq<u8>, n: nat) -> Option<Result<Seq<u8>, KeyError>> {
    if valid_utf8(raw) {
        let t = trim(decode_utf8(raw));
        if occurs_in("BEGIN"@, t) {
            Some(pem_decoded(t))
        } else {
            let c = without_ws(t);
            if c.len() == 2 * n && all_hex_chars(c) {
                Some(
                    match crate::digest::hex_decoded(encode_utf8(c)) {
                        Some(b) => Ok(b),
                        None => Err(KeyError::InvalidHex),
                    },
                )
            } else {
                None
            }
        }
    } else {
        None
    }
}

/// What `decode_key_bytes` gives: the text form when recognized, else the raw
/// bytes when there are exactly `n` of them.
pub open spec fn key_bytes_decoded(raw: Seq<u8>, n: nat) -> Result<Seq<u8>, KeyError> {
    match key_text_decoded(raw, n) {
        Some(r) => r,
        None => if raw.len() == n {
            Ok(raw)
        } else {
            Err(KeyError::UnrecognizedEncoding(raw.len() as usize))
        },
    }
}

fn all_hex(c: &Vec<char>) -> (res: bool)
    ensures
        res == all_hex_chars(c@),
{
    let mut i: usize = 0;
    while i < c.len()
        invariant
            i <= c.len(),
            forall|j: int| 0 <= j < i ==> is_hex_char(#[trigger] c@[j]),
        decreases c.len() - i,
    {
        let x = c[i];
        if !(('0' <= x && x <= '9') || ('a' <= x && x <= 'f') || ('A' <= x && x <= 'F')) {
            return false;
        }
        i = i + 1;
    }
    true
}

/// Accept PEM (`-----BEGIN …-----`), hex of the expected length, or raw bytes
/// of the expected length.
pub fn decode_key_bytes(raw: &[u8], expected_len: usize) -> (res: Result<Vec<u8>, KeyError>)
    requires
        expected_len <= usize::MAX / 2,
    ensures
        match res {
            Ok(v) => key_bytes_decoded(raw@, expected_len as nat) == Ok::<Seq<u8>, KeyError>(v@),
            Err(e) => key_bytes_decoded(raw@, expected_len as nat) == Err::<Seq<u8>, KeyError>(e),
        },
{
    match utf8_text(raw) {
        Some(s) => {
            let cs = chars_of(s.as_str());
            let trimmed = trim_vec(&cs);
            let begin = chars_of("BEGIN");
            if occurs(&begin, &trimmed) {
                let t = string_of(&trimmed);
                return decode_pem(t.as_str());
            }
            let compact = remove_whitespace(&trimmed);
            if compact.len() == expected_len * 2 && all_hex(&compact) {
                let hex = string_of(&compact);
                return match crate::digest::hex_decode(hex.as_str()) {
                    Some(b) => Ok(b),
                    None => Err(KeyError::InvalidHex),
                };
            }
        },
        None => {},
    }
    if raw.len() == expected_len {
        return Ok(vstd::slice::slice_to_vec(raw));
    }
    Err(KeyError::UnrecognizedEncoding(raw.len()))
}

proof fn lemma_encode_utf8_len(s: Seq<char>)
    ensures
        encode_utf8(s).len() >= s.len(),
    decreases s.len(),
{
    if s.len() > 0 {
        lemma_encode_utf8_len(s.drop_first());
    }
}

/// Raw key bytes of the expected length (the key files of v0.1) load as they
/// are, unless they read as text that contains `BEGIN` (a PEM document).
pub proof fn lemma_raw_key_bytes_load(raw: Seq<u8>, n: nat)
    requires
        raw.len() == n,
        n > 0,
        !(valid_utf8(raw) && occurs_in("BEGIN"@, trim(decode_utf8(raw)))),
    ensures
        key_bytes_decoded(raw, n) == Ok::<Seq<u8>, KeyError>(raw),
{
    if valid_utf8(raw) {
        let text = decode_utf8(raw);
        vstd::utf8::decode_utf8_encode_utf8(raw);
        lemma_encode_utf8_len(text);
        lemma_trim_len(text);
        lemma_without_ws_len(trim(text));
    }
}

/// A key file holding the key as lower-case hex text (as `hex::encode`
/// writes it) loads as the key: for every non-empty key of `n` bytes.
pub proof fn lemma_hex_key_text_loads(b: Seq<u8>, n: nat)
    requires
        b.len() == n,
        n > 0,
    ensures
        key_bytes_decoded(encode_utf8(hex_lower(b)), n) == Ok::<Seq<u8>, KeyError>(b),
{
    let h = hex_lower(b);
    crate::digest::lemma_hex_lower_digits(b);
    crate::digest::lemma_hex_round_trip(b);
    vstd::utf8::encode_utf8_valid_utf8(h);
    vstd::utf8::encode_utf8_decode_utf8(h);
    assert forall|i: int| 0 <= i < h.len() implies !is_ws(#[trigger] h[i]) by {
        assert(('0' <= h[i] && h[i] <= '9') || ('a' <= h[i] && h[i] <= 'f'));
    }
    assert(!is_ws(h[0]) && !is_ws(h.last()));
    lemma_trim_unchanged(h);
    lemma_without_ws_unchanged(h);
    reveal_strlit("BEGIN");
    assert(!occurs_in("BEGIN"@, h)) by {
        if occurs_in("BEGIN"@, h) {
            let i = choose|i: int|
                0 <= i && i + "BEGIN"@.len() <= h.len() && #[trigger] h.subrange(
                    i,
                    i + "BEGIN"@.len(),
                ) == "BEGIN"@;
            assert(h.subrange(i, i + 5)[0] == 'B');
            assert(h[i] == 'B');
            assert(('0' <= h[i] && h[i] <= '9') || ('a' <= h[i] && h[i] <= 'f'));
        }
    }
    assert forall|i: int| 0 <= i < h.len() implies is_hex_char(#[trigger] h[i]) by {
        assert(('0' <= h[i] && h[i] <= '9') || ('a' <= h[i] && h[i] <= 'f'));
    }
    assert(all_hex_chars(h));
}

/// What reading a private key file's bytes gives: the decoded 32-byte seed.
pub open spec fn private_key_decoded(raw: Seq<u8>) -> Result<Seq<u8>, KeyError> {
    match key_bytes_decoded(raw, 32) {
        Ok(seed) => if seed.len() == 32 {
            Ok(seed)
        } else {
            Err(KeyError::WrongLength(seed.len() as usize))
        },
        Err(e) => Err(e),
    }
}

/// What reading a public key file's bytes gives: its key id and 32 raw bytes.
pub open spec fn public_key_decoded(raw: Seq<u8>) -> Result<(Seq<char>, Seq<u8>), KeyError> {
    match private_key_decoded(raw) {
        Ok(k) => Ok((key_id_text(k), k)),
        Err(e) => Err(e),
    }
}

/// Read a public key file's bytes (PEM or legacy raw 32 bytes): its key id and
/// its 32 raw bytes.
pub fn public_key_from_bytes(raw: &[u8]) -> (res: Result<(String, Vec<u8>), KeyError>)
    ensures
        match res {
            Ok(p) => public_key_decoded(raw@) == Ok::<(Seq<char>, Seq<u8>), KeyError>((p.0@, p.1@)),
            Err(e) => public_key_decoded(raw@) == Err::<(Seq<char>, Seq<u8>), KeyError>(e),
        },
{
    let raw_key = match decode_key_bytes(raw, 32) {
        Ok(k) => k,
        Err(e) => return Err(e),
    };
    if raw_key.len() != 32 {
        return Err(KeyError::WrongLength(raw_key.len()));
    }
    let id = key_id_from_verifying_bytes(raw_key.as_slice());
    Ok((id, raw_key))
}

/// The bytes of a PEM key file read back as the data it encodes.
proof fn lemma_pem_file_decodes(text: Seq<char>, data: Seq<u8>, n: nat)
    requires
        pem_decoded(trim(text)) == Ok::<Seq<u8>, KeyError>(data),
        "-----BEGIN "@.is_prefix_of(trim(text)),
        data.len() == n,
    ensures
        key_bytes_decoded(encode_utf8(text), n) == Ok::<Seq<u8>, KeyError>(data),
        n == 32 ==> private_key_decoded(encode_utf8(text)) == Ok::<Seq<u8>, KeyError>(data),
        n == 32 ==> public_key_decoded(encode_utf8(text)) == Ok::<(Seq<char>, Seq<u8>), KeyError>(
            (key_id_text(data), data),
        ),
{
    reveal_strlit("-----BEGIN ");
    reveal_strlit("BEGIN");
    vstd::utf8::encode_utf8_valid_utf8(text);
    vstd::utf8::encode_utf8_decode_utf8(text);
    let t = trim(text);
    let p = "-----BEGIN "@;
    assert(p.len() == 11);
    assert(t.subrange(0, 11) =~= p);
    assert forall|i: int| 0 <= i < 5 implies t.subrange(5, 10)[i] == "BEGIN"@[i] by {
        assert(t.subrange(5, 10)[i] == t.subrange(0, 11)[5 + i]);
    }
    assert(t.subrange(5, 10) =~= "BEGIN"@);
    assert(t.subrange(5, 5 + "BEGIN"@.len() as int) == "BEGIN"@);
    assert(occurs_in("BEGIN"@, t));
}

impl AttestationSigner {
    /// A signer from the bytes of a private key file (PEM, hex, or legacy raw
    /// 32-byte seed).
    pub fn from_key_file(raw: &[u8]) -> (res: Result<Self, KeyError>)
        ensures
            match res {
                Ok(s) => private_key_decoded(raw@) == Ok::<Seq<u8>, KeyError>(s.spec_seed()),
                Err(e) => private_key_decoded(raw@) == Err::<Seq<u8>, KeyError>(e),
            },
    {
        let seed = match decode_key_bytes(raw, 32) {
            Ok(k) => k,
            Err(e) => return Err(e),
        };
        if seed.len() != 32 {
            return Err(KeyError::WrongLength(seed.len()));
        }
        Ok(AttestationSigner::from_seed(seed.as_slice()))
    }

    /// The private key file text: PEM of the 32-byte seed.
    pub fn private_key_pem(&self) -> (res: String)
        ensures
            res@ == pem_text(PRIV_LABEL@, self.spec_seed()),
            private_key_decoded(encode_utf8(res@)) == Ok::<Seq<u8>, KeyError>(self.spec_seed()),
    {
        proof {
            reveal_strlit("ED25519 PRIVATE KEY");
        }
        let text = encode_pem(PRIV_LABEL, self.seed.as_slice());
        proof {
            lemma_pem_file_decodes(text@, self.spec_seed(), 32);
        }
        text
    }

    /// The public key file text: PEM of the 32-byte public key.
    pub fn public_key_pem(&self) -> (res: String)
        ensures
            res@ == pem_text(PUB_LABEL@, self.spec_public()),
            public_key_decoded(encode_utf8(res@)) == Ok::<(Seq<char>, Seq<u8>), KeyError>(
                (key_id_text(self.spec_public()), self.spec_public()),
            ),
    {
        proof {
            use_type_invariant(self);
            reveal_strlit("ED25519 PUBLIC KEY");
        }
        let public = ed25519_public(&self.seed);
        let text = encode_pem(PUB_LABEL, public.as_slice());
        proof {
            lemma_pem_file_decodes(text@, self.spec_public(), 32);
        }
        text
    }
}


/// `a` and `b` agree on every field but the attestation hash and signature.
pub open spec fn same_content(a: DeploymentAttestation, b: DeploymentAttestation) -> bool {
    &&& a.version == b.version
    &&& a.id == b.id
    &&& a.timestamp == b.timestamp
    &&& a.command == b.command
    &&& a.command_hash == b.command_hash
    &&& a.git_commit == b.git_commit
    &&& a.exit_code == b.exit_code
    &&& a.environment == b.environment
    &&& a.cwd == b.cwd
    &&& a.actor == b.actor
    &&& a.hostname == b.hostname
    &&& a.duration_ms == b.duration_ms
    &&& a.previous_hash == b.previous_hash
    &&& a.signer == b.signer
    &&& a.compliance_hints == b.compliance_hints
}

/// `a` carries the hash of its payload and the signature of its payload by the
/// key with secret seed `seed` (a signature that key's public key accepts).
pub open spec fn sealed_with(a: DeploymentAttestation, seed: Seq<u8>) -> bool {
    let sig = ed25519_signature_of(seed, signed_bytes(a));
    &&& a.attestation_hash@ == attestation_hash_of(a)
    &&& a.signature@ == hex_lower(sig)
    &&& sig.len() == 64
    &&& ed25519_signature_accepted(ed25519_public_of(seed), signed_bytes(a), sig)
}

impl AttestationSigner {
    /// Record the hash of `a`'s payload and this signer's signature of it.
    pub fn seal(&self, a: &mut DeploymentAttestation)
        ensures
            same_content(*final(a), *old(a)),
            final(a).attestation_hash@ == attestation_hash_of(*old(a)),
            final(a).signature@ == hex_lower(
                ed25519_signature_of(self.spec_seed(), signed_bytes(*old(a))),
            ),
            sealed_with(*final(a), self.spec_seed()),
            signer_key_valid(self.spec_seed()),
    {
        proof {
            use_type_invariant(self);
        }
        let payload = a.payload_bytes();
        let hash = a.recomputed_hash();
        let sig = self.sign(payload.as_slice());
        a.attestation_hash = hash;
        a.signature = sig;
    }
}

} // verus!
