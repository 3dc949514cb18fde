//! Verification of one attestation: hash integrity and Ed25519 signature.
use vstd::prelude::*;
use vstd::utf8::encode_utf8;
use crate::attestation::model::{attestation_hash_of, payload_text, DeploymentAttestation};
use crate::attestation::signer::{
    ed25519_public_of, sealed_with, signature_check, signer_key_valid, verify_sig,
};
use crate::digest::lemma_hex_round_trip;
use crate::error::{SignatureError, VerifyError};

verus! {

/// The bytes that were signed for `a`.
pub open spec fn signed_bytes(a: DeploymentAttestation) -> Seq<u8> {
    encode_utf8(payload_text(a))
}

/// The recorded hash of `a` is the hash recomputed from its payload.
pub open spec fn hash_intact(a: DeploymentAttestation) -> bool {
    attestation_hash_of(a) == a.attestation_hash@
}

/// What `signature_check` reports for `a`'s signature under `public`.
pub open spec fn signature_of_check(a: DeploymentAttestation, public: Seq<u8>) -> Result<
    (),
    SignatureError,
> {
    signature_check(signed_bytes(a), encode_utf8(a.signature@), public)
}

/// `a` verifies against `public`: its hash is intact and its signature valid.
pub open spec fn verifies_with(a: DeploymentAttestation, public: Seq<u8>) -> bool {
    hash_intact(a) && signature_of_check(a, public) is Ok
}

/// Check the recorded hash of `a`.
pub fn verify_hash(a: &DeploymentAttestation) -> (res: Result<(), VerifyError>)
    ensures
        match res {
            Ok(()) => hash_intact(*a),
            Err(VerifyError::HashMismatch { expected, found }) => {
                &&& !hash_intact(*a)
                &&& expected@ == attestation_hash_of(*a)
                &&& found@ == a.attestation_hash@
            },
            Err(_) => false,
        },
{
    let expected = a.recomputed_hash();
    if expected == a.attestation_hash {
        Ok(())
    } else {
        Err(VerifyError::HashMismatch { expected, found: a.attestation_hash.clone() })
    }
}

/// Verify hash integrity and the Ed25519 signature of one attestation against one key.
pub fn verify_attestation(a: &DeploymentAttestation, pubkey: &[u8]) -> (res: Result<
    (),
    VerifyError,
>)
    ensures
        match res {
            Ok(()) => verifies_with(*a, pubkey@),
            Err(VerifyError::HashMismatch { expected, found }) => {
                &&& !hash_intact(*a)
                &&& expected@ == attestation_hash_of(*a)
                &&& found@ == a.attestation_hash@
            },
            Err(VerifyError::Signature(e)) => hash_intact(*a) && signature_of_check(*a, pubkey@)
                == Err::<(), SignatureError>(e),
            Err(_) => false,
        },
{
    match verify_hash(a) {
        Ok(()) => {},
        Err(e) => return Err(e),
    }
    let payload = a.payload_bytes();
    match verify_sig(payload.as_slice(), a.signature.as_str(), pubkey) {
        Ok(()) => Ok(()),
        Err(e) => Err(VerifyError::Signature(e)),
    }
}

/// Index of the first key whose id is `id`.
pub open spec fn first_key_with_id(keys: Seq<(String, Vec<u8>)>, id: Seq<char>) -> Option<int>
    decreases keys.len(),
{
    if keys.len() == 0 {
        None
    } else if keys[0].0@ == id {
        Some(0)
    } else {
        match first_key_with_id(keys.drop_first(), id) {
            Some(j) => Some(j + 1),
            None => None,
        }
    }
}

/// Some key of `keys` verifies `a`'s signature.
pub open spec fn some_key_verifies(a: DeploymentAttestation, keys: Seq<(String, Vec<u8>)>) -> bool {
    exists|j: int| 0 <= j < keys.len() && (#[trigger] signature_of_check(a, keys[j].1@)) is Ok
}

/// `a` verifies with a list of (key id, public key) pairs: its hash is intact
/// and its signature verifies under the first key whose id is the signer's
/// key id, or, when no key has that id, under some key of the list.
pub open spec fn verifies_with_keys(a: DeploymentAttestation, keys: Seq<(String, Vec<u8>)>) -> bool {
    &&& hash_intact(a)
    &&& match first_key_with_id(keys, a.signer.key_id@) {
        Some(j) => signature_of_check(a, keys[j].1@) is Ok,
        None => some_key_verifies(a, keys),
    }
}

proof fn lemma_first_key_with_id(keys: Seq<(String, Vec<u8>)>, id: Seq<char>)
    ensures
        match first_key_with_id(keys, id) {
            Some(j) => 0 <= j < keys.len() && keys[j].0@ == id && forall|k: int|
                0 <= k < j ==> keys[k].0@ != id,
            None => forall|k: int| 0 <= k < keys.len() ==> keys[k].0@ != id,
        },
    decreases keys.len(),
{
    if keys.len() > 0 {
        lemma_first_key_with_id(keys.drop_first(), id);
        if keys[0].0@ != id {
            match first_key_with_id(keys.drop_first(), id) {
                Some(j) => {
                    assert forall|k: int| 0 <= k < j + 1 implies keys[k].0@ != id by {
                        if k > 0 {
                            assert(keys[k] == keys.drop_first()[k - 1]);
                        }
                    }
                },
                None => {
                    assert forall|k: int| 0 <= k < keys.len() implies keys[k].0@ != id by {
                        if k > 0 {
                            assert(keys[k] == keys.drop_first()[k - 1]);
                        }
                    }
                },
            }
        }
    }
}

/// What `verify_attestation_with_keys` reports for `a` and `keys`: success
/// exactly when `a` verifies with the keys, and otherwise the reason.
pub open spec fn keys_outcome(
    res: Result<(), VerifyError>,
    a: DeploymentAttestation,
    keys: Seq<(String, Vec<u8>)>,
) -> bool {
    match res {
        Ok(()) => verifies_with_keys(a, keys),
        Err(VerifyError::HashMismatch { expected, found }) => {
            &&& !hash_intact(a)
            &&& expected@ == attestation_hash_of(a)
            &&& found@ == a.attestation_hash@
        },
        Err(VerifyError::SignatureForKey { key_id, error }) => {
            &&& hash_intact(a)
            &&& key_id@ == a.signer.key_id@
            &&& first_key_with_id(keys, a.signer.key_id@) matches Some(j)
            &&& signature_of_check(a, keys[j].1@) == Err::<(), SignatureError>(error)
        },
        Err(VerifyError::NoKeys) => hash_intact(a) && keys.len() == 0,
        Err(VerifyError::NoMatchingKey { key_id, keys_loaded }) => {
            &&& hash_intact(a)
            &&& keys.len() > 0
            &&& keys_loaded == keys.len()
            &&& key_id@ == a.signer.key_id@
            &&& first_key_with_id(keys, a.signer.key_id@) is None
            &&& !some_key_verifies(a, keys)
        },
        Err(_) => false,
    }
}

/// Verify using the key whose `key_id` matches, falling back to every provided key.
pub fn verify_attestation_with_keys(a: &DeploymentAttestation, keys: &[(String, Vec<u8>)]) -> (res:
    Result<(), VerifyError>)
    ensures
        keys_outcome(res, *a, keys@),
{
    match verify_hash(a) {
        Ok(()) => {},
        Err(e) => return Err(e),
    }
    let payload = a.payload_bytes();
    proof {
        lemma_first_key_with_id(keys@, a.signer.key_id@);
    }
    let mut i: usize = 0;
    while i < keys.len()
        invariant
            i <= keys.len(),
            hash_intact(*a),
            payload@ == signed_bytes(*a),
            forall|k: int| 0 <= k < i ==> keys@[k].0@ != a.signer.key_id@,
        decreases keys.len() - i,
    {
        proof {
            lemma_first_key_with_id(keys@, a.signer.key_id@);
        }
        if keys[i].0 == a.signer.key_id {
            assert(first_key_with_id(keys@, a.signer.key_id@) == Some(i as int));
            return match verify_sig(payload.as_slice(), a.signature.as_str(), keys[i].1.as_slice()) {
                Ok(()) => Ok(()),
                Err(e) => Err(VerifyError::SignatureForKey { key_id: a.signer.key_id.clone(), error: e }),
            };
        }
        i = i + 1;
    }
    assert(first_key_with_id(keys@, a.signer.key_id@) is None);
    let mut j: usize = 0;
    while j < keys.len()
        invariant
            j <= keys.len(),
            hash_intact(*a),
            first_key_with_id(keys@, a.signer.key_id@) is None,
            payload@ == signed_bytes(*a),
            forall|k: int| 0 <= k < j ==> (#[trigger] signature_of_check(*a, keys@[k].1@)) is Err,
        decreases keys.len() - j,
    {
        if verify_sig(payload.as_slice(), a.signature.as_str(), keys[j].1.as_slice()).is_ok() {
            assert(signature_of_check(*a, keys@[j as int].1@) is Ok);
            return Ok(());
        }
        j = j + 1;
    }
    if keys.len() == 0 {
        return Err(VerifyError::NoKeys);
    }
    Err(VerifyError::NoMatchingKey { key_id: a.signer.key_id.clone(), keys_loaded: keys.len() })
}


/// A document sealed with a signer's key verifies against that signer's
/// public key.
pub proof fn lemma_sealed_attestation_verifies(a: DeploymentAttestation, seed: Seq<u8>)
    requires
        signer_key_valid(seed),
        sealed_with(a, seed),
    ensures
        verifies_with(a, ed25519_public_of(seed)),
{
    let sig = crate::attestation::signer::ed25519_signature_of(seed, signed_bytes(a));
    lemma_hex_round_trip(sig);
}

/// A document sealed with a signer's key verifies against a key list that
/// holds that signer's public key, provided every entry carrying the
/// document's key id holds that key (so a rotated-out key kept in an archive
/// still verifies the documents it signed).
pub proof fn lemma_sealed_attestation_verifies_with_keys(
    a: DeploymentAttestation,
    seed: Seq<u8>,
    keys: Seq<(String, Vec<u8>)>,
)
    requires
        signer_key_valid(seed),
        sealed_with(a, seed),
        exists|j: int| 0 <= j < keys.len() && (#[trigger] keys[j]).1@ == ed25519_public_of(seed),
        forall|j: int|
            0 <= j < keys.len() && (#[trigger] keys[j]).0@ == a.signer.key_id@ ==> keys[j].1@
                == ed25519_public_of(seed),
    ensures
        verifies_with_keys(a, keys),
{
    lemma_sealed_attestation_verifies(a, seed);
    lemma_first_key_with_id(keys, a.signer.key_id@);
    let j = choose|j: int| 0 <= j < keys.len() && (#[trigger] keys[j]).1@ == ed25519_public_of(seed);
    assert(signature_of_check(a, keys[j].1@) is Ok);
}

} // verus!
