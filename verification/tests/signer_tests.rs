//! Key files, PEM, signatures and the verification errors.

use sel_deploy::attestation::model::DeploymentAttestation;
use sel_deploy::attestation::signer::{
    decode_key_bytes, decode_pem, encode_pem, key_id_from_verifying_bytes, public_key_from_bytes,
    verify_sig, AttestationSigner, PRIV_LABEL, PUB_LABEL,
};
use sel_deploy::attestation::verify::{verify_attestation, verify_attestation_with_keys, verify_hash};
use sel_deploy::error::{KeyError, SignatureError, VerifyError};

#[test]
fn pem_roundtrip() {
    let raw = [7u8; 32];
    let pem = encode_pem(PUB_LABEL, &raw);
    assert!(pem.starts_with("-----BEGIN ED25519 PUBLIC KEY-----"));
    let out = decode_pem(&pem).unwrap();
    assert_eq!(out, raw);
}

#[test]
fn raw_32_still_loads() {
    let raw = [9u8; 32];
    let decoded = decode_key_bytes(&raw, 32).unwrap();
    assert_eq!(decoded, raw);
}

#[test]
fn pem_text_has_the_exact_layout() {
    let pem = encode_pem(PUB_LABEL, &[7u8; 32]);
    assert_eq!(
        pem,
        "-----BEGIN ED25519 PUBLIC KEY-----\nBwcHBwcHBwcHBwcHBwcHBwcHBwcHBwcHBwcHBwcHBwc=\n-----END ED25519 PUBLIC KEY-----\n"
    );
}

#[test]
fn long_pem_bodies_are_wrapped_and_read_back() {
    let data: Vec<u8> = (0u8..100).collect();
    let pem = encode_pem(PRIV_LABEL, &data);
    let lines: Vec<&str> = pem.lines().collect();
    assert_eq!(lines[1].len(), 64);
    assert_eq!(decode_pem(&pem).unwrap(), data);
}

#[test]
fn empty_pem_body_is_an_error() {
    let pem = "-----BEGIN ED25519 PUBLIC KEY-----\n-----END ED25519 PUBLIC KEY-----\n";
    assert_eq!(decode_pem(pem), Err(KeyError::EmptyPem));
}

#[test]
fn bad_base64_in_pem_is_an_error() {
    let pem = "-----BEGIN ED25519 PUBLIC KEY-----\n!!!!\n-----END ED25519 PUBLIC KEY-----\n";
    assert_eq!(decode_pem(pem), Err(KeyError::InvalidBase64));
}

#[test]
fn hex_key_text_is_accepted() {
    let text = "07".repeat(32);
    assert_eq!(decode_key_bytes(text.as_bytes(), 32).unwrap(), vec![7u8; 32]);
    let spaced = format!("  {}\n{}\n", "07".repeat(16), "07".repeat(16));
    assert_eq!(decode_key_bytes(spaced.as_bytes(), 32).unwrap(), vec![7u8; 32]);
}

#[test]
fn unrecognized_key_bytes_report_their_length() {
    assert_eq!(decode_key_bytes(b"short", 32), Err(KeyError::UnrecognizedEncoding(5)));
}

#[test]
fn short_pem_public_key_is_wrong_length() {
    let pem = encode_pem(PUB_LABEL, &[1u8; 16]);
    assert_eq!(public_key_from_bytes(pem.as_bytes()), Err(KeyError::WrongLength(16)));
}

#[test]
fn public_key_file_gives_its_id_and_bytes() {
    let signer = AttestationSigner::from_seed(&[42u8; 32]);
    let pem = signer.public_key_pem();
    let (id, bytes) = public_key_from_bytes(pem.as_bytes()).unwrap();
    assert_eq!(id, signer.key_id());
    assert_eq!(bytes, signer.verifying_key_bytes());
}

#[test]
fn key_id_is_hex_of_the_first_digest_bytes() {
    assert_eq!(key_id_from_verifying_bytes(&[7u8; 32]), "4bb06f8e4e3a7715");
}

#[test]
fn private_key_file_round_trips_the_seed() {
    let signer = AttestationSigner::from_seed(&[5u8; 32]);
    let again = AttestationSigner::from_key_file(signer.private_key_pem().as_bytes()).unwrap();
    assert_eq!(again.seed_bytes(), vec![5u8; 32]);
    assert_eq!(again.key_id(), signer.key_id());
}

#[test]
fn signature_errors_are_reported() {
    let signer = AttestationSigner::from_seed(&[3u8; 32]);
    let other = AttestationSigner::from_seed(&[4u8; 32]);
    let vk = signer.verifying_key_bytes();
    let sig = signer.sign(b"msg");
    assert_eq!(sig.len(), 128);
    assert_eq!(verify_sig(b"msg", &sig, &vk), Ok(()));
    assert_eq!(verify_sig(b"msg", "zz", &vk), Err(SignatureError::InvalidHex));
    assert_eq!(verify_sig(b"msg", "abcd", &vk), Err(SignatureError::SignatureLength(2)));
    assert_eq!(verify_sig(b"msg", &sig, &[1, 2, 3]), Err(SignatureError::KeyLength(3)));
    assert_eq!(
        verify_sig(b"msg", &sig, &other.verifying_key_bytes()),
        Err(SignatureError::Mismatch)
    );
    assert_eq!(verify_sig(b"other", &sig, &vk), Err(SignatureError::Mismatch));
}

fn sealed(signer: &AttestationSigner) -> DeploymentAttestation {
    let mut a = DeploymentAttestation::build_simple(
        &["echo".into(), "x".into()],
        0,
        None,
        None,
        None,
        signer.key_id(),
    );
    signer.seal(&mut a);
    a
}

#[test]
fn sealed_attestation_verifies() {
    let signer = AttestationSigner::generate();
    let a = sealed(&signer);
    assert_eq!(a.attestation_hash, a.compute_hash().unwrap());
    assert!(verify_hash(&a).is_ok());
    assert!(verify_attestation(&a, &signer.verifying_key_bytes()).is_ok());
}

#[test]
fn hash_mismatch_names_both_hashes() {
    let signer = AttestationSigner::generate();
    let mut a = sealed(&signer);
    let recorded = a.attestation_hash.clone();
    a.exit_code = 3;
    let expected_now = a.compute_hash().unwrap();
    match verify_attestation(&a, &signer.verifying_key_bytes()) {
        Err(VerifyError::HashMismatch { expected, found }) => {
            assert_eq!(expected, expected_now);
            assert_eq!(found, recorded);
        }
        other => panic!("unexpected {other:?}"),
    }
}

#[test]
fn wrong_key_is_a_signature_error() {
    let signer = AttestationSigner::generate();
    let other = AttestationSigner::generate();
    let a = sealed(&signer);
    match verify_attestation(&a, &other.verifying_key_bytes()) {
        Err(VerifyError::Signature(SignatureError::Mismatch)) => {}
        other => panic!("unexpected {other:?}"),
    }
}

#[test]
fn keyed_verification_errors() {
    let signer = AttestationSigner::generate();
    let other = AttestationSigner::generate();
    let a = sealed(&signer);
    assert!(matches!(verify_attestation_with_keys(&a, &[]), Err(VerifyError::NoKeys)));

    let right = vec![(signer.key_id(), signer.verifying_key_bytes())];
    assert!(verify_attestation_with_keys(&a, &right).is_ok());

    let mislabelled = vec![(signer.key_id(), other.verifying_key_bytes())];
    match verify_attestation_with_keys(&a, &mislabelled) {
        Err(VerifyError::SignatureForKey { key_id, error }) => {
            assert_eq!(key_id, signer.key_id());
            assert_eq!(error, SignatureError::Mismatch);
        }
        other => panic!("unexpected {other:?}"),
    }

    let unrelated = vec![(other.key_id(), other.verifying_key_bytes())];
    match verify_attestation_with_keys(&a, &unrelated) {
        Err(VerifyError::NoMatchingKey { key_id, keys_loaded }) => {
            assert_eq!(key_id, signer.key_id());
            assert_eq!(keys_loaded, 1);
        }
        other => panic!("unexpected {other:?}"),
    }

    // A key under another id still verifies when no key carries the signer's id.
    let renamed = vec![
        (other.key_id(), other.verifying_key_bytes()),
        ("archived".to_string(), signer.verifying_key_bytes()),
    ];
    assert!(verify_attestation_with_keys(&a, &renamed).is_ok());
}
