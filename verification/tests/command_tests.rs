//! Decisions of the command-line front end.

use sel_deploy::attestation::model::{AttestationMeta, DeploymentAttestation};
use sel_deploy::attestation::signer::AttestationSigner;
use sel_deploy::attestation::verify::verify_attestation;
use sel_deploy::cli::{ExportArgs, KeygenArgs, RunArgs};
use sel_deploy::commands::{
    archived_key_file_name, attest_deployment, export_format_status, is_public_key_file_name,
    keygen_archives_previous, keygen_refusal_status, select_public_keys,
    keygen_refuses, parse_claims, run_exit_code, verify_store,
};
use sel_deploy::error::{ClaimError, KeyError, VerifyError};

fn strings(v: &[&str]) -> Vec<String> {
    v.iter().map(|s| s.to_string()).collect()
}

#[test]
fn claims_are_opt_in() {
    let none = parse_claims(&[]).unwrap();
    assert!(!none.soc2_cc8 && !none.change_management);
    let soc = parse_claims(&strings(&["SOC2"])).unwrap();
    assert!(soc.soc2_cc8 && !soc.change_management);
    let both = parse_claims(&strings(&["soc2-cc8", "Change-Management"])).unwrap();
    assert!(both.soc2_cc8 && both.change_management);
    let cm = parse_claims(&strings(&["cm", "cm"])).unwrap();
    assert!(!cm.soc2_cc8 && cm.change_management);
}

#[test]
fn unknown_claim_is_named_in_lower_case() {
    match parse_claims(&strings(&["soc2", "ISO27001", "bogus"])) {
        Err(ClaimError::Unknown(name)) => assert_eq!(name, "iso27001"),
        other => panic!("unexpected {other:?}"),
    }
}

fn run_args(ignore_fail: bool) -> RunArgs {
    RunArgs { env: None, claim: vec![], ignore_fail, command: strings(&["false"]) }
}

#[test]
fn run_exit_codes() {
    assert_eq!(run_exit_code(&run_args(false), 0), 0);
    assert_eq!(run_exit_code(&run_args(false), 7), 7);
    assert_eq!(run_exit_code(&run_args(false), -1), 1);
    assert_eq!(run_exit_code(&run_args(true), 7), 0);
    assert_eq!(run_exit_code(&run_args(true), -1), 0);
}

fn export_args(format: &str) -> ExportArgs {
    ExportArgs { format: format.to_string(), output: None }
}

#[test]
fn export_formats() {
    assert_eq!(export_format_status(&export_args("json")), None);
    assert_eq!(export_format_status(&export_args("csv")), Some(2));
    assert_eq!(export_format_status(&export_args("JSON")), Some(2));
}

#[test]
fn keygen_and_key_archive() {
    assert!(keygen_refuses(&KeygenArgs { force: false }, true));
    assert!(!keygen_refuses(&KeygenArgs { force: true }, true));
    assert!(!keygen_refuses(&KeygenArgs { force: false }, false));
    assert!(keygen_archives_previous(&KeygenArgs { force: true }, true));
    assert!(!keygen_archives_previous(&KeygenArgs { force: true }, false));
    assert!(!keygen_archives_previous(&KeygenArgs { force: false }, true));
    assert!(is_public_key_file_name("5044c0906fe14ed6.pub"));
    assert!(!is_public_key_file_name("default.pem"));
    assert_eq!(archived_key_file_name("5044c0906fe14ed6"), "5044c0906fe14ed6.pub");
}

fn attest(
    existing: &[DeploymentAttestation],
    signer: &AttestationSigner,
    cmd: &str,
) -> DeploymentAttestation {
    attest_deployment(
        existing,
        signer,
        &strings(&["echo", cmd]),
        0,
        None,
        Some("staging".into()),
        AttestationMeta::default(),
    )
}

#[test]
fn attested_deployments_chain_and_verify() {
    let signer = AttestationSigner::generate();
    let keys = vec![(signer.key_id(), signer.verifying_key_bytes())];
    let mut all: Vec<DeploymentAttestation> = Vec::new();
    for cmd in ["alpha", "beta", "gamma"] {
        let a = attest(&all, &signer, cmd);
        assert!(verify_attestation(&a, &signer.verifying_key_bytes()).is_ok());
        match all.last() {
            None => assert_eq!(a.previous_hash, None),
            Some(p) => assert_eq!(a.previous_hash.as_deref(), Some(p.attestation_hash.as_str())),
        }
        assert_eq!(a.signer.key_id, signer.key_id());
        assert_eq!(a.environment.as_deref(), Some("staging"));
        all.push(a);
    }
    let v = verify_store(&all, &keys);
    assert!(v.invalid.is_empty());
    assert!(v.report.is_clean());
    assert_eq!(v.report.total, 3);
    assert_eq!(v.exit_code(), 0);
}

#[test]
fn tampered_store_fails_verification() {
    let signer = AttestationSigner::generate();
    let keys = vec![(signer.key_id(), signer.verifying_key_bytes())];
    let first = attest(&[], &signer, "one");
    let second = attest(std::slice::from_ref(&first), &signer, "two");
    let mut all = vec![first, second];
    all[1].exit_code = 99;
    let v = verify_store(&all, &keys);
    assert_eq!(v.invalid.len(), 1);
    assert_eq!(v.invalid[0].0, 1);
    assert!(matches!(v.invalid[0].1, VerifyError::HashMismatch { .. }));
    assert_eq!(v.exit_code(), 1);

    let no_keys = verify_store(&all[..1], &[]);
    assert!(matches!(no_keys.invalid[0].1, VerifyError::NoKeys));
    assert_eq!(no_keys.exit_code(), 1);
}

#[test]
fn store_with_a_gap_fails_verification() {
    let signer = AttestationSigner::generate();
    let keys = vec![(signer.key_id(), signer.verifying_key_bytes())];
    let first = attest(&[], &signer, "one");
    let second = attest(&[], &signer, "two");
    let v = verify_store(&[first, second], &keys);
    assert!(v.invalid.is_empty());
    assert_eq!(v.report.gaps_detected, 1);
    assert_eq!(v.exit_code(), 1);
}

#[test]
fn keygen_refusal_is_exit_status_one() {
    assert_eq!(keygen_refusal_status(&KeygenArgs { force: false }, true), Some(1));
    assert_eq!(keygen_refusal_status(&KeygenArgs { force: true }, true), None);
    assert_eq!(keygen_refusal_status(&KeygenArgs { force: false }, false), None);
}

fn key(id: &str) -> (String, Vec<u8>) {
    (id.to_string(), vec![id.len() as u8; 32])
}

#[test]
fn key_list_puts_the_default_first_and_skips_unreadable_archives() {
    let got = select_public_keys(
        Some(Ok(key("default"))),
        vec![Ok(key("old1")), Err(KeyError::EmptyPem), Ok(key("old2"))],
    )
    .unwrap();
    let ids: Vec<&str> = got.iter().map(|k| k.0.as_str()).collect();
    assert_eq!(ids, vec!["default", "old1", "old2"]);

    let none = select_public_keys(None, vec![Err(KeyError::WrongLength(16)), Ok(key("old"))]).unwrap();
    assert_eq!(none, vec![key("old")]);
    assert!(select_public_keys(None, vec![]).unwrap().is_empty());
}

#[test]
fn unreadable_default_key_is_an_error() {
    assert_eq!(
        select_public_keys(Some(Err(KeyError::InvalidBase64)), vec![Ok(key("old"))]),
        Err(KeyError::InvalidBase64)
    );
}
