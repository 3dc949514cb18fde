//! Changes to sealed documents and to the chain, and what verification says.

use sel_deploy::attestation::chain::{audit_chain, ChainBuilder};
use sel_deploy::attestation::model::{ComplianceHints, DeploymentAttestation};
use sel_deploy::attestation::signer::AttestationSigner;
use sel_deploy::attestation::verify::{verify_attestation, verify_hash};
use sel_deploy::error::VerifyError;

fn sealed(signer: &AttestationSigner, cmd: &str, prev: Option<String>) -> DeploymentAttestation {
    let mut a = DeploymentAttestation::build_simple(
        &["deploy".into(), cmd.into()],
        0,
        Some("abc123".into()),
        Some("production".into()),
        prev,
        signer.key_id(),
    );
    signer.seal(&mut a);
    a
}

fn chain_of(signer: &AttestationSigner, n: usize) -> Vec<DeploymentAttestation> {
    let mut chain = ChainBuilder::new();
    let mut out = Vec::new();
    for i in 0..n {
        let a = sealed(signer, &format!("step-{i}"), chain.previous_hash());
        chain.advance(&a);
        out.push(a);
    }
    out
}

#[test]
fn any_signed_field_change_is_detected() {
    let signer = AttestationSigner::generate();
    let vk = signer.verifying_key_bytes();
    let base = sealed(&signer, "x", None);
    assert!(verify_attestation(&base, &vk).is_ok());

    let edits: Vec<fn(&mut DeploymentAttestation)> = vec![
        |a| a.environment = Some("staging".into()),
        |a| a.git_commit = None,
        |a| a.compliance_hints = ComplianceHints { soc2_cc8: true, change_management: false },
        |a| a.previous_hash = Some("sel:v1.0:sha256:00".into()),
        |a| a.cwd = Some("/tmp".into()),
        |a| a.duration_ms = Some(1),
        |a| a.signer.key_id = "0000000000000000".into(),
        |a| a.version = "0.3".into(),
        |a| a.version = "0.1".into(),
    ];
    for edit in edits {
        let mut b = copy_doc(&base);
        edit(&mut b);
        assert!(matches!(verify_hash(&b), Err(VerifyError::HashMismatch { .. })));
        assert!(verify_attestation(&b, &vk).is_err());
    }
}

#[test]
fn legacy_documents_do_not_sign_the_argv() {
    // A v0.1 document signs its command hash, not its argv: editing the argv
    // alone goes unnoticed, as it always did for such files.
    let signer = AttestationSigner::generate();
    let vk = signer.verifying_key_bytes();
    let mut a = DeploymentAttestation::build_simple(&["echo".into()], 0, None, None, None, signer.key_id());
    a.version = "0.1".into();
    signer.seal(&mut a);
    a.command = vec!["rm".into(), "-rf".into()];
    assert!(verify_attestation(&a, &vk).is_ok());
}

#[test]
fn deleting_a_document_is_reported_unless_it_is_the_last() {
    let signer = AttestationSigner::generate();
    let all = chain_of(&signer, 4);
    assert!(audit_chain(&all).is_clean());
    for k in 0..3 {
        let mut rest: Vec<DeploymentAttestation> = all.iter().map(copy_doc).collect();
        rest.remove(k);
        assert!(!audit_chain(&rest).is_clean(), "deleting document {k} must be reported");
    }
    let mut truncated: Vec<DeploymentAttestation> = all.iter().map(copy_doc).collect();
    truncated.pop();
    assert!(audit_chain(&truncated).is_clean());
}

fn copy_doc(a: &DeploymentAttestation) -> DeploymentAttestation {
    DeploymentAttestation {
        version: a.version.clone(),
        id: a.id.clone(),
        timestamp: a.timestamp,
        command: a.command.clone(),
        command_hash: a.command_hash.clone(),
        git_commit: a.git_commit.clone(),
        exit_code: a.exit_code,
        environment: a.environment.clone(),
        cwd: a.cwd.clone(),
        actor: a.actor.clone(),
        hostname: a.hostname.clone(),
        duration_ms: a.duration_ms,
        previous_hash: a.previous_hash.clone(),
        attestation_hash: a.attestation_hash.clone(),
        signature: a.signature.clone(),
        signer: sel_deploy::attestation::model::SignerInfo { key_id: a.signer.key_id.clone() },
        compliance_hints: a.compliance_hints,
    }
}
