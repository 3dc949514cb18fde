//! The chain audit on hand-built documents.

use sel_deploy::attestation::chain::{audit_chain, ChainBuilder};
use sel_deploy::attestation::model::DeploymentAttestation;

fn fake(prev: Option<&str>, hash: &str) -> DeploymentAttestation {
    let mut a = DeploymentAttestation::build_simple(
        &["echo".into()],
        0,
        None,
        None,
        prev.map(|s| s.to_string()),
        "kid".into(),
    );
    a.attestation_hash = hash.to_string();
    a
}

#[test]
fn empty_chain_is_clean() {
    let r = audit_chain(&[]);
    assert!(r.is_clean());
    assert_eq!(r.total, 0);
}

#[test]
fn lost_genesis_is_not_intact() {
    let a = fake(Some("sel:v1.0:sha256:dead"), "sel:v1.0:sha256:beef");
    let r = audit_chain(&[a]);
    assert!(!r.is_clean());
    assert_eq!(r.missing_predecessors, 1);
}

#[test]
fn properly_linked_chain_is_clean() {
    let a = fake(None, "h1");
    let b = fake(Some("h1"), "h2");
    let c = fake(Some("h2"), "h3");
    let r = audit_chain(&[a, b, c]);
    assert!(r.is_clean());
    assert_eq!(r.total, 3);
    assert_eq!(r.gaps_detected, 0);
    assert_eq!(r.missing_predecessors, 0);
    assert!(r.broken_at.is_none());
}

#[test]
fn first_document_pointing_forward_is_a_break() {
    let a = fake(Some("h2"), "h1");
    let b = fake(None, "h2");
    let id = a.id.clone();
    let r = audit_chain(&[a, b]);
    assert_eq!(r.broken_at, Some(id));
    assert_eq!(r.missing_predecessors, 0);
    assert_eq!(r.total, 2);
}

#[test]
fn link_to_a_known_but_wrong_document_is_a_break() {
    let a = fake(None, "h1");
    let b = fake(Some("h1"), "h2");
    let c = fake(Some("h1"), "h3");
    let id = c.id.clone();
    let r = audit_chain(&[a, b, c]);
    assert_eq!(r.broken_at, Some(id));
    assert_eq!(r.missing_predecessors, 0);
    assert!(!r.is_clean());
}

#[test]
fn link_to_a_deleted_document_is_a_break_and_a_missing_predecessor() {
    let a = fake(None, "h1");
    let c = fake(Some("h2"), "h3");
    let id = c.id.clone();
    let r = audit_chain(&[a, c]);
    assert_eq!(r.broken_at, Some(id));
    assert_eq!(r.missing_predecessors, 1);
}

#[test]
fn later_genesis_is_a_gap() {
    let a = fake(None, "h1");
    let b = fake(None, "h2");
    let c = fake(Some("h2"), "h3");
    let r = audit_chain(&[a, b, c]);
    assert!(r.broken_at.is_none());
    assert_eq!(r.gaps_detected, 1);
    assert!(!r.is_clean());
}

#[test]
fn builder_links_to_the_last_advanced_document() {
    let mut chain = ChainBuilder::new();
    assert_eq!(chain.previous_hash(), None);
    let a = fake(None, "h1");
    chain.advance(&a);
    assert_eq!(chain.previous_hash(), Some("h1".to_string()));
    let tipped = ChainBuilder::with_tip("h9".to_string());
    assert_eq!(tipped.previous_hash(), Some("h9".to_string()));
    assert_eq!(ChainBuilder::default().previous_hash(), None);
}
