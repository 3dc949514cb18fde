use sel_deploy::attestation::model::hash_command;

#[test]
fn argv_boundaries_are_distinct() {
    let a = hash_command(&["echo".into(), "hello world".into()]).unwrap();
    let b = hash_command(&["echo hello".into(), "world".into()]).unwrap();
    assert_ne!(a, b, "joining with spaces must not be used for v0.2 hashes");
    assert!(a.starts_with("sel:v1.0:sha256:"));
    assert_eq!(a.len(), "sel:v1.0:sha256:".len() + 64);
}

#[test]
fn hash_is_stable() {
    let cmd: Vec<String> = vec![
        "kubectl".into(),
        "apply".into(),
        "-f".into(),
        "d.yaml".into(),
    ];
    let h1 = hash_command(&cmd).unwrap();
    let h2 = hash_command(&cmd).unwrap();
    assert_eq!(h1, h2);
}
