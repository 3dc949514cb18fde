//! File names, store order, and the rows of the timeline index.

use sel_deploy::attestation::model::DeploymentAttestation;
use sel_deploy::storage::filesystem::{is_attestation_file_name, sort_attestations, AttestationStore};
use sel_deploy::storage::sqlite::{
    command_column, command_from_row, display_line, env_label, is_duplicate_column_error, Row,
};
use sel_deploy::storage::paths::{home_override, SelPaths, HOME_ENV};
use sel_deploy::text::trim_text;
use sel_deploy::timestamp::Timestamp;
use sel_deploy::util::best_effort;

fn doc(id: &str, secs: i64) -> DeploymentAttestation {
    let mut a = DeploymentAttestation::build_simple(&["echo".into()], 0, None, None, None, "kid".into());
    a.id = id.to_string();
    a.timestamp = Timestamp::from_unix(secs, 0).unwrap();
    a
}

#[test]
fn file_name_is_second_stamp_and_id_prefix() {
    let a = doc("0123456789abcdef", 0);
    assert_eq!(AttestationStore::filename_for(&a), "1970-01-01T00-00-00-01234567.json");
    assert_eq!(AttestationStore::temp_filename_for(&a), "1970-01-01T00-00-00-01234567.json.tmp");
    let store = AttestationStore::new("/var/sel/attestations".to_string());
    assert_eq!(store.dir(), "/var/sel/attestations");
}

#[test]
fn same_second_attestations_get_distinct_file_names() {
    let a = DeploymentAttestation::build_simple(&["echo".into(), "one".into()], 0, None, None, None, "k".into());
    let mut b = DeploymentAttestation::build_simple(&["echo".into(), "two".into()], 0, None, None, None, "k".into());
    b.timestamp = a.timestamp;
    assert_ne!(&a.id[..8], &b.id[..8]);
    assert_ne!(AttestationStore::filename_for(&a), AttestationStore::filename_for(&b));
}

#[test]
fn attestation_file_names() {
    assert!(is_attestation_file_name("2026-08-18T16-51-00-0123abcd.json"));
    assert!(!is_attestation_file_name("x.tmp.json"));
    assert!(!is_attestation_file_name("x.json.tmp"));
    assert!(!is_attestation_file_name("notes.txt"));
    assert!(!is_attestation_file_name("json"));
}

#[test]
fn store_order_is_time_then_id() {
    let sorted = sort_attestations(vec![doc("c", 20), doc("b", 10), doc("a", 20), doc("d", 5)]);
    let ids: Vec<&str> = sorted.iter().map(|a| a.id.as_str()).collect();
    assert_eq!(ids, vec!["d", "b", "a", "c"]);
    assert!(sort_attestations(vec![]).is_empty());
}

#[test]
fn command_column_round_trips() {
    let mut a = doc("x", 0);
    a.command = vec!["kubectl".into(), "apply \"x\"".into()];
    let col = command_column(&a);
    assert_eq!(col, "[\"kubectl\",\"apply \\\"x\\\"\"]");
    assert_eq!(command_from_row(&Some(col)), a.command);
}

#[test]
fn command_from_row_falls_back_to_the_text() {
    assert!(command_from_row(&None).is_empty());
    assert!(command_from_row(&Some(String::new())).is_empty());
    assert_eq!(command_from_row(&Some("echo hi".into())), vec!["echo hi".to_string()]);
    assert_eq!(command_from_row(&Some("[\"a\",\"b\"]".into())), vec!["a".to_string(), "b".to_string()]);
}

#[test]
fn env_labels() {
    let e = Some("prod".to_string());
    let g = Some("abc".to_string());
    assert_eq!(env_label(&e, &g), "[prod @abc]");
    assert_eq!(env_label(&e, &None), "[prod]");
    assert_eq!(env_label(&None, &g), "[@abc]");
    assert_eq!(env_label(&None, &None), "");
}

#[test]
fn display_lines() {
    let row = Row {
        timestamp: "2026-08-18T16:51:00+00:00".into(),
        git_commit: Some("abc123".into()),
        exit_code: 0,
        attestation_hash: "sel:v1.0:sha256:0123456789abcdef0123456789abcdef".into(),
        environment: Some("production".into()),
        command: Some("[\"echo\",\"hello\"]".into()),
    };
    assert_eq!(
        display_line(&row),
        "2026-08-18 16:51:00  echo hello                   \u{2714}  sel:v1.0:sha256:0123456789ab... [production @abc123]"
    );
    let failed = Row {
        timestamp: "2026-08-18T16:51:00+00:00".into(),
        git_commit: None,
        exit_code: 3,
        attestation_hash: "short".into(),
        environment: None,
        command: Some("kubectl apply -f a-very-long-deployment.yaml".into()),
    };
    assert_eq!(
        display_line(&failed),
        "2026-08-18 16:51:00  kubectl apply -f a-very...   \u{2718}  short... "
    );
}

#[test]
fn data_directory_layout() {
    let p = SelPaths::from_root("/home/u/.local/share/sel-deploy");
    assert_eq!(p.root, "/home/u/.local/share/sel-deploy");
    assert_eq!(p.attestations, "/home/u/.local/share/sel-deploy/attestations");
    assert_eq!(p.keys_dir, "/home/u/.local/share/sel-deploy/keys");
    assert_eq!(p.keys_archive, "/home/u/.local/share/sel-deploy/keys/archive");
    assert_eq!(p.private_key, "/home/u/.local/share/sel-deploy/keys/default.pem");
    assert_eq!(p.public_key, "/home/u/.local/share/sel-deploy/keys/default.pub");
    assert_eq!(p.db, "/home/u/.local/share/sel-deploy/timeline.db");
    assert_eq!(SelPaths::from_root("/data/").attestations, "/data/attestations");
    assert_eq!(SelPaths::from_root("").db, "timeline.db");
}

#[test]
fn home_override_is_trimmed_and_must_not_be_empty() {
    assert_eq!(home_override("  /srv/sel \n"), Some("/srv/sel".to_string()));
    assert_eq!(home_override("   "), None);
    assert_eq!(home_override(""), None);
    assert_eq!(HOME_ENV, "SEL_DEPLOY_HOME");
}

#[test]
fn best_effort_takes_the_first_set_source() {
    assert_eq!(best_effort(&[None, Some("ci-bot".into()), Some("root".into())]), Some("ci-bot".to_string()));
    assert_eq!(best_effort(&[Some(String::new()), Some("root".into())]), None);
    assert_eq!(best_effort(&[None, None]), None);
    assert_eq!(trim_text("  abc123\n"), "abc123");
}

#[test]
fn duplicate_column_errors_are_recognised() {
    assert!(is_duplicate_column_error("duplicate column name: command"));
    assert!(is_duplicate_column_error("Duplicate Column"));
    assert!(!is_duplicate_column_error("no such table: attestations"));
    assert!(!is_duplicate_column_error(""));
}

#[test]
fn store_order_keeps_equal_keys_in_input_order() {
    let mut first = doc("same", 10);
    first.command = vec!["first".into()];
    let mut second = doc("same", 10);
    second.command = vec!["second".into()];
    let sorted = sort_attestations(vec![doc("z", 20), first, doc("a", 5), second]);
    let cmds: Vec<String> = sorted.iter().map(|a| format!("{}:{}", a.id, a.command[0])).collect();
    assert_eq!(cmds, vec!["a:echo", "same:first", "same:second", "z:echo"]);
}

#[test]
fn generated_ids_are_v4_uuids() {
    let a = DeploymentAttestation::build_simple(&["echo".into()], 0, None, None, None, "k".into());
    let id: Vec<char> = a.id.chars().collect();
    assert_eq!(id.len(), 36);
    assert_eq!(id[14], '4');
    assert!("89ab".contains(id[19]));
    assert!(a.id.chars().all(|c| c == '-' || c.is_ascii_digit() || ('a'..='f').contains(&c)));
}
