//! Digests, hex and the canonical JSON pieces.

use sel_deploy::canonical::{
    bool_json, json_integer, json_quote, object_json, opt_string_json, opt_u64_json,
    string_array_json,
};
use sel_deploy::digest::{digest_hash, hex_decode, hex_encode, sha256, versioned_hash};

#[test]
fn sha256_of_abc() {
    assert_eq!(
        hex_encode(&sha256(b"abc")),
        "ba7816bf8f01cfea414140de5dae2223b00361a396177a9cb410ff61f20015ad"
    );
}

#[test]
fn hex_round_trips_and_rejects_bad_text() {
    assert_eq!(hex_encode(&[0xde, 0xad, 0x00, 0x0f]), "dead000f");
    assert_eq!(hex_decode("dead000f"), Some(vec![0xde, 0xad, 0x00, 0x0f]));
    assert_eq!(hex_decode("DEAD"), Some(vec![0xde, 0xad]));
    assert_eq!(hex_decode("abc"), None);
    assert_eq!(hex_decode("zz"), None);
    assert_eq!(hex_decode(""), Some(vec![]));
}

#[test]
fn digest_and_versioned_hash() {
    assert_eq!(
        digest_hash(b"abc"),
        "sel:v1.0:sha256:ba7816bf8f01cfea414140de5dae2223b00361a396177a9cb410ff61f20015ad"
    );
    assert_eq!(
        versioned_hash("x"),
        "sel:v1.0:sha256:8c0fb2dcb7b96a2133b5af3adf0a028c83105a2f7b497164bcf53ab2a674c2d7"
    );
    assert_eq!(
        versioned_hash("[\"true\"]"),
        "sel:v1.0:sha256:aa380ad81791226e48812f727954e20c822de39b31962d97e1490b8228aa0e9e"
    );
}

#[test]
fn json_pieces() {
    assert_eq!(json_quote("a\"b\\c\n\u{1}é"), "\"a\\\"b\\\\c\\n\\u0001é\"");
    assert_eq!(json_integer(-5), "-5");
    assert_eq!(json_integer(842), "842");
    assert_eq!(bool_json(true), "true");
    assert_eq!(opt_string_json(&None), "null");
    assert_eq!(opt_string_json(&Some("x".to_string())), "\"x\"");
    assert_eq!(opt_u64_json(Some(7)), "7");
    assert_eq!(opt_u64_json(None), "null");
    assert_eq!(string_array_json(&[]), "[]");
    assert_eq!(string_array_json(&["a".to_string(), "b c".to_string()]), "[\"a\",\"b c\"]");
    let members = vec![
        ("a".to_string(), "1".to_string()),
        ("b".to_string(), "null".to_string()),
    ];
    assert_eq!(object_json(&members), "{\"a\":1,\"b\":null}");
}
