//! What changing a sealed document does to its verification: a change of the
//! signed content changes the bytes that are hashed, so the recorded hash no
//! longer matches unless SHA-256 maps two different inputs to one digest.
use vstd::prelude::*;
use vstd::utf8::{encode_utf8, encode_utf8_decode_utf8};
use crate::attestation::model::{
    attestation_hash_of, hints_text, is_legacy, payload_text, signer_text, v01_members, v02_members,
    ComplianceHints, DeploymentAttestation, SignerInfo,
};
use crate::attestation::verify::{hash_intact, verifies_with};
use crate::canonical::{
    bool_text, follows_value, int_text, json_string_text, lemma_bool_value_decodes,
    lemma_int_text_injective, lemma_int_value_decodes, lemma_json_string_prefix,
    lemma_nat_text_digits, lemma_object_prefix, lemma_opt_string_value_decodes,
    lemma_opt_u64_value_decodes, lemma_string_array_text_injective, lemma_string_array_value_decodes,
    lemma_string_value_decodes, object_text, opt_string_text, opt_u64_text, same_text,
    value_decodes,
};
use crate::digest::{digest_text, lemma_digest_text_injective, sel_tag, sha256_collides};
use crate::text::{lemma_prefix_cancel, opt_chars};

verus! {

/// The bytes whose SHA-256 digest the attestation hash of `a` records: the
/// UTF-8 payload, after the `sel:v1.0:` tag unless `a` is a v0.1 document.
pub open spec fn hashed_bytes(a: DeploymentAttestation) -> Seq<u8> {
    if is_legacy(a) {
        encode_utf8(payload_text(a))
    } else {
        encode_utf8(sel_tag() + payload_text(a))
    }
}

proof fn lemma_hash_is_digest_of_hashed_bytes(a: DeploymentAttestation)
    ensures
        attestation_hash_of(a) == digest_text(hashed_bytes(a)),
{
}

proof fn lemma_hashed_bytes_differ(a: DeploymentAttestation, b: DeploymentAttestation)
    requires
        is_legacy(a) == is_legacy(b),
        payload_text(a) != payload_text(b),
    ensures
        hashed_bytes(a) != hashed_bytes(b),
{
    let pa = payload_text(a);
    let pb = payload_text(b);
    if is_legacy(a) {
        encode_utf8_decode_utf8(pa);
        encode_utf8_decode_utf8(pb);
    } else {
        encode_utf8_decode_utf8(sel_tag() + pa);
        encode_utf8_decode_utf8(sel_tag() + pb);
        if sel_tag() + pa == sel_tag() + pb {
            lemma_prefix_cancel(sel_tag(), pa, pb);
        }
    }
}

/// A document that carries the recorded hash of `a` but whose signed payload
/// differs from that of `a` passes the hash check only if SHA-256 collides
/// on the two hashed inputs.
proof fn lemma_changed_payload_detected(a: DeploymentAttestation, b: DeploymentAttestation)
    requires
        hash_intact(a),
        b.attestation_hash@ == a.attestation_hash@,
        is_legacy(a) == is_legacy(b),
        payload_text(a) != payload_text(b),
    ensures
        hash_intact(b) ==> sha256_collides(hashed_bytes(a), hashed_bytes(b)),
{
    lemma_hashed_bytes_differ(a, b);
    lemma_hash_is_digest_of_hashed_bytes(a);
    lemma_hash_is_digest_of_hashed_bytes(b);
    if hash_intact(b) {
        lemma_digest_text_injective(hashed_bytes(a), hashed_bytes(b));
    }
}

/// `a` and `b` agree on everything their payloads sign: the fields common to
/// both document versions (the timestamp through its text), and, unless `a`
/// is a v0.1 document, the host metadata and the argv that v0.2 added.
pub open spec fn same_signed_content(a: DeploymentAttestation, b: DeploymentAttestation) -> bool {
    &&& a.version@ == b.version@
    &&& a.id@ == b.id@
    &&& a.timestamp.spec_document_text() == b.timestamp.spec_document_text()
    &&& a.command_hash@ == b.command_hash@
    &&& opt_chars(a.git_commit) == opt_chars(b.git_commit)
    &&& a.exit_code == b.exit_code
    &&& opt_chars(a.environment) == opt_chars(b.environment)
    &&& opt_chars(a.previous_hash) == opt_chars(b.previous_hash)
    &&& a.signer.key_id@ == b.signer.key_id@
    &&& a.compliance_hints == b.compliance_hints
    &&& !is_legacy(a) ==> {
        &&& a.command.deep_view() == b.command.deep_view()
        &&& opt_chars(a.cwd) == opt_chars(b.cwd)
        &&& opt_chars(a.actor) == opt_chars(b.actor)
        &&& opt_chars(a.hostname) == opt_chars(b.hostname)
        &&& a.duration_ms == b.duration_ms
    }
}

proof fn lemma_json_string_injective(s: Seq<char>, t: Seq<char>)
    requires
        json_string_text(s) == json_string_text(t),
    ensures
        s == t,
{
    assert(json_string_text(s) + Seq::<char>::empty() =~= json_string_text(s));
    assert(json_string_text(t) + Seq::<char>::empty() =~= json_string_text(t));
    lemma_json_string_prefix(s, t, Seq::<char>::empty(), Seq::<char>::empty());
}

proof fn lemma_opt_string_injective(o1: Option<Seq<char>>, o2: Option<Seq<char>>)
    requires
        opt_string_text(o1) == opt_string_text(o2),
    ensures
        o1 == o2,
{
    reveal_strlit("null");
    match (o1, o2) {
        (Some(s), Some(t)) => lemma_json_string_injective(s, t),
        (None, Some(t)) => assert(opt_string_text(o2)[0] == '"'),
        (Some(s), None) => assert(opt_string_text(o1)[0] == '"'),
        (None, None) => {},
    }
}

proof fn lemma_opt_u64_injective(o1: Option<u64>, o2: Option<u64>)
    requires
        opt_u64_text(o1) == opt_u64_text(o2),
    ensures
        o1 == o2,
{
    reveal_strlit("null");
    match (o1, o2) {
        (Some(x), Some(y)) => lemma_int_text_injective(x as int, y as int),
        (None, Some(y)) => {
            lemma_nat_text_digits(y as nat);
            assert(opt_u64_text(o1)[0] == 'n');
            assert(int_text(y as int)[0] != 'n');
        },
        (Some(x), None) => {
            lemma_nat_text_digits(x as nat);
            assert(opt_u64_text(o2)[0] == 'n');
            assert(int_text(x as int)[0] != 'n');
        },
        (None, None) => {},
    }
}

proof fn lemma_bool_text_injective(a: bool, b: bool)
    requires
        bool_text(a) == bool_text(b),
    ensures
        a == b,
{
    reveal_strlit("true");
    reveal_strlit("false");
    assert("true"@.len() == 4);
    assert("false"@.len() == 5);
    if a != b {
        assert(bool_text(a).len() != bool_text(b).len());
    }
}

proof fn lemma_hints_decode(h: ComplianceHints, g: ComplianceHints, r1: Seq<char>, r2: Seq<char>)
    requires
        hints_text(h) + r1 == hints_text(g) + r2,
    ensures
        h == g,
        r1 == r2,
{
    let mh = seq![
        ("change_management"@, bool_text(h.change_management)),
        ("soc2_cc8"@, bool_text(h.soc2_cc8)),
    ];
    let mg = seq![
        ("change_management"@, bool_text(g.change_management)),
        ("soc2_cc8"@, bool_text(g.soc2_cc8)),
    ];
    lemma_bool_value_decodes(h.change_management, g.change_management);
    lemma_bool_value_decodes(h.soc2_cc8, g.soc2_cc8);
    assert forall|i: int| 0 <= i < mh.len() implies #[trigger] value_decodes(mh[i].1, mg[i].1) by {
        if i == 0 {
            assert(mh[0].1 == bool_text(h.change_management));
        } else {
            assert(mh[1].1 == bool_text(h.soc2_cc8));
        }
    }
    assert forall|i: int| 0 <= i < mh.len() implies (#[trigger] mh[i]).0 == mg[i].0 by {}
    lemma_object_prefix(mh, mg, r1, r2);
    assert(mh[0].1 == mg[0].1);
    assert(mh[1].1 == mg[1].1);
    lemma_bool_text_injective(h.change_management, g.change_management);
    lemma_bool_text_injective(h.soc2_cc8, g.soc2_cc8);
}

proof fn lemma_hints_value_decodes(h: ComplianceHints, g: ComplianceHints)
    ensures
        value_decodes(hints_text(h), hints_text(g)),
{
    assert forall|r1: Seq<char>, r2: Seq<char>|
        #[trigger] same_text(hints_text(h), r1, hints_text(g), r2) && follows_value(r1)
            && follows_value(r2) implies hints_text(h) == hints_text(g) && r1 == r2 by {
        lemma_hints_decode(h, g, r1, r2);
    }
}

proof fn lemma_signer_decode(s: SignerInfo, t: SignerInfo, r1: Seq<char>, r2: Seq<char>)
    requires
        signer_text(s) + r1 == signer_text(t) + r2,
    ensures
        s.key_id@ == t.key_id@,
        r1 == r2,
{
    let ms = seq![("key_id"@, json_string_text(s.key_id@))];
    let mt = seq![("key_id"@, json_string_text(t.key_id@))];
    lemma_string_value_decodes(s.key_id@, t.key_id@);
    assert forall|i: int| 0 <= i < ms.len() implies #[trigger] value_decodes(ms[i].1, mt[i].1) by {
        assert(i == 0);
    }
    assert forall|i: int| 0 <= i < ms.len() implies (#[trigger] ms[i]).0 == mt[i].0 by {}
    lemma_object_prefix(ms, mt, r1, r2);
    assert(ms[0].1 == mt[0].1);
    lemma_json_string_injective(s.key_id@, t.key_id@);
}

proof fn lemma_signer_value_decodes(s: SignerInfo, t: SignerInfo)
    ensures
        value_decodes(signer_text(s), signer_text(t)),
{
    assert forall|r1: Seq<char>, r2: Seq<char>|
        #[trigger] same_text(signer_text(s), r1, signer_text(t), r2) && follows_value(r1)
            && follows_value(r2) implies signer_text(s) == signer_text(t) && r1 == r2 by {
        lemma_signer_decode(s, t, r1, r2);
        assert(signer_text(s) =~= signer_text(t));
    }
}

/// The signed payload determines the signed content: two documents of the
/// same version kind with one payload agree on everything the payload signs.
pub proof fn lemma_payload_determines_content(a: DeploymentAttestation, b: DeploymentAttestation)
    requires
        is_legacy(a) == is_legacy(b),
        payload_text(a) == payload_text(b),
    ensures
        same_signed_content(a, b),
{
    let ta = a.timestamp.spec_document_text();
    let tb = b.timestamp.spec_document_text();
    lemma_opt_string_value_decodes(opt_chars(a.actor), opt_chars(b.actor));
    lemma_string_array_value_decodes(a.command.deep_view(), b.command.deep_view());
    lemma_string_value_decodes(a.command_hash@, b.command_hash@);
    lemma_hints_value_decodes(a.compliance_hints, b.compliance_hints);
    lemma_opt_string_value_decodes(opt_chars(a.cwd), opt_chars(b.cwd));
    lemma_opt_u64_value_decodes(a.duration_ms, b.duration_ms);
    lemma_opt_string_value_decodes(opt_chars(a.environment), opt_chars(b.environment));
    lemma_int_value_decodes(a.exit_code as int, b.exit_code as int);
    lemma_opt_string_value_decodes(opt_chars(a.git_commit), opt_chars(b.git_commit));
    lemma_opt_string_value_decodes(opt_chars(a.hostname), opt_chars(b.hostname));
    lemma_string_value_decodes(a.id@, b.id@);
    lemma_opt_string_value_decodes(opt_chars(a.previous_hash), opt_chars(b.previous_hash));
    lemma_signer_value_decodes(a.signer, b.signer);
    lemma_string_value_decodes(ta, tb);
    lemma_string_value_decodes(a.version@, b.version@);
    let (ma, mb) = if is_legacy(a) {
        (v01_members(a), v01_members(b))
    } else {
        (v02_members(a), v02_members(b))
    };
    assert(payload_text(a) == object_text(ma));
    assert(payload_text(b) == object_text(mb));
    assert forall|i: int| 0 <= i < ma.len() implies (#[trigger] ma[i]).0 == mb[i].0 by {}
    assert forall|i: int| 0 <= i < ma.len() implies #[trigger] value_decodes(ma[i].1, mb[i].1) by {}
    assert(object_text(ma) + Seq::<char>::empty() =~= object_text(ma));
    assert(object_text(mb) + Seq::<char>::empty() =~= object_text(mb));
    lemma_object_prefix(ma, mb, Seq::<char>::empty(), Seq::<char>::empty());
    assert forall|i: int| 0 <= i < ma.len() implies ma[i].1 == mb[i].1 by {}
    lemma_json_string_injective(a.version@, b.version@);
    lemma_json_string_injective(a.id@, b.id@);
    lemma_json_string_injective(ta, tb);
    lemma_json_string_injective(a.command_hash@, b.command_hash@);
    lemma_opt_string_injective(opt_chars(a.git_commit), opt_chars(b.git_commit));
    lemma_opt_string_injective(opt_chars(a.environment), opt_chars(b.environment));
    lemma_opt_string_injective(opt_chars(a.previous_hash), opt_chars(b.previous_hash));
    lemma_int_text_injective(a.exit_code as int, b.exit_code as int);
    assert(signer_text(a.signer) + Seq::<char>::empty() =~= signer_text(a.signer));
    assert(signer_text(b.signer) + Seq::<char>::empty() =~= signer_text(b.signer));
    lemma_signer_decode(a.signer, b.signer, Seq::<char>::empty(), Seq::<char>::empty());
    assert(hints_text(a.compliance_hints) + Seq::<char>::empty() =~= hints_text(a.compliance_hints));
    assert(hints_text(b.compliance_hints) + Seq::<char>::empty() =~= hints_text(b.compliance_hints));
    lemma_hints_decode(a.compliance_hints, b.compliance_hints, Seq::<char>::empty(), Seq::<char>::empty());
    if !is_legacy(a) {
        lemma_string_array_text_injective(a.command.deep_view(), b.command.deep_view());
        lemma_opt_string_injective(opt_chars(a.cwd), opt_chars(b.cwd));
        lemma_opt_string_injective(opt_chars(a.actor), opt_chars(b.actor));
        lemma_opt_string_injective(opt_chars(a.hostname), opt_chars(b.hostname));
        lemma_opt_u64_injective(a.duration_ms, b.duration_ms);
    }
}

/// Tampering is detected: a document that carries the recorded hash of a
/// document `a` whose hash is intact, but differs from `a` in anything `a`'s
/// payload signs, passes the hash check (and so verifies under any key) only
/// if SHA-256 collides on the two hashed inputs.
pub proof fn lemma_tamper_detected(a: DeploymentAttestation, b: DeploymentAttestation)
    requires
        hash_intact(a),
        b.attestation_hash@ == a.attestation_hash@,
        !same_signed_content(a, b),
    ensures
        hash_intact(b) ==> sha256_collides(hashed_bytes(a), hashed_bytes(b)),
{
    lemma_hash_is_digest_of_hashed_bytes(a);
    lemma_hash_is_digest_of_hashed_bytes(b);
    if is_legacy(a) == is_legacy(b) {
        if payload_text(a) == payload_text(b) {
            lemma_payload_determines_content(a, b);
        }
        lemma_changed_payload_detected(a, b);
    } else {
        reveal_strlit("sel:v1.0:");
        let (l, v) = if is_legacy(a) {
            (a, b)
        } else {
            (b, a)
        };
        let pl = payload_text(l);
        let tv = sel_tag() + payload_text(v);
        encode_utf8_decode_utf8(pl);
        encode_utf8_decode_utf8(tv);
        assert(pl[0] == '{');
        assert(tv[0] == 's');
        assert(hashed_bytes(a) != hashed_bytes(b));
        if hash_intact(b) {
            lemma_digest_text_injective(hashed_bytes(a), hashed_bytes(b));
        }
    }
}

/// A sealed document whose signed content was changed afterwards (its exit
/// code, its argv, anything its payload signs) no longer verifies under any
/// key, unless SHA-256 collides.
pub proof fn lemma_tampered_document_fails(
    a: DeploymentAttestation,
    b: DeploymentAttestation,
    public: Seq<u8>,
)
    requires
        hash_intact(a),
        b.attestation_hash@ == a.attestation_hash@,
        !same_signed_content(a, b),
    ensures
        verifies_with(b, public) ==> sha256_collides(hashed_bytes(a), hashed_bytes(b)),
{
    lemma_tamper_detected(a, b);
}

} // verus!
