//! The attestation document and the payloads that are hashed and signed.
use vstd::prelude::*;
use vstd::string::StringSliceAdditionalSpecFns;
use vstd::utf8::encode_utf8;
use vstd::slice::slice_to_vec;
use crate::canonical::{
    bool_json, bool_text, int_text, json_integer, json_quote, json_string_text,
    is_plain_char, lemma_escaped_plain, lemma_string_array_text_injective,
    literal, member_text,
    members_view, object_json, object_text, opt_string_json, opt_string_text, opt_u64_json,
    opt_u64_text, string_array_json, string_array_text,
};
use crate::digest::{
    digest_hash, digest_text, lemma_versioned_hash_distinguishes, sel_tag, sha256_collides,
    versioned_hash, versioned_hash_text,
};
use crate::error::CanonicalError;
use crate::text::{clone_strings, joined, join, opt_chars, starts_with, text_lt};
use crate::timestamp::Timestamp;

verus! {

/// Attestation document version emitted by this build.
pub const ATTESTATION_VERSION: &'static str = "0.2";

/// Legacy documents produced by sel-deploy 0.1.x.
pub const ATTESTATION_VERSION_V01: &'static str = "0.1";

/// Identity of the key that signed a document.
#[derive(Debug)]
pub struct SignerInfo {
    pub key_id: String,
}

/// Explicit compliance claims. Never inferred; all false unless claimed.
#[derive(Debug, Clone, Copy, PartialEq, Eq, Structural)]
pub struct ComplianceHints {
    pub soc2_cc8: bool,
    pub change_management: bool,
}

impl Default for ComplianceHints {
    fn default() -> (res: Self)
        ensures
            !res.soc2_cc8,
            !res.change_management,
    {
        ComplianceHints { soc2_cc8: false, change_management: false }
    }
}

/// Host metadata and claims recorded with a deployment.
#[derive(Debug)]
pub struct AttestationMeta {
    pub cwd: Option<String>,
    pub actor: Option<String>,
    pub hostname: Option<String>,
    pub duration_ms: Option<u64>,
    pub claims: ComplianceHints,
}

impl Default for AttestationMeta {
    fn default() -> (res: Self)
        ensures
            res.cwd is None,
            res.actor is None,
            res.hostname is None,
            res.duration_ms is None,
            !res.claims.soc2_cc8,
            !res.claims.change_management,
    {
        AttestationMeta {
            cwd: None,
            actor: None,
            hostname: None,
            duration_ms: None,
            claims: ComplianceHints { soc2_cc8: false, change_management: false },
        }
    }
}

/// One attested deployment, as stored in its JSON document.
///
#[derive(Debug)]
pub struct DeploymentAttestation {
    pub version: String,
    pub id: String,
    pub timestamp: Timestamp,
    /// The argv as it ran. Empty on v0.1 documents (the field did not exist).
    pub command: Vec<String>,
    /// `sel:v1.0:sha256:<hex>` of the command (argv-canonical in v0.2).
    pub command_hash: String,
    pub git_commit: Option<String>,
    pub exit_code: i32,
    pub environment: Option<String>,
    pub cwd: Option<String>,
    pub actor: Option<String>,
    pub hostname: Option<String>,
    pub duration_ms: Option<u64>,
    pub previous_hash: Option<String>,
    pub attestation_hash: String,
    pub signature: String,
    pub signer: SignerInfo,
    /// Explicit claims only. Never inferred. Defaults to all-false.
    pub compliance_hints: ComplianceHints,
}


/// `sel:v1.0:sha256:<hex>` of the argv as a canonical JSON array of strings
/// (argument boundaries are preserved).
pub open spec fn command_hash_text(command: Seq<Seq<char>>) -> Seq<char> {
    versioned_hash_text(string_array_text(command))
}

/// The v0.1 command hash: the digest of the UTF-8 bytes of the argv joined by
/// single spaces.
pub open spec fn command_hash_v01_text(command: Seq<Seq<char>>) -> Seq<char> {
    digest_text(encode_utf8(joined(command, seq![' '])))
}

/// SHA-256 of the argv as a canonical JSON array (preserves argument boundaries).
/// Always succeeds.
pub fn hash_command(command: &[String]) -> (res: Result<String, CanonicalError>)
    ensures
        res matches Ok(h) && h@ == command_hash_text(command.deep_view()) && h@.len() == 80,
{
    Ok(command_hash_string(command))
}

fn command_hash_string(command: &[String]) -> (res: String)
    ensures
        res@ == command_hash_text(command.deep_view()),
        res@.len() == 80,
{
    let canonical = string_array_json(command);
    versioned_hash(canonical.as_str())
}

/// v0.1 hashed the bytes of `command.join(" ")`. Used only when verifying old files.
pub fn hash_command_v01(command: &[String]) -> (res: String)
    ensures
        res@ == command_hash_v01_text(command.deep_view()),
        res@.len() == 80,
{
    let sep = " ";
    proof {
        reveal_strlit(" ");
    }
    assert(sep@ == seq![' ']);
    let line = join(command, sep);
    digest_hash(line.as_str().as_bytes())
}

/// Argument boundaries are part of what the command hash covers: two
/// different argvs get one command hash only if SHA-256 collides.
pub proof fn lemma_command_hash_keeps_boundaries(a: Seq<Seq<char>>, b: Seq<Seq<char>>)
    requires
        a != b,
    ensures
        command_hash_text(a) == command_hash_text(b) ==> sha256_collides(
            encode_utf8(sel_tag() + string_array_text(a)),
            encode_utf8(sel_tag() + string_array_text(b)),
        ),
{
    if string_array_text(a) == string_array_text(b) {
        lemma_string_array_text_injective(a, b);
    }
    lemma_versioned_hash_distinguishes(string_array_text(a), string_array_text(b));
}

/// A lower-case hex digit.
pub open spec fn is_lower_hex(c: char) -> bool {
    ('0' <= c && c <= '9') || ('a' <= c && c <= 'f')
}

/// The hyphenated lower-case text of a version 4 (random) UUID:
/// `xxxxxxxx-xxxx-4xxx-Yxxx-xxxxxxxxxxxx`, where `Y` is `8`, `9`, `a` or `b`.
pub open spec fn is_uuid_v4_text(s: Seq<char>) -> bool {
    &&& s.len() == 36
    &&& forall|i: int|
        0 <= i < 36 ==> if i == 8 || i == 13 || i == 18 || i == 23 {
            s[i] == '-'
        } else {
            is_lower_hex(#[trigger] s[i])
        }
    &&& s[14] == '4'
    &&& (s[19] == '8' || s[19] == '9' || s[19] == 'a' || s[19] == 'b')
}

/// A fresh random (version 4) UUID in its hyphenated form (`uuid::Uuid::new_v4`,
/// written by its `Display`, which is lower-case hex). The value depends on
/// chance; every outcome has the version 4 and RFC 4122 variant digits.
#[verifier::external_body]
fn new_uuid_v4() -> (res: String)
    ensures
        is_uuid_v4_text(res@),
{
    uuid::Uuid::new_v4().to_string()
}

/// JSON text of compliance hints (members in key order).
pub open spec fn hints_text(h: ComplianceHints) -> Seq<char> {
    object_text(
        seq![
            ("change_management"@, bool_text(h.change_management)),
            ("soc2_cc8"@, bool_text(h.soc2_cc8)),
        ],
    )
}

/// The compliance member names each claim by its own key, in key order:
/// `{"change_management":<bool>,"soc2_cc8":<bool>}`.
pub proof fn lemma_hints_text_names_each_claim(h: ComplianceHints)
    ensures
        hints_text(h) == "{\"change_management\":"@ + (if h.change_management {
            "true"@
        } else {
            "false"@
        }) + ",\"soc2_cc8\":"@ + (if h.soc2_cc8 {
            "true"@
        } else {
            "false"@
        }) + "}"@,
{
    reveal_strlit("change_management");
    reveal_strlit("soc2_cc8");
    reveal_strlit("true");
    reveal_strlit("false");
    reveal_strlit("{\"change_management\":");
    reveal_strlit(",\"soc2_cc8\":");
    reveal_strlit("}");
    let k0 = "change_management"@;
    let k1 = "soc2_cc8"@;
    assert forall|i: int| 0 <= i < k0.len() implies is_plain_char(#[trigger] k0[i]) by {}
    assert forall|i: int| 0 <= i < k1.len() implies is_plain_char(#[trigger] k1[i]) by {}
    lemma_escaped_plain(k0);
    lemma_escaped_plain(k1);
    let ms = seq![(k0, bool_text(h.change_management)), (k1, bool_text(h.soc2_cc8))];
    let ts = ms.map_values(|m: (Seq<char>, Seq<char>)| member_text(m));
    assert(ts.len() == 2);
    assert(ts[0] == member_text(ms[0]));
    assert(ts[1] == member_text(ms[1]));
    assert(ts.drop_last() =~= seq![member_text(ms[0])]);
    assert(joined(ts.drop_last(), seq![',']) == member_text(ms[0]));
    assert(ts.last() == member_text(ms[1]));
    assert(joined(ts, seq![',']) == member_text(ms[0]) + seq![','] + member_text(ms[1]));
    let v0 = bool_text(h.change_management);
    let v1 = bool_text(h.soc2_cc8);
    assert(hints_text(h) =~= "{\"change_management\":"@ + v0 + ",\"soc2_cc8\":"@ + v1 + "}"@);
}

/// JSON text of signer information.
pub open spec fn signer_text(s: SignerInfo) -> Seq<char> {
    object_text(seq![("key_id"@, json_string_text(s.key_id@))])
}

/// Members of the v0.2 signed payload, in key order.
pub open spec fn v02_members(a: DeploymentAttestation) -> Seq<(Seq<char>, Seq<char>)> {
    seq![
        ("actor"@, opt_string_text(opt_chars(a.actor))),
        ("command"@, string_array_text(a.command.deep_view())),
        ("command_hash"@, json_string_text(a.command_hash@)),
        ("compliance_hints"@, hints_text(a.compliance_hints)),
        ("cwd"@, opt_string_text(opt_chars(a.cwd))),
        ("duration_ms"@, opt_u64_text(a.duration_ms)),
        ("environment"@, opt_string_text(opt_chars(a.environment))),
        ("exit_code"@, int_text(a.exit_code as int)),
        ("git_commit"@, opt_string_text(opt_chars(a.git_commit))),
        ("hostname"@, opt_string_text(opt_chars(a.hostname))),
        ("id"@, json_string_text(a.id@)),
        ("previous_hash"@, opt_string_text(opt_chars(a.previous_hash))),
        ("signer"@, signer_text(a.signer)),
        ("timestamp"@, json_string_text(a.timestamp.spec_document_text())),
        ("version"@, json_string_text(a.version@)),
    ]
}

/// Members of the v0.1 signed payload (the exact v0.1 field set), in key order.
pub open spec fn v01_members(a: DeploymentAttestation) -> Seq<(Seq<char>, Seq<char>)> {
    seq![
        ("command_hash"@, json_string_text(a.command_hash@)),
        ("compliance_hints"@, hints_text(a.compliance_hints)),
        ("environment"@, opt_string_text(opt_chars(a.environment))),
        ("exit_code"@, int_text(a.exit_code as int)),
        ("git_commit"@, opt_string_text(opt_chars(a.git_commit))),
        ("id"@, json_string_text(a.id@)),
        ("previous_hash"@, opt_string_text(opt_chars(a.previous_hash))),
        ("signer"@, signer_text(a.signer)),
        ("timestamp"@, json_string_text(a.timestamp.spec_document_text())),
        ("version"@, json_string_text(a.version@)),
    ]
}

/// The keys of `members` are in strictly ascending order, as canonical JSON
/// has them.
pub open spec fn keys_ascending(members: Seq<(Seq<char>, Seq<char>)>) -> bool {
    forall|i: int| 0 <= i && i + 1 < members.len() ==> text_lt(#[trigger] members[i].0, members[i + 1].0)
}

/// Both signed payloads are canonical JSON objects: the payload text is the
/// object of the version's members, and their keys are in strictly
/// ascending order (so documents written by either version hash the same
/// bytes that their writer hashed).
pub proof fn lemma_payload_keys_sorted(a: DeploymentAttestation)
    ensures
        keys_ascending(v01_members(a)),
        keys_ascending(v02_members(a)),
        payload_text(a) == object_text(if is_legacy(a) { v01_members(a) } else { v02_members(a) }),
{
    reveal_strlit("actor");
    reveal_strlit("command");
    reveal_strlit("command_hash");
    reveal_strlit("compliance_hints");
    reveal_strlit("cwd");
    reveal_strlit("duration_ms");
    reveal_strlit("environment");
    reveal_strlit("exit_code");
    reveal_strlit("git_commit");
    reveal_strlit("hostname");
    reveal_strlit("id");
    reveal_strlit("previous_hash");
    reveal_strlit("signer");
    reveal_strlit("timestamp");
    reveal_strlit("version");
    reveal_with_fuel(text_lt, 9);
    let m1 = v01_members(a);
    let m2 = v02_members(a);
    assert forall|i: int| 0 <= i && i + 1 < m1.len() implies text_lt(#[trigger] m1[i].0, m1[i + 1].0) by {
        if i == 0 {
            assert(text_lt("command_hash"@, "compliance_hints"@));
        } else if i == 1 {
            assert(text_lt("compliance_hints"@, "environment"@));
        } else if i == 2 {
            assert(text_lt("environment"@, "exit_code"@));
        } else if i == 3 {
            assert(text_lt("exit_code"@, "git_commit"@));
        } else if i == 4 {
            assert(text_lt("git_commit"@, "id"@));
        } else if i == 5 {
            assert(text_lt("id"@, "previous_hash"@));
        } else if i == 6 {
            assert(text_lt("previous_hash"@, "signer"@));
        } else if i == 7 {
            assert(text_lt("signer"@, "timestamp"@));
        } else {
            assert(text_lt("timestamp"@, "version"@));
        }
    }
    assert forall|i: int| 0 <= i && i + 1 < m2.len() implies text_lt(#[trigger] m2[i].0, m2[i + 1].0) by {
        if i == 0 {
            assert(text_lt("actor"@, "command"@));
        } else if i == 1 {
            assert(text_lt("command"@, "command_hash"@));
        } else if i == 2 {
            assert(text_lt("command_hash"@, "compliance_hints"@));
        } else if i == 3 {
            assert(text_lt("compliance_hints"@, "cwd"@));
        } else if i == 4 {
            assert(text_lt("cwd"@, "duration_ms"@));
        } else if i == 5 {
            assert(text_lt("duration_ms"@, "environment"@));
        } else if i == 6 {
            assert(text_lt("environment"@, "exit_code"@));
        } else if i == 7 {
            assert(text_lt("exit_code"@, "git_commit"@));
        } else if i == 8 {
            assert(text_lt("git_commit"@, "hostname"@));
        } else if i == 9 {
            assert(text_lt("hostname"@, "id"@));
        } else if i == 10 {
            assert(text_lt("id"@, "previous_hash"@));
        } else if i == 11 {
            assert(text_lt("previous_hash"@, "signer"@));
        } else if i == 12 {
            assert(text_lt("signer"@, "timestamp"@));
        } else {
            assert(text_lt("timestamp"@, "version"@));
        }
    }
}

/// A document written by sel-deploy 0.1.x (its version starts with `0.1`).
pub open spec fn is_legacy(a: DeploymentAttestation) -> bool {
    "0.1"@.is_prefix_of(a.version@)
}

/// Canonical JSON text of the signed payload; the field set depends on the version.
pub open spec fn payload_text(a: DeploymentAttestation) -> Seq<char> {
    if is_legacy(a) {
        object_text(v01_members(a))
    } else {
        object_text(v02_members(a))
    }
}

/// The attestation hash of a document. v0.2 documents use the versioned hash
/// of the payload text; v0.1 documents the plain digest of its bytes.
pub open spec fn attestation_hash_of(a: DeploymentAttestation) -> Seq<char> {
    if is_legacy(a) {
        digest_text(encode_utf8(payload_text(a)))
    } else {
        versioned_hash_text(payload_text(a))
    }
}

fn push_member(members: &mut Vec<(String, String)>, key: &str, value: String)
    ensures
        members_view(final(members)@) == members_view(old(members)@).push((key@, value@)),
{
    let ghost before = members@;
    members.push((literal(key), value));
    assert(members_view(members@) =~= members_view(before).push((key@, value@)));
}

fn hints_json(h: &ComplianceHints) -> (res: String)
    ensures
        res@ == hints_text(*h),
{
    let mut m: Vec<(String, String)> = Vec::new();
    push_member(&mut m, "change_management", bool_json(h.change_management));
    push_member(&mut m, "soc2_cc8", bool_json(h.soc2_cc8));
    assert(members_view(m@) =~= seq![
        ("change_management"@, bool_text(h.change_management)),
        ("soc2_cc8"@, bool_text(h.soc2_cc8)),
    ]);
    object_json(&m)
}

fn signer_json(s: &SignerInfo) -> (res: String)
    ensures
        res@ == signer_text(*s),
{
    let mut m: Vec<(String, String)> = Vec::new();
    push_member(&mut m, "key_id", json_quote(s.key_id.as_str()));
    assert(members_view(m@) =~= seq![("key_id"@, json_string_text(s.key_id@))]);
    object_json(&m)
}

impl DeploymentAttestation {
    /// A new unsigned v0.2 document for a deployment that ran `command`.
    /// Its id is a fresh random UUID and its timestamp the current time;
    /// the attestation hash and signature are left empty. Always succeeds.
    pub fn build(
        command: &[String],
        exit_code: i32,
        git_commit: Option<String>,
        environment: Option<String>,
        previous_hash: Option<String>,
        key_id: String,
        meta: AttestationMeta,
    ) -> (res: Result<Self, CanonicalError>)
        ensures
            res matches Ok(a) && a.built_from(
                command.deep_view(),
                exit_code,
                git_commit,
                environment,
                previous_hash,
                key_id,
                meta,
            ),
    {
        Ok(Self::fresh(command, exit_code, git_commit, environment, previous_hash, key_id, meta))
    }

    /// `self` is the unsigned v0.2 document `build` makes from these inputs
    /// (whatever id and timestamp it drew).
    pub open spec fn built_from(
        self,
        command: Seq<Seq<char>>,
        exit_code: i32,
        git_commit: Option<String>,
        environment: Option<String>,
        previous_hash: Option<String>,
        key_id: String,
        meta: AttestationMeta,
    ) -> bool {
        &&& self.content_from(
            command,
            exit_code,
            git_commit,
            environment,
            previous_hash,
            key_id,
            meta,
        )
        &&& self.attestation_hash@.len() == 0
        &&& self.signature@.len() == 0
    }

    /// `self` records these inputs, as `build` does, apart from its hash and
    /// signature (whatever id and timestamp it drew).
    pub open spec fn content_from(
        self,
        command: Seq<Seq<char>>,
        exit_code: i32,
        git_commit: Option<String>,
        environment: Option<String>,
        previous_hash: Option<String>,
        key_id: String,
        meta: AttestationMeta,
    ) -> bool {
        &&& self.version@ == ATTESTATION_VERSION@
        &&& is_uuid_v4_text(self.id@)
        &&& self.command.deep_view() == command
        &&& self.command_hash@ == command_hash_text(command)
        &&& self.git_commit == git_commit
        &&& self.exit_code == exit_code
        &&& self.environment == environment
        &&& self.cwd == meta.cwd
        &&& self.actor == meta.actor
        &&& self.hostname == meta.hostname
        &&& self.duration_ms == meta.duration_ms
        &&& self.previous_hash == previous_hash
        &&& self.signer.key_id == key_id
        &&& self.compliance_hints == meta.claims
    }

    pub(crate) fn fresh(
        command: &[String],
        exit_code: i32,
        git_commit: Option<String>,
        environment: Option<String>,
        previous_hash: Option<String>,
        key_id: String,
        meta: AttestationMeta,
    ) -> (a: Self)
        ensures
            a.built_from(
                command.deep_view(),
                exit_code,
                git_commit,
                environment,
                previous_hash,
                key_id,
                meta,
            ),
    {
        Self {
            version: literal(ATTESTATION_VERSION),
            id: new_uuid_v4(),
            timestamp: Timestamp::now(),
            command: clone_strings(command),
            command_hash: command_hash_string(command),
            git_commit,
            exit_code,
            environment,
            cwd: meta.cwd,
            actor: meta.actor,
            hostname: meta.hostname,
            duration_ms: meta.duration_ms,
            previous_hash,
            attestation_hash: String::new(),
            signature: String::new(),
            signer: SignerInfo { key_id },
            compliance_hints: meta.claims,
        }
    }

    /// `build` with no host metadata and no claims.
    pub fn build_simple(
        command: &[String],
        exit_code: i32,
        git_commit: Option<String>,
        environment: Option<String>,
        previous_hash: Option<String>,
        key_id: String,
    ) -> (a: Self)
        ensures
            a.built_from(
                command.deep_view(),
                exit_code,
                git_commit,
                environment,
                previous_hash,
                key_id,
                AttestationMeta {
                    cwd: None,
                    actor: None,
                    hostname: None,
                    duration_ms: None,
                    claims: ComplianceHints { soc2_cc8: false, change_management: false },
                },
            ),
    {
        Self::fresh(
            command,
            exit_code,
            git_commit,
            environment,
            previous_hash,
            key_id,
            AttestationMeta::default(),
        )
    }

    /// Whether this document was written by sel-deploy 0.1.x.
    pub fn is_legacy_v01(&self) -> (res: bool)
        ensures
            res == is_legacy(*self),
    {
        proof {
            reveal_strlit("0.1");
        }
        starts_with(self.version.as_str(), ATTESTATION_VERSION_V01)
    }

    fn v02_payload_text(&self) -> (res: String)
        ensures
            res@ == object_text(v02_members(*self)),
    {
        let mut m: Vec<(String, String)> = Vec::new();
        push_member(&mut m, "actor", opt_string_json(&self.actor));
        push_member(&mut m, "command", string_array_json(self.command.as_slice()));
        push_member(&mut m, "command_hash", json_quote(self.command_hash.as_str()));
        push_member(&mut m, "compliance_hints", hints_json(&self.compliance_hints));
        push_member(&mut m, "cwd", opt_string_json(&self.cwd));
        push_member(&mut m, "duration_ms", opt_u64_json(self.duration_ms));
        push_member(&mut m, "environment", opt_string_json(&self.environment));
        push_member(&mut m, "exit_code", json_integer(self.exit_code as i128));
        push_member(&mut m, "git_commit", opt_string_json(&self.git_commit));
        push_member(&mut m, "hostname", opt_string_json(&self.hostname));
        push_member(&mut m, "id", json_quote(self.id.as_str()));
        push_member(&mut m, "previous_hash", opt_string_json(&self.previous_hash));
        push_member(&mut m, "signer", signer_json(&self.signer));
        let ts = self.timestamp.document_text();
        push_member(&mut m, "timestamp", json_quote(ts.as_str()));
        push_member(&mut m, "version", json_quote(self.version.as_str()));
        assert(members_view(m@) =~= v02_members(*self));
        object_json(&m)
    }

    fn v01_payload_text(&self) -> (res: String)
        ensures
            res@ == object_text(v01_members(*self)),
    {
        let mut m: Vec<(String, String)> = Vec::new();
        push_member(&mut m, "command_hash", json_quote(self.command_hash.as_str()));
        push_member(&mut m, "compliance_hints", hints_json(&self.compliance_hints));
        push_member(&mut m, "environment", opt_string_json(&self.environment));
        push_member(&mut m, "exit_code", json_integer(self.exit_code as i128));
        push_member(&mut m, "git_commit", opt_string_json(&self.git_commit));
        push_member(&mut m, "id", json_quote(self.id.as_str()));
        push_member(&mut m, "previous_hash", opt_string_json(&self.previous_hash));
        push_member(&mut m, "signer", signer_json(&self.signer));
        let ts = self.timestamp.document_text();
        push_member(&mut m, "timestamp", json_quote(ts.as_str()));
        push_member(&mut m, "version", json_quote(self.version.as_str()));
        assert(members_view(m@) =~= v01_members(*self));
        object_json(&m)
    }

    /// Canonical payload text; the field set depends on the document version.
    pub fn canonical_payload_text(&self) -> (res: String)
        ensures
            res@ == payload_text(*self),
    {
        if self.is_legacy_v01() {
            self.v01_payload_text()
        } else {
            self.v02_payload_text()
        }
    }

    /// Bytes that were signed: the UTF-8 bytes of the canonical payload text.
    /// Always succeeds.
    pub fn canonical_payload(&self) -> (res: Result<Vec<u8>, CanonicalError>)
        ensures
            res matches Ok(b) && b@ == encode_utf8(payload_text(*self)),
    {
        Ok(self.payload_bytes())
    }

    /// The UTF-8 bytes of the canonical payload text.
    pub fn payload_bytes(&self) -> (res: Vec<u8>)
        ensures
            res@ == encode_utf8(payload_text(*self)),
    {
        let text = self.canonical_payload_text();
        slice_to_vec(text.as_str().as_bytes())
    }

    /// Recompute the attestation hash from the signed payload. Always succeeds.
    pub fn compute_hash(&self) -> (res: Result<String, CanonicalError>)
        ensures
            res matches Ok(h) && h@ == attestation_hash_of(*self) && h@.len() == 80,
    {
        Ok(self.recomputed_hash())
    }

    /// The attestation hash recomputed from the signed payload.
    pub fn recomputed_hash(&self) -> (res: String)
        ensures
            res@ == attestation_hash_of(*self),
            res@.len() == 80,
    {
        let text = self.canonical_payload_text();
        if self.is_legacy_v01() {
            digest_hash(text.as_str().as_bytes())
        } else {
            versioned_hash(text.as_str())
        }
    }
}

} // verus!
