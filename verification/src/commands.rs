//! Decisions of the command-line front end: claims, exit codes, key files,
//! the attestation of a deployment, the verification of a store, and the
//! timeline window.
use vstd::prelude::*;
use crate::attestation::chain::{
    audit_chain, chain_report, properly_linked, report_is_clean, ChainBuilder, ChainReport,
};
use crate::attestation::model::{
    AttestationMeta, ComplianceHints, DeploymentAttestation,
};
use crate::attestation::signer::{ed25519_public_of, sealed_with, signer_key_valid, AttestationSigner};
use crate::attestation::verify::{
    keys_outcome, lemma_sealed_attestation_verifies_with_keys, verifies_with_keys,
    verify_attestation_with_keys,
};
use crate::attestation::chain::lemma_clean_iff_properly_linked;
use crate::canonical::literal;
use crate::cli::{ExportArgs, KeygenArgs, RunArgs};
use crate::error::{ClaimError, KeyError, TimelineError, VerifyError};
use crate::text::{ascii_lower, ascii_lowercase, chars_of, ends_with, ends_with_text, occurs, occurs_in, opt_chars, push_str, string_of};
use crate::timestamp::{naive_parsed, rfc3339_parsed, shifted_by_minutes, Timestamp};

verus! {

/// A name of the SOC 2 CC8 claim.
pub open spec fn is_soc2_alias(s: Seq<char>) -> bool {
    s == "soc2_cc8"@ || s == "soc2-cc8"@ || s == "soc2"@
}

/// A name of the change-management claim.
pub open spec fn is_change_management_alias(s: Seq<char>) -> bool {
    s == "change_management"@ || s == "change-management"@ || s == "cm"@
}

/// What `parse_claims` gives: all claims false, each named one set, or the
/// first unknown name (lower-cased).
pub open spec fn claims_parsed(raw: Seq<Seq<char>>) -> Result<ComplianceHints, Seq<char>>
    decreases raw.len(),
{
    if raw.len() == 0 {
        Ok(ComplianceHints { soc2_cc8: false, change_management: false })
    } else {
        match claims_parsed(raw.drop_last()) {
            Err(e) => Err(e),
            Ok(h) => {
                let l = ascii_lower(raw.last());
                if is_soc2_alias(l) {
                    Ok(ComplianceHints { soc2_cc8: true, ..h })
                } else if is_change_management_alias(l) {
                    Ok(ComplianceHints { change_management: true, ..h })
                } else {
                    Err(l)
                }
            },
        }
    }
}

proof fn lemma_claims_error_persists(raw: Seq<Seq<char>>, k: int)
    requires
        0 <= k <= raw.len(),
        claims_parsed(raw.take(k)) is Err,
    ensures
        claims_parsed(raw) == claims_parsed(raw.take(k)),
    decreases raw.len() - k,
{
    if k < raw.len() {
        assert(raw.take(k + 1).drop_last() =~= raw.take(k));
        lemma_claims_error_persists(raw, k + 1);
    } else {
        assert(raw.take(k) =~= raw);
    }
}

/// Read explicit `--claim` values. Claims are never inferred: every claim is
/// false unless one of its names is given (in any letter case).
pub fn parse_claims(raw: &[String]) -> (res: Result<ComplianceHints, ClaimError>)
    ensures
        match res {
            Ok(h) => claims_parsed(raw.deep_view()) == Ok::<ComplianceHints, Seq<char>>(h),
            Err(ClaimError::Unknown(name)) => claims_parsed(raw.deep_view()) == Err::<
                ComplianceHints,
                Seq<char>,
            >(name@),
        },
{
    let mut hints = ComplianceHints { soc2_cc8: false, change_management: false };
    let ghost dv = raw.deep_view();
    let mut i: usize = 0;
    while i < raw.len()
        invariant
            i <= raw.len(),
            dv == raw.deep_view(),
            dv.len() == raw.len(),
            claims_parsed(dv.take(i as int)) == Ok::<ComplianceHints, Seq<char>>(hints),
        decreases raw.len() - i,
    {
        assert(dv.take(i + 1).drop_last() =~= dv.take(i as int));
        assert(dv.take(i + 1).last() == raw[i as int]@);
        let l = ascii_lowercase(raw[i].as_str());
        if l == literal("soc2_cc8") || l == literal("soc2-cc8") || l == literal("soc2") {
            hints.soc2_cc8 = true;
        } else if l == literal("change_management") || l == literal("change-management") || l
            == literal("cm") {
            hints.change_management = true;
        } else {
            proof {
                lemma_claims_error_persists(dv, i + 1);
            }
            return Err(ClaimError::Unknown(l));
        }
        i = i + 1;
    }
    assert(dv.take(raw.len() as int) =~= dv);
    Ok(hints)
}

/// A claim holds after parsing exactly when one of its names was given.
pub proof fn lemma_claims_opt_in(raw: Seq<Seq<char>>)
    requires
        claims_parsed(raw) is Ok,
    ensures
        claims_parsed(raw)->Ok_0.soc2_cc8 <==> exists|i: int|
            0 <= i < raw.len() && is_soc2_alias(ascii_lower(#[trigger] raw[i])),
        claims_parsed(raw)->Ok_0.change_management <==> exists|i: int|
            0 <= i < raw.len() && is_change_management_alias(ascii_lower(#[trigger] raw[i])),
    decreases raw.len(),
{
    reveal_strlit("soc2_cc8");
    reveal_strlit("soc2-cc8");
    reveal_strlit("soc2");
    reveal_strlit("change_management");
    reveal_strlit("change-management");
    reveal_strlit("cm");
    if raw.len() > 0 {
        let p = raw.drop_last();
        lemma_claims_opt_in(p);
        assert forall|i: int| 0 <= i < p.len() implies #[trigger] raw[i] == p[i] by {}
        let l = ascii_lower(raw.last());
        assert(!(is_soc2_alias(l) && is_change_management_alias(l))) by {
            assert("soc2_cc8"@.len() == 8);
            assert("soc2-cc8"@.len() == 8);
            assert("soc2"@.len() == 4);
            assert("change_management"@.len() == 17);
            assert("change-management"@.len() == 17);
            assert("cm"@.len() == 2);
        }
        if is_soc2_alias(l) {
            assert(raw[raw.len() - 1] == raw.last());
        }
        if is_change_management_alias(l) {
            assert(raw[raw.len() - 1] == raw.last());
        }
        if exists|i: int| 0 <= i < raw.len() && is_soc2_alias(ascii_lower(#[trigger] raw[i])) {
            let i = choose|i: int| 0 <= i < raw.len() && is_soc2_alias(ascii_lower(#[trigger] raw[i]));
            if i < raw.len() - 1 {
                assert(raw[i] == p[i]);
            }
        }
        if exists|i: int|
            0 <= i < raw.len() && is_change_management_alias(ascii_lower(#[trigger] raw[i])) {
            let i = choose|i: int|
                0 <= i < raw.len() && is_change_management_alias(ascii_lower(#[trigger] raw[i]));
            if i < raw.len() - 1 {
                assert(raw[i] == p[i]);
            }
        }
    }
}

/// Every documented claim name is accepted, in any ASCII letter case: a list
/// of `--claim` values each of which is `soc2_cc8`, `soc2-cc8`, `soc2`,
/// `change_management`, `change-management` or `cm` parses, and a claim is
/// set exactly when one of its own names was given.
pub proof fn lemma_documented_claims_accepted(raw: Seq<Seq<char>>)
    requires
        forall|i: int|
            0 <= i < raw.len() ==> {
                let l = ascii_lower(#[trigger] raw[i]);
                ||| l == "soc2_cc8"@
                ||| l == "soc2-cc8"@
                ||| l == "soc2"@
                ||| l == "change_management"@
                ||| l == "change-management"@
                ||| l == "cm"@
            },
    ensures
        claims_parsed(raw) is Ok,
        claims_parsed(raw)->Ok_0.soc2_cc8 <==> exists|i: int|
            0 <= i < raw.len() && {
                let l = ascii_lower(#[trigger] raw[i]);
                l == "soc2_cc8"@ || l == "soc2-cc8"@ || l == "soc2"@
            },
        claims_parsed(raw)->Ok_0.change_management <==> exists|i: int|
            0 <= i < raw.len() && {
                let l = ascii_lower(#[trigger] raw[i]);
                l == "change_management"@ || l == "change-management"@ || l == "cm"@
            },
    decreases raw.len(),
{
    reveal_strlit("soc2_cc8");
    reveal_strlit("soc2-cc8");
    reveal_strlit("soc2");
    reveal_strlit("change_management");
    reveal_strlit("change-management");
    reveal_strlit("cm");
    if raw.len() > 0 {
        let p = raw.drop_last();
        assert forall|i: int| 0 <= i < p.len() implies #[trigger] p[i] == raw[i] by {}
        lemma_documented_claims_accepted(p);
        let l = ascii_lower(raw.last());
        assert(raw[raw.len() - 1] == raw.last());
        let soc = l == "soc2_cc8"@ || l == "soc2-cc8"@ || l == "soc2"@;
        let cm = l == "change_management"@ || l == "change-management"@ || l == "cm"@;
        assert(!(soc && cm)) by {
            assert("soc2_cc8"@.len() == 8);
            assert("soc2-cc8"@.len() == 8);
            assert("soc2"@.len() == 4);
            assert("change_management"@.len() == 17);
            assert("change-management"@.len() == 17);
            assert("cm"@.len() == 2);
        }
        if exists|i: int|
            0 <= i < raw.len() && {
                let l = ascii_lower(#[trigger] raw[i]);
                l == "soc2_cc8"@ || l == "soc2-cc8"@ || l == "soc2"@
            } {
            let i = choose|i: int|
                0 <= i < raw.len() && {
                    let l = ascii_lower(#[trigger] raw[i]);
                    l == "soc2_cc8"@ || l == "soc2-cc8"@ || l == "soc2"@
                };
            if i < raw.len() - 1 {
                assert(raw[i] == p[i]);
            }
        }
        if exists|i: int|
            0 <= i < raw.len() && {
                let l = ascii_lower(#[trigger] raw[i]);
                l == "change_management"@ || l == "change-management"@ || l == "cm"@
            } {
            let i = choose|i: int|
                0 <= i < raw.len() && {
                    let l = ascii_lower(#[trigger] raw[i]);
                    l == "change_management"@ || l == "change-management"@ || l == "cm"@
                };
            if i < raw.len() - 1 {
                assert(raw[i] == p[i]);
            }
        }
    }
}

/// Exit status of `run`: the wrapped command's status, `1` when it had none
/// (killed by a signal), or `0` when failures are ignored.
pub open spec fn run_exit_status(ignore_fail: bool, exit_code: i32) -> i32 {
    if ignore_fail {
        0
    } else if exit_code < 0 {
        1
    } else {
        exit_code
    }
}

/// Exit status of `run` for its arguments and the wrapped command's status.
pub fn run_exit_code(args: &RunArgs, exit_code: i32) -> (res: i32)
    ensures
        res == run_exit_status(args.ignore_fail, exit_code),
{
    if args.ignore_fail {
        0
    } else if exit_code < 0 {
        1
    } else {
        exit_code
    }
}

/// Unless failures are ignored, `run` succeeds exactly when the wrapped
/// command did, so a failed deploy fails the CI step.
pub proof fn lemma_run_propagates_failure(exit_code: i32)
    ensures
        (run_exit_status(false, exit_code) == 0) <==> (exit_code == 0),
        run_exit_status(true, exit_code) == 0,
{
}

/// Exit status of `export` for its requested format: `None` to go on (JSON),
/// `Some(2)` (a usage error) for any other format.
pub fn export_format_status(args: &ExportArgs) -> (res: Option<i32>)
    ensures
        res == (if args.format@ == "json"@ {
            None::<i32>
        } else {
            Some(2i32)
        }),
{
    if literal(args.format.as_str()) == literal("json") {
        None
    } else {
        Some(2)
    }
}

/// `keygen` refuses (exit status `1`) when a private key exists and `--force`
/// was not given.
pub fn keygen_refuses(args: &KeygenArgs, private_key_exists: bool) -> (res: bool)
    ensures
        res == (private_key_exists && !args.force),
{
    private_key_exists && !args.force
}

/// Exit status of `keygen` before it writes anything: `Some(1)` (a hard
/// failure) when a private key exists and `--force` was not given, else
/// `None` to go on.
pub fn keygen_refusal_status(args: &KeygenArgs, private_key_exists: bool) -> (res: Option<i32>)
    ensures
        res == (if private_key_exists && !args.force {
            Some(1i32)
        } else {
            None::<i32>
        }),
{
    if keygen_refuses(args, private_key_exists) {
        Some(1)
    } else {
        None
    }
}

/// The archived keys that could be read, in order; the others are skipped.
pub open spec fn usable_keys(archived: Seq<Result<(String, Vec<u8>), KeyError>>) -> Seq<
    (String, Vec<u8>),
>
    decreases archived.len(),
{
    if archived.len() == 0 {
        Seq::empty()
    } else {
        let rest = usable_keys(archived.drop_last());
        match archived.last() {
            Ok(k) => rest.push(k),
            Err(_) => rest,
        }
    }
}

/// The keys `verify` loads: the default public key first (when there is one;
/// an unreadable default key is an error), then every readable archived key.
pub open spec fn selected_keys(
    default: Option<Result<(String, Vec<u8>), KeyError>>,
    archived: Seq<Result<(String, Vec<u8>), KeyError>>,
) -> Result<Seq<(String, Vec<u8>)>, KeyError> {
    match default {
        Some(Err(e)) => Err(e),
        Some(Ok(k)) => Ok(seq![k] + usable_keys(archived)),
        None => Ok(usable_keys(archived)),
    }
}

/// The key list for `verify` from the default public key file (`None` when
/// there is none) and the archived key files, each as read.
pub fn select_public_keys(
    default: Option<Result<(String, Vec<u8>), KeyError>>,
    archived: Vec<Result<(String, Vec<u8>), KeyError>>,
) -> (res: Result<Vec<(String, Vec<u8>)>, KeyError>)
    ensures
        match res {
            Ok(v) => selected_keys(default, archived@) == Ok::<Seq<(String, Vec<u8>)>, KeyError>(v@),
            Err(e) => selected_keys(default, archived@) == Err::<Seq<(String, Vec<u8>)>, KeyError>(e),
        },
{
    let ghost all = archived@;
    let ghost d = default;
    let mut out: Vec<(String, Vec<u8>)> = Vec::new();
    match default {
        Some(Err(e)) => return Err(e),
        Some(Ok(k)) => out.push(k),
        None => {},
    }
    let ghost base = out@;
    let mut rest = archived;
    let ghost mut i: int = 0;
    assert(all.skip(0) =~= all);
    assert(all.take(0) =~= Seq::<Result<(String, Vec<u8>), KeyError>>::empty());
    assert(base + usable_keys(all.take(0)) =~= base);
    while rest.len() > 0
        invariant
            0 <= i <= all.len(),
            rest@ == all.skip(i),
            out@ == base + usable_keys(all.take(i)),
        decreases rest@.len(),
    {
        let ghost before = out@;
        let r = rest.remove(0);
        assert(r == all[i]);
        assert(all.take(i + 1).drop_last() =~= all.take(i));
        assert(all.take(i + 1).last() == all[i]);
        match r {
            Ok(k) => {
                out.push(k);
                assert(out@ =~= base + usable_keys(all.take(i + 1)));
            },
            Err(_) => {},
        }
        assert(rest@ =~= all.skip(i + 1));
        proof {
            i = i + 1;
        }
    }
    assert(all.skip(i).len() == 0);
    assert(all.take(i) =~= all);
    proof {
        match d {
            Some(Ok(k)) => assert(base =~= seq![k]),
            _ => assert(base =~= Seq::<(String, Vec<u8>)>::empty()),
        }
    }
    Ok(out)
}

/// `keygen --force` archives the current public key, when there is one,
/// before writing the new pair.
pub fn keygen_archives_previous(args: &KeygenArgs, public_key_exists: bool) -> (res: bool)
    ensures
        res == (args.force && public_key_exists),
{
    args.force && public_key_exists
}

/// A directory entry of the key archive is read as a public key when its name
/// ends with `.pub`.
pub fn is_public_key_file_name(name: &str) -> (res: bool)
    ensures
        res == ends_with_text(name@, ".pub"@),
{
    ends_with(name, ".pub")
}

/// File name under which a rotated-out public key is archived: `{key_id}.pub`.
pub fn archived_key_file_name(key_id: &str) -> (res: String)
    ensures
        res@ == key_id@ + ".pub"@,
{
    let mut s = literal(key_id);
    push_str(&mut s, ".pub");
    s
}

/// The new, sealed attestation of a deployment, chained to the last document
/// of `existing` (already sorted), or a genesis document when there is none.
pub fn attest_deployment(
    existing: &[DeploymentAttestation],
    signer: &AttestationSigner,
    command: &[String],
    exit_code: i32,
    git_commit: Option<String>,
    environment: Option<String>,
    meta: AttestationMeta,
) -> (res: DeploymentAttestation)
    ensures
        res.content_from(
            command.deep_view(),
            exit_code,
            git_commit,
            environment,
            res.previous_hash,
            res.signer.key_id,
            meta,
        ),
        opt_chars(res.previous_hash) == (if existing@.len() == 0 {
            None::<Seq<char>>
        } else {
            Some(existing@.last().attestation_hash@)
        }),
        res.signer.key_id@ == crate::attestation::signer::key_id_text(signer.spec_public()),
        sealed_with(res, signer.spec_seed()),
        signer_key_valid(signer.spec_seed()),
{
    let chain = if existing.len() == 0 {
        ChainBuilder::new()
    } else {
        ChainBuilder::with_tip(existing[existing.len() - 1].attestation_hash.clone())
    };
    let mut a = DeploymentAttestation::fresh(
        command,
        exit_code,
        git_commit,
        environment,
        chain.previous_hash(),
        signer.key_id(),
        meta,
    );
    signer.seal(&mut a);
    a
}

/// Appending a newly attested deployment to a properly linked chain, as
/// `attest_deployment` chains it, keeps the chain properly linked.
pub proof fn lemma_attested_extends_chain(
    existing: Seq<DeploymentAttestation>,
    new_one: DeploymentAttestation,
)
    requires
        properly_linked(existing),
        opt_chars(new_one.previous_hash) == (if existing.len() == 0 {
            None::<Seq<char>>
        } else {
            Some(existing.last().attestation_hash@)
        }),
    ensures
        properly_linked(existing.push(new_one)),
{
    let s = existing.push(new_one);
    if existing.len() == 0 {
        assert(s[0] == new_one);
        assert(new_one.previous_hash is None);
    } else {
        assert(s[0] == existing[0]);
        assert forall|i: int| 1 <= i < s.len() implies opt_chars((#[trigger] s[i]).previous_hash)
            == Some(s[i - 1].attestation_hash@) by {
            if i < existing.len() {
                assert(s[i] == existing[i]);
                assert(s[i - 1] == existing[i - 1]);
                assert(opt_chars(existing[i].previous_hash) == Some(existing[i - 1].attestation_hash@));
            } else {
                assert(s[i] == new_one);
                assert(s[i - 1] == existing.last());
            }
        }
    }
}


/// A store that verifies stays verifying when a deployment is attested onto
/// it: the new document, sealed with a key that the key list holds (and that
/// every entry carrying its key id holds), verifies, and the chain stays
/// properly linked.
pub proof fn lemma_attesting_keeps_store_verifying(
    existing: Seq<DeploymentAttestation>,
    new_one: DeploymentAttestation,
    seed: Seq<u8>,
    keys: Seq<(String, Vec<u8>)>,
)
    requires
        forall|i: int| 0 <= i < existing.len() ==> verifies_with_keys(#[trigger] existing[i], keys),
        properly_linked(existing),
        opt_chars(new_one.previous_hash) == (if existing.len() == 0 {
            None::<Seq<char>>
        } else {
            Some(existing.last().attestation_hash@)
        }),
        signer_key_valid(seed),
        sealed_with(new_one, seed),
        exists|j: int| 0 <= j < keys.len() && (#[trigger] keys[j]).1@ == ed25519_public_of(seed),
        forall|j: int|
            0 <= j < keys.len() && (#[trigger] keys[j]).0@ == new_one.signer.key_id@ ==> keys[j].1@
                == ed25519_public_of(seed),
    ensures
        forall|i: int|
            0 <= i < existing.len() + 1 ==> verifies_with_keys(
                #[trigger] existing.push(new_one)[i],
                keys,
            ),
        properly_linked(existing.push(new_one)),
{
    lemma_attested_extends_chain(existing, new_one);
    lemma_sealed_attestation_verifies_with_keys(new_one, seed, keys);
    let all = existing.push(new_one);
    assert forall|i: int| 0 <= i < existing.len() + 1 implies verifies_with_keys(
        #[trigger] all[i],
        keys,
    ) by {
        if i < existing.len() {
            assert(all[i] == existing[i]);
        } else {
            assert(all[i] == new_one);
        }
    }
}

/// Indices below `k` of the documents that do not verify with `keys`, in order.
pub open spec fn failing_indices(
    all: Seq<DeploymentAttestation>,
    keys: Seq<(String, Vec<u8>)>,
    k: int,
) -> Seq<usize>
    decreases k,
{
    if k <= 0 {
        Seq::empty()
    } else if verifies_with_keys(all[k - 1], keys) {
        failing_indices(all, keys, k - 1)
    } else {
        failing_indices(all, keys, k - 1).push((k - 1) as usize)
    }
}

/// The outcome of verifying a whole store.
pub struct StoreVerification {
    /// Each document that failed (by index) and why, in order.
    pub invalid: Vec<(usize, VerifyError)>,
    /// The audit of the chain.
    pub report: ChainReport,
}

/// The store passes: no document failed and the chain is clean.
pub open spec fn store_passes(v: StoreVerification) -> bool {
    v.invalid@.len() == 0 && report_is_clean(v.report@)
}

impl StoreVerification {
    /// Exit status of `verify`: `0` when the store passes, `1` otherwise.
    pub fn exit_code(&self) -> (res: i32)
        ensures
            res == (if store_passes(*self) { 0i32 } else { 1i32 }),
    {
        if self.invalid.len() == 0 && self.report.is_clean() {
            0
        } else {
            1
        }
    }
}

/// Verify every document of a sorted store against the loaded keys and audit
/// the chain they form.
pub fn verify_store(all: &[DeploymentAttestation], keys: &[(String, Vec<u8>)]) -> (res:
    StoreVerification)
    ensures
        res.invalid@.map_values(|p: (usize, VerifyError)| p.0) == failing_indices(
            all@,
            keys@,
            all@.len() as int,
        ),
        forall|j: int|
            0 <= j < res.invalid@.len() ==> {
                let (i, e) = #[trigger] res.invalid@[j];
                i < all@.len() && keys_outcome(Err(e), all@[i as int], keys@)
            },
        res.report@ == chain_report(all@),
{
    let mut invalid: Vec<(usize, VerifyError)> = Vec::new();
    let mut i: usize = 0;
    while i < all.len()
        invariant
            i <= all.len(),
            invalid@.map_values(|p: (usize, VerifyError)| p.0) == failing_indices(
                all@,
                keys@,
                i as int,
            ),
            forall|j: int|
                0 <= j < invalid@.len() ==> {
                    let (k, e) = #[trigger] invalid@[j];
                    k < all@.len() && keys_outcome(Err(e), all@[k as int], keys@)
                },
        decreases all.len() - i,
    {
        let ghost before = invalid@;
        match verify_attestation_with_keys(&all[i], keys) {
            Ok(()) => {},
            Err(e) => {
                invalid.push((i, e));
                assert(invalid@.map_values(|p: (usize, VerifyError)| p.0) =~= before.map_values(
                    |p: (usize, VerifyError)| p.0,
                ).push(i));
            },
        }
        i = i + 1;
    }
    StoreVerification { invalid, report: audit_chain(all) }
}

proof fn lemma_failing_indices_empty(
    all: Seq<DeploymentAttestation>,
    keys: Seq<(String, Vec<u8>)>,
    k: int,
)
    requires
        0 <= k <= all.len(),
    ensures
        failing_indices(all, keys, k).len() == 0 <==> forall|i: int|
            0 <= i < k ==> verifies_with_keys(#[trigger] all[i], keys),
    decreases k,
{
    if k > 0 {
        lemma_failing_indices_empty(all, keys, k - 1);
    }
}

/// `verify` passes exactly when every document verifies with the loaded keys
/// and the documents form a properly linked chain.
pub proof fn lemma_store_passes_iff(
    all: Seq<DeploymentAttestation>,
    keys: Seq<(String, Vec<u8>)>,
    v: StoreVerification,
)
    requires
        v.invalid@.map_values(|p: (usize, VerifyError)| p.0) == failing_indices(
            all,
            keys,
            all.len() as int,
        ),
        v.report@ == chain_report(all),
    ensures
        store_passes(v) <==> (forall|i: int|
            0 <= i < all.len() ==> verifies_with_keys(#[trigger] all[i], keys)) && properly_linked(
            all,
        ),
{
    lemma_failing_indices_empty(all, keys, all.len() as int);
    lemma_clean_iff_properly_linked(all);
    assert(v.invalid@.len() == v.invalid@.map_values(|p: (usize, VerifyError)| p.0).len());
}

/// The centre instant of a timeline query: RFC 3339 when the text has a `+`
/// or ends with `Z`, else `YYYY-MM-DDTHH:MM:SS` or `YYYY-MM-DD HH:MM:SS` in UTC.
pub open spec fn timeline_centre_parsed(raw: Seq<char>) -> Result<(i64, u32), TimelineError> {
    if occurs_in("+"@, raw) || ends_with_text(raw, "Z"@) {
        match rfc3339_parsed(raw) {
            Some(p) => Ok(p),
            None => Err(TimelineError::InvalidRfc3339),
        }
    } else {
        match naive_parsed(raw, "%Y-%m-%dT%H:%M:%S"@) {
            Some(p) => Ok(p),
            None => match naive_parsed(raw, "%Y-%m-%d %H:%M:%S"@) {
                Some(p) => Ok(p),
                None => Err(TimelineError::InvalidTimestamp),
            },
        }
    }
}

/// Read the centre instant of a timeline query.
pub fn timeline_centre(raw: &str) -> (res: Result<Timestamp, TimelineError>)
    ensures
        match res {
            Ok(t) => timeline_centre_parsed(raw@) == Ok::<(i64, u32), TimelineError>(
                (t.spec_secs(), t.spec_nanos()),
            ),
            Err(e) => timeline_centre_parsed(raw@) == Err::<(i64, u32), TimelineError>(e),
        },
{
    let cs = chars_of(raw);
    let plus = chars_of("+");
    if occurs(&plus, &cs) || ends_with(raw, "Z") {
        match Timestamp::parse_rfc3339(raw) {
            Some(t) => Ok(t),
            None => Err(TimelineError::InvalidRfc3339),
        }
    } else {
        match Timestamp::parse_naive_utc(raw, "%Y-%m-%dT%H:%M:%S") {
            Some(t) => Ok(t),
            None => match Timestamp::parse_naive_utc(raw, "%Y-%m-%d %H:%M:%S") {
                Some(t) => Ok(t),
                None => Err(TimelineError::InvalidTimestamp),
            },
        }
    }
}

/// The window `window` minutes either side of `centre`: `(start, end)`, or
/// `None` where chrono's `centre - TimeDelta::minutes(window)` or
/// `centre + TimeDelta::minutes(window)` would panic.
pub fn timeline_bounds(centre: &Timestamp, window: i64) -> (res: Option<(Timestamp, Timestamp)>)
    ensures
        match res {
            Some((start, end)) => {
                &&& shifted_by_minutes(centre.spec_secs(), centre.spec_nanos(), window, false) == Some(
                    (start.spec_secs(), start.spec_nanos()),
                )
                &&& shifted_by_minutes(centre.spec_secs(), centre.spec_nanos(), window, true) == Some(
                    (end.spec_secs(), end.spec_nanos()),
                )
            },
            None => shifted_by_minutes(centre.spec_secs(), centre.spec_nanos(), window, false) is None
                || shifted_by_minutes(centre.spec_secs(), centre.spec_nanos(), window, true) is None,
        },
{
    let start = match centre.shifted(window, false) {
        Some(t) => t,
        None => return None,
    };
    let end = match centre.shifted(window, true) {
        Some(t) => t,
        None => return None,
    };
    Some((start, end))
}

} // verus!
