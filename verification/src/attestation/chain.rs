//! The hash chain: building links and auditing a sorted set of documents.
use vstd::prelude::*;
use crate::attestation::model::DeploymentAttestation;
use crate::text::{clone_opt_string, opt_chars};

verus! {

/// Remembers the hash of the last document so the next one can link to it.
#[derive(Debug)]
pub struct ChainBuilder {
    last_hash: Option<String>,
}

impl View for ChainBuilder {
    type V = Option<Seq<char>>;

    closed spec fn view(&self) -> Option<Seq<char>> {
        opt_chars(self.last_hash)
    }
}

/// The tip of a chain builder after `advance(a)` from tip `tip`: the hash of `a`.
pub open spec fn advance_step(tip: Option<Seq<char>>, a: DeploymentAttestation) -> Option<Seq<char>> {
    Some(a.attestation_hash@)
}

/// The tip of a builder that started at `start` and was advanced past each
/// document of `advanced`, in order (`previous_hash` changes nothing).
pub open spec fn builder_tip(start: Option<Seq<char>>, advanced: Seq<DeploymentAttestation>) -> Option<
    Seq<char>,
>
    decreases advanced.len(),
{
    if advanced.len() == 0 {
        start
    } else {
        advance_step(builder_tip(start, advanced.drop_last()), advanced.last())
    }
}

/// After any number of advances, the builder's tip is the hash of the last
/// document it was advanced past, or where it started when there was none.
pub proof fn lemma_builder_tip(start: Option<Seq<char>>, advanced: Seq<DeploymentAttestation>)
    ensures
        builder_tip(start, advanced) == (if advanced.len() == 0 {
            start
        } else {
            Some(advanced.last().attestation_hash@)
        }),
{
}

impl Default for ChainBuilder {
    fn default() -> (res: Self)
        ensures
            res@ is None,
    {
        Self::new()
    }
}

impl ChainBuilder {
    /// A builder for a chain that has no document yet (the next one is genesis).
    pub fn new() -> (res: Self)
        ensures
            res@ is None,
    {
        Self { last_hash: None }
    }

    /// A builder whose tip is the document with hash `hash`.
    pub fn with_tip(hash: String) -> (res: Self)
        ensures
            res@ == Some(hash@),
    {
        Self { last_hash: Some(hash) }
    }

    /// The hash the next document must name as its predecessor.
    pub fn previous_hash(&self) -> (res: Option<String>)
        ensures
            opt_chars(res) == self@,
    {
        clone_opt_string(&self.last_hash)
    }

    /// Make `a` the tip of the chain.
    pub fn advance(&mut self, a: &DeploymentAttestation)
        ensures
            final(self)@ == advance_step(old(self)@, *a),
    {
        self.last_hash = Some(a.attestation_hash.clone());
    }
}

/// Result of auditing a chain of documents.
#[derive(Debug)]
pub struct ChainReport {
    pub broken_at: Option<String>,
    pub gaps_detected: usize,
    pub missing_predecessors: usize,
    pub total: usize,
}

/// The abstract content of a `ChainReport`.
pub struct ChainReportView {
    pub broken_at: Option<Seq<char>>,
    pub gaps_detected: nat,
    pub missing_predecessors: nat,
    pub total: nat,
}

impl View for ChainReport {
    type V = ChainReportView;

    open spec fn view(&self) -> ChainReportView {
        ChainReportView {
            broken_at: opt_chars(self.broken_at),
            gaps_detected: self.gaps_detected as nat,
            missing_predecessors: self.missing_predecessors as nat,
            total: self.total as nat,
        }
    }
}

/// A report says the chain is clean when nothing is broken, nothing is
/// missing and there is no gap.
pub open spec fn report_is_clean(r: ChainReportView) -> bool {
    r.broken_at is None && r.gaps_detected == 0 && r.missing_predecessors == 0
}

impl ChainReport {
    pub fn is_clean(&self) -> (res: bool)
        ensures
            res == report_is_clean(self@),
    {
        self.broken_at.is_none() && self.gaps_detected == 0 && self.missing_predecessors == 0
    }
}

/// Some document of `atts` has attestation hash `h`.
pub open spec fn hash_known(atts: Seq<DeploymentAttestation>, h: Seq<char>) -> bool {
    exists|j: int| 0 <= j < atts.len() && #[trigger] atts[j].attestation_hash@ == h
}

/// Document `i` (not the first) names a predecessor, and it is not document `i - 1`.
pub open spec fn link_broken(atts: Seq<DeploymentAttestation>, i: int) -> bool {
    match atts[i].previous_hash {
        Some(ph) => ph@ != atts[i - 1].attestation_hash@,
        None => false,
    }
}

/// The first `i` with `from <= i < atts.len()` whose link is broken.
pub open spec fn first_break_from(atts: Seq<DeploymentAttestation>, from: int) -> Option<int>
    decreases atts.len() - from,
{
    if from < 1 || from >= atts.len() {
        None
    } else if link_broken(atts, from) {
        Some(from)
    } else {
        first_break_from(atts, from + 1)
    }
}

/// Number of documents among `1 .. k` that name no predecessor.
pub open spec fn gaps_before(atts: Seq<DeploymentAttestation>, k: int) -> nat
    decreases k,
{
    if k <= 1 {
        0
    } else {
        gaps_before(atts, k - 1) + if atts[k - 1].previous_hash is None { 1nat } else { 0nat }
    }
}

/// The report `audit_chain` gives for `atts` (already sorted by timestamp).
///
/// - An empty set is clean.
/// - A first document naming a predecessor that occurs later in the set is a
///   break at the first document.
/// - A first document naming a predecessor absent from the set counts one
///   missing predecessor (lost genesis).
/// - At the first later document whose named predecessor is not its immediate
///   predecessor the audit stops: it is a break there, and also one more
///   missing predecessor when the named hash is absent from the set.
/// - A later document naming no predecessor is a gap.
pub open spec fn chain_report(atts: Seq<DeploymentAttestation>) -> ChainReportView {
    let n = atts.len();
    if n == 0 {
        ChainReportView { broken_at: None, gaps_detected: 0, missing_predecessors: 0, total: 0 }
    } else if atts[0].previous_hash is Some && hash_known(atts, atts[0].previous_hash->0@) {
        ChainReportView {
            broken_at: Some(atts[0].id@),
            gaps_detected: 0,
            missing_predecessors: 0,
            total: n,
        }
    } else {
        let m0: nat = if atts[0].previous_hash is Some { 1 } else { 0 };
        match first_break_from(atts, 1) {
            Some(k) => ChainReportView {
                broken_at: Some(atts[k].id@),
                gaps_detected: gaps_before(atts, k),
                missing_predecessors: if hash_known(atts, atts[k].previous_hash->0@) {
                    m0
                } else {
                    m0 + 1
                },
                total: n,
            },
            None => ChainReportView {
                broken_at: None,
                gaps_detected: gaps_before(atts, n as int),
                missing_predecessors: m0,
                total: n,
            },
        }
    }
}

/// Whether some document of `atts` has attestation hash `h`.
fn contains_hash(atts: &[DeploymentAttestation], h: &String) -> (res: bool)
    ensures
        res == hash_known(atts@, h@),
{
    let mut j: usize = 0;
    while j < atts.len()
        invariant
            j <= atts.len(),
            forall|k: int| 0 <= k < j ==> atts@[k].attestation_hash@ != h@,
        decreases atts.len() - j,
    {
        if atts[j].attestation_hash == *h {
            assert(atts@[j as int].attestation_hash@ == h@);
            return true;
        }
        j = j + 1;
    }
    false
}

proof fn lemma_first_break_skips(atts: Seq<DeploymentAttestation>, from: int, to: int)
    requires
        1 <= from <= to <= atts.len(),
        forall|i: int| from <= i < to ==> !link_broken(atts, i),
    ensures
        first_break_from(atts, from) == first_break_from(atts, to),
    decreases to - from,
{
    if from < to {
        lemma_first_break_skips(atts, from + 1, to);
    }
}

/// Audit the chain of attestations already sorted by timestamp.
///
/// A document whose `previous_hash` is `Some` but does not match the immediate
/// predecessor is a **break**.
///
/// A document whose `previous_hash` points at a hash that is not present in
/// the set (deleted / overwritten predecessor) is a **missing predecessor**.
///
/// A non-first document with `previous_hash = None` is a **gap**.
///
/// The first document with `previous_hash = Some(...)` that is not in the set
/// is also a missing predecessor (lost genesis).
pub fn audit_chain(attestations: &[DeploymentAttestation]) -> (res: ChainReport)
    ensures
        res@ == chain_report(attestations@),
{
    let total = attestations.len();
    let ghost atts = attestations@;
    if total == 0 {
        return ChainReport { broken_at: None, gaps_detected: 0, missing_predecessors: 0, total: 0 };
    }
    let mut gaps: usize = 0;
    let mut missing: usize = 0;
    match &attestations[0].previous_hash {
        None => {},
        Some(ph) => {
            if contains_hash(attestations, ph) {
                return ChainReport {
                    broken_at: Some(attestations[0].id.clone()),
                    gaps_detected: 0,
                    missing_predecessors: 0,
                    total,
                };
            }
            missing = 1;
        },
    }
    let ghost m0: nat = missing as nat;
    let mut i: usize = 1;
    while i < total
        invariant
            atts == attestations@,
            total == atts.len(),
            1 <= i <= total,
            m0 == (if atts[0].previous_hash is Some { 1nat } else { 0nat }),
            !(atts[0].previous_hash is Some && hash_known(atts, atts[0].previous_hash->0@)),
            missing as nat == m0,
            gaps as nat == gaps_before(atts, i as int),
            gaps <= i,
            first_break_from(atts, 1) == first_break_from(atts, i as int),
        decreases total - i,
    {
        let prev = &attestations[i - 1];
        let curr = &attestations[i];
        match &curr.previous_hash {
            Some(ph) => {
                if *ph == prev.attestation_hash {
                } else {
                    assert(link_broken(atts, i as int));
                    assert(first_break_from(atts, i as int) == Some(i as int));
                    if contains_hash(attestations, ph) {
                        return ChainReport {
                            broken_at: Some(curr.id.clone()),
                            gaps_detected: gaps,
                            missing_predecessors: missing,
                            total,
                        };
                    }
                    return ChainReport {
                        broken_at: Some(curr.id.clone()),
                        gaps_detected: gaps,
                        missing_predecessors: missing + 1,
                        total,
                    };
                }
            },
            None => {
                gaps = gaps + 1;
            },
        }
        assert(!link_broken(atts, i as int));
        proof {
            lemma_first_break_skips(atts, i as int, i + 1);
        }
        i = i + 1;
    }
    ChainReport { broken_at: None, gaps_detected: gaps, missing_predecessors: missing, total }
}


/// Every document names its immediate predecessor, and the first names none.
pub open spec fn properly_linked(atts: Seq<DeploymentAttestation>) -> bool {
    atts.len() == 0 || (atts[0].previous_hash is None && forall|i: int|
        1 <= i < atts.len() ==> opt_chars((#[trigger] atts[i]).previous_hash) == Some(
            atts[i - 1].attestation_hash@,
        ))
}

proof fn lemma_first_break_none(atts: Seq<DeploymentAttestation>, from: int)
    requires
        1 <= from,
    ensures
        first_break_from(atts, from) is None <==> forall|i: int|
            from <= i < atts.len() ==> !link_broken(atts, i),
    decreases atts.len() - from,
{
    if from < atts.len() {
        lemma_first_break_none(atts, from + 1);
    }
}

proof fn lemma_first_break_found(atts: Seq<DeploymentAttestation>, from: int)
    requires
        1 <= from,
        first_break_from(atts, from) is Some,
    ensures
        ({
            let k = first_break_from(atts, from)->0;
            from <= k < atts.len() && link_broken(atts, k)
        }),
    decreases atts.len() - from,
{
    if from < atts.len() && !link_broken(atts, from) {
        lemma_first_break_found(atts, from + 1);
    }
}

proof fn lemma_no_gaps(atts: Seq<DeploymentAttestation>, k: int)
    requires
        k <= atts.len(),
    ensures
        gaps_before(atts, k) == 0 <==> forall|i: int|
            1 <= i < k ==> (#[trigger] atts[i]).previous_hash is Some,
    decreases k,
{
    if k > 1 {
        lemma_no_gaps(atts, k - 1);
    }
}

/// A chain audit is clean exactly when the documents are properly linked:
/// the first names no predecessor and every later one names the one just
/// before it.
pub proof fn lemma_clean_iff_properly_linked(atts: Seq<DeploymentAttestation>)
    ensures
        report_is_clean(chain_report(atts)) <==> properly_linked(atts),
{
    let n = atts.len();
    if n > 0 {
        lemma_first_break_none(atts, 1);
        lemma_no_gaps(atts, n as int);
        if first_break_from(atts, 1) is Some {
            lemma_first_break_found(atts, 1);
        }
        if properly_linked(atts) {
            assert forall|i: int| 1 <= i < n implies !link_broken(atts, i) by {
                assert(opt_chars(atts[i].previous_hash) == Some(atts[i - 1].attestation_hash@));
            }
            assert forall|i: int| 1 <= i < n implies (#[trigger] atts[i]).previous_hash is Some by {
                assert(opt_chars(atts[i].previous_hash) == Some(atts[i - 1].attestation_hash@));
            }
        }
        if report_is_clean(chain_report(atts)) {
            assert forall|i: int| 1 <= i < n implies opt_chars(
                (#[trigger] atts[i]).previous_hash,
            ) == Some(atts[i - 1].attestation_hash@) by {
                assert(!link_broken(atts, i));
                assert(atts[i].previous_hash is Some);
            }
        }
    }
}

/// A document that names a predecessor other than the document just before
/// it makes the audit report a break.
pub proof fn lemma_broken_link_reported(atts: Seq<DeploymentAttestation>, i: int)
    requires
        1 <= i < atts.len(),
        link_broken(atts, i),
    ensures
        chain_report(atts).broken_at is Some,
{
    lemma_first_break_none(atts, 1);
}

/// A first document that names a predecessor absent from the set (a lost
/// genesis) is reported as a missing predecessor, so the chain is not clean.
pub proof fn lemma_lost_genesis_reported(atts: Seq<DeploymentAttestation>)
    requires
        atts.len() > 0,
        atts[0].previous_hash is Some,
        !hash_known(atts, atts[0].previous_hash->0@),
    ensures
        chain_report(atts).missing_predecessors >= 1,
        !report_is_clean(chain_report(atts)),
{
}


/// Deleting a document that has a successor from a properly linked chain is
/// reported: the audit of what is left is not clean. (A middle document is
/// told apart from its predecessor by its hash.)
pub proof fn lemma_deletion_reported(atts: Seq<DeploymentAttestation>, k: int)
    requires
        properly_linked(atts),
        0 <= k < atts.len() - 1,
        k > 0 ==> atts[k].attestation_hash@ != atts[k - 1].attestation_hash@,
    ensures
        !report_is_clean(chain_report(atts.remove(k))),
{
    let rest = atts.remove(k);
    lemma_clean_iff_properly_linked(rest);
    assert(opt_chars(atts[k + 1].previous_hash) == Some(atts[k].attestation_hash@));
    assert(rest[k] == atts[k + 1]);
    if k == 0 {
        assert(rest[0].previous_hash is Some);
    } else {
        assert(rest[k - 1] == atts[k - 1]);
        assert(opt_chars(rest[k].previous_hash) != Some(rest[k - 1].attestation_hash@));
    }
}


/// A chain built by giving each new document the previous hash that a builder
/// advanced past all earlier documents reports (starting from a new builder)
/// audits clean: nothing broken, no gap, nothing missing, every document
/// counted.
pub proof fn lemma_built_chain_is_clean(atts: Seq<DeploymentAttestation>)
    requires
        forall|i: int|
            0 <= i < atts.len() ==> opt_chars((#[trigger] atts[i]).previous_hash) == builder_tip(
                None,
                atts.take(i),
            ),
    ensures
        properly_linked(atts),
        report_is_clean(chain_report(atts)),
        chain_report(atts).broken_at is None,
        chain_report(atts).total == atts.len(),
{
    if atts.len() > 0 {
        lemma_builder_tip(None, atts.take(0));
        assert(opt_chars(atts[0].previous_hash) == builder_tip(None, atts.take(0)));
        assert forall|i: int| 1 <= i < atts.len() implies opt_chars(
            (#[trigger] atts[i]).previous_hash,
        ) == Some(atts[i - 1].attestation_hash@) by {
            lemma_builder_tip(None, atts.take(i));
            assert(atts.take(i).last() == atts[i - 1]);
        }
    }
    lemma_clean_iff_properly_linked(atts);
}


proof fn lemma_gaps_before_push(atts: Seq<DeploymentAttestation>, d: DeploymentAttestation, k: int)
    requires
        k <= atts.len(),
    ensures
        gaps_before(atts.push(d), k) == gaps_before(atts, k),
    decreases k,
{
    if k > 1 {
        lemma_gaps_before_push(atts, d, k - 1);
        assert(atts.push(d)[k - 1] == atts[k - 1]);
    }
}

/// Gaps are counted, not flagged: appending a document that names no
/// predecessor to an unbroken chain that starts with a genesis document adds
/// exactly one gap, and leaves the chain unbroken with nothing missing.
pub proof fn lemma_appended_gap_counts(atts: Seq<DeploymentAttestation>, d: DeploymentAttestation)
    requires
        atts.len() >= 1,
        atts[0].previous_hash is None,
        chain_report(atts).broken_at is None,
        d.previous_hash is None,
    ensures
        chain_report(atts.push(d)).gaps_detected == chain_report(atts).gaps_detected + 1,
        chain_report(atts.push(d)).broken_at is None,
        chain_report(atts.push(d)).missing_predecessors == 0,
        chain_report(atts.push(d)).total == chain_report(atts).total + 1,
{
    let n = atts.len() as int;
    let s = atts.push(d);
    lemma_first_break_none(atts, 1);
    lemma_first_break_none(s, 1);
    if first_break_from(atts, 1) is Some {
        lemma_first_break_found(atts, 1);
    }
    assert forall|i: int| 1 <= i < s.len() implies !link_broken(s, i) by {
        if i < n {
            assert(s[i] == atts[i]);
            assert(s[i - 1] == atts[i - 1]);
            assert(!link_broken(atts, i));
        } else {
            assert(s[i] == d);
        }
    }
    lemma_gaps_before_push(atts, d, n);
    assert(s[n] == d);
    assert(s[0] == atts[0]);
}

proof fn lemma_all_gaps_count(atts: Seq<DeploymentAttestation>, k: int)
    requires
        1 <= k <= atts.len(),
        forall|i: int| 0 <= i < atts.len() ==> (#[trigger] atts[i]).previous_hash is None,
    ensures
        gaps_before(atts, k) == k - 1,
    decreases k,
{
    if k > 1 {
        lemma_all_gaps_count(atts, k - 1);
        assert(atts[k - 1].previous_hash is None);
    }
}

/// A store whose documents name no predecessor (it was restarted before
/// every deployment) reports one gap for every document but the first, and
/// nothing broken or missing.
pub proof fn lemma_unlinked_store_gaps(atts: Seq<DeploymentAttestation>)
    requires
        atts.len() >= 1,
        forall|i: int| 0 <= i < atts.len() ==> (#[trigger] atts[i]).previous_hash is None,
    ensures
        chain_report(atts).gaps_detected == atts.len() - 1,
        chain_report(atts).broken_at is None,
        chain_report(atts).missing_predecessors == 0,
{
    lemma_first_break_none(atts, 1);
    assert forall|i: int| 1 <= i < atts.len() implies !link_broken(atts, i) by {
        assert(atts[i].previous_hash is None);
    }
    lemma_all_gaps_count(atts, atts.len() as int);
    assert(atts[0].previous_hash is None);
}

} // verus!
