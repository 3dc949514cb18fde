//! Attestation files: their names, which directory entries are attestations,
//! and the order in which they form the chain.
use vstd::prelude::*;
use crate::attestation::model::DeploymentAttestation;
use crate::text::{ends_with, ends_with_text, lemma_text_lt_asymmetric, lemma_text_lt_irreflexive,
    lemma_text_lt_total, lemma_text_lt_transitive, push_str, text_less, text_lt};
use crate::timestamp::second_stamp_text;
use crate::util::{prefix, prefix_text};

verus! {

/// The directory that holds attestation JSON files.
pub struct AttestationStore {
    dir: String,
}

/// File name of a document: `{utc-second}-{id-prefix}.json`.
pub open spec fn filename_text(a: DeploymentAttestation) -> Seq<char> {
    second_stamp_text(a.timestamp.spec_secs(), a.timestamp.spec_nanos()) + "-"@ + prefix_text(
        a.id@,
        8,
    ) + ".json"@
}

/// A directory entry named `name` is read as an attestation: it ends with
/// `.json` and is not a temporary file of an interrupted write.
pub open spec fn is_attestation_name(name: Seq<char>) -> bool {
    &&& ends_with_text(name, ".json"@)
    &&& !ends_with_text(name, ".tmp.json"@)
    &&& !ends_with_text(name, ".json.tmp"@)
}

impl AttestationStore {
    /// The directory path.
    pub closed spec fn spec_dir(&self) -> Seq<char> {
        self.dir@
    }

    /// A store for the directory `dir` (which the caller creates).
    pub fn new(dir: String) -> (res: Self)
        ensures
            res.spec_dir() == dir@,
    {
        AttestationStore { dir }
    }

    /// The directory path.
    pub fn dir(&self) -> (res: &str)
        ensures
            res@ == self.spec_dir(),
    {
        self.dir.as_str()
    }

    /// Unique filename: `{utc-second}-{id-prefix}.json`.
    /// Two deploys in the same second do not overwrite each other.
    pub fn filename_for(a: &DeploymentAttestation) -> (res: String)
        ensures
            res@ == filename_text(*a),
    {
        let mut name = a.timestamp.second_stamp();
        push_str(&mut name, "-");
        push_str(&mut name, prefix(a.id.as_str(), 8).as_str());
        push_str(&mut name, ".json");
        name
    }

    /// Name of the temporary file a document is first written to, before it
    /// is renamed to `filename_for`.
    pub fn temp_filename_for(a: &DeploymentAttestation) -> (res: String)
        ensures
            res@ == filename_text(*a) + ".tmp"@,
    {
        let mut name = Self::filename_for(a);
        push_str(&mut name, ".tmp");
        name
    }
}

/// Whether a directory entry named `name` is read as an attestation.
pub fn is_attestation_file_name(name: &str) -> (res: bool)
    ensures
        res == is_attestation_name(name@),
{
    if !ends_with(name, ".json") || ends_with(name, ".tmp.json") {
        return false;
    }
    if ends_with(name, ".json.tmp") {
        return false;
    }
    true
}

/// Two documents stamped in the same second get different file names when
/// their id prefixes differ.
pub proof fn lemma_same_second_distinct_names(a: DeploymentAttestation, b: DeploymentAttestation)
    requires
        second_stamp_text(a.timestamp.spec_secs(), a.timestamp.spec_nanos()) == second_stamp_text(
            b.timestamp.spec_secs(),
            b.timestamp.spec_nanos(),
        ),
        prefix_text(a.id@, 8) != prefix_text(b.id@, 8),
    ensures
        filename_text(a) != filename_text(b),
{
    let head = second_stamp_text(a.timestamp.spec_secs(), a.timestamp.spec_nanos()) + "-"@;
    let pa = prefix_text(a.id@, 8);
    let pb = prefix_text(b.id@, 8);
    let tail = ".json"@;
    if filename_text(a) == filename_text(b) {
        assert(filename_text(a) == head + pa + tail);
        assert(filename_text(b) == head + pb + tail);
        assert(pa.len() == pb.len());
        assert forall|i: int| 0 <= i < pa.len() implies pa[i] == pb[i] by {
            assert((head + pa + tail)[head.len() + i] == pa[i]);
            assert((head + pb + tail)[head.len() + i] == pb[i]);
        }
        assert(pa =~= pb);
    }
}

/// Sort key of a document: its instant as `DateTime::to_rfc3339` writes it,
/// then its id.
pub open spec fn sort_key(a: DeploymentAttestation) -> (Seq<char>, Seq<char>) {
    (a.timestamp.spec_rfc3339(), a.id@)
}

/// Strict order on sort keys: by instant text, then by id.
pub open spec fn key_lt(x: (Seq<char>, Seq<char>), y: (Seq<char>, Seq<char>)) -> bool {
    text_lt(x.0, y.0) || (x.0 == y.0 && text_lt(x.1, y.1))
}

/// `atts` is in ascending sort-key order.
pub open spec fn sorted_by_key(atts: Seq<DeploymentAttestation>) -> bool {
    forall|i: int, j: int|
        0 <= i < j < atts.len() ==> !key_lt(sort_key(#[trigger] atts[j]), sort_key(#[trigger] atts[i]))
}

proof fn lemma_key_lt_transitive(
    x: (Seq<char>, Seq<char>),
    y: (Seq<char>, Seq<char>),
    z: (Seq<char>, Seq<char>),
)
    requires
        key_lt(x, y),
        key_lt(y, z),
    ensures
        key_lt(x, z),
{
    if text_lt(x.0, y.0) && text_lt(y.0, z.0) {
        lemma_text_lt_transitive(x.0, y.0, z.0);
    } else if text_lt(x.1, y.1) && text_lt(y.1, z.1) {
        lemma_text_lt_transitive(x.1, y.1, z.1);
    }
}

proof fn lemma_key_not_lt_is_le(x: (Seq<char>, Seq<char>), y: (Seq<char>, Seq<char>))
    requires
        !key_lt(x, y),
    ensures
        key_lt(y, x) || x == y,
{
    lemma_text_lt_total(x.0, y.0);
    lemma_text_lt_total(x.1, y.1);
}

proof fn lemma_key_lt_asymmetric(x: (Seq<char>, Seq<char>), y: (Seq<char>, Seq<char>))
    requires
        key_lt(x, y),
    ensures
        !key_lt(y, x),
{
    if text_lt(x.0, y.0) {
        lemma_text_lt_asymmetric(x.0, y.0);
        if y.0 == x.0 {
            lemma_text_lt_irreflexive(x.0);
        }
    } else {
        lemma_text_lt_irreflexive(x.0);
        lemma_text_lt_asymmetric(x.1, y.1);
    }
}

/// `res` is `src` rearranged by `p`: position `i` of `res` holds the document
/// at position `p[i]` of `src`, each position of `src` is used once, and
/// documents with equal sort keys keep their order in `src` (a stable
/// arrangement).
pub open spec fn stable_arrangement(
    src: Seq<DeploymentAttestation>,
    res: Seq<DeploymentAttestation>,
    p: Seq<int>,
) -> bool {
    &&& p.len() == res.len()
    &&& res.len() == src.len()
    &&& forall|i: int| 0 <= i < res.len() ==> 0 <= #[trigger] p[i] < src.len() && res[i] == src[p[i]]
    &&& forall|i: int, j: int| 0 <= i < j < res.len() ==> #[trigger] p[i] != #[trigger] p[j]
    &&& forall|i: int, j: int|
        0 <= i < j < res.len() && sort_key(res[i]) == sort_key(res[j]) ==> #[trigger] p[i]
            < #[trigger] p[j]
}

fn key_less(a: &(String, String), b: &(String, String)) -> (res: bool)
    ensures
        res == key_lt((a.0@, a.1@), (b.0@, b.1@)),
{
    if text_less(a.0.as_str(), b.0.as_str()) {
        true
    } else if a.0 == b.0 {
        text_less(a.1.as_str(), b.1.as_str())
    } else {
        false
    }
}

fn key_of(a: &DeploymentAttestation) -> (res: (String, String))
    ensures
        (res.0@, res.1@) == sort_key(*a),
{
    (a.timestamp.to_rfc3339(), a.id.clone())
}

/// The documents ordered by instant (as RFC 3339 text), then by id: the
/// order in which they form the chain.
pub fn sort_attestations(entries: Vec<DeploymentAttestation>) -> (res: Vec<DeploymentAttestation>)
    ensures
        res@.to_multiset() == entries@.to_multiset(),
        sorted_by_key(res@),
        exists|p: Seq<int>| stable_arrangement(entries@, res@, p),
{
    broadcast use {vstd::seq_lib::group_to_multiset_ensures, vstd::multiset::group_multiset_axioms};

    let ghost all = entries@;
    let mut input = entries;
    let mut out: Vec<DeploymentAttestation> = Vec::new();
    let mut keys: Vec<(String, String)> = Vec::new();
    let ghost mut p: Seq<int> = Seq::empty();
    assert(out@.to_multiset() =~= vstd::multiset::Multiset::empty());
    assert(all.skip(0) =~= all);
    while input.len() > 0
        invariant
            out@.to_multiset().add(input@.to_multiset()) == all.to_multiset(),
            out@.len() + input@.len() == all.len(),
            input@ == all.skip(out@.len() as int),
            p.len() == out@.len(),
            forall|i: int|
                0 <= i < out@.len() ==> 0 <= #[trigger] p[i] < out@.len() && out@[i] == all[p[i]],
            forall|i: int, j: int| 0 <= i < j < out@.len() ==> #[trigger] p[i] != #[trigger] p[j],
            forall|i: int, j: int|
                0 <= i < j < out@.len() && sort_key(out@[i]) == sort_key(out@[j]) ==> #[trigger] p[i]
                    < #[trigger] p[j],
            keys@.len() == out@.len(),
            forall|i: int| 0 <= i < out@.len() ==> (keys@[i].0@, keys@[i].1@) == sort_key(
                #[trigger] out@[i],
            ),
            sorted_by_key(out@),
        decreases input@.len(),
    {
        let ghost old_input = input@;
        let ghost old_out = out@;
        let e = input.remove(0);
        assert(e == old_input[0]);
        proof {
            vstd::seq_lib::to_multiset_remove(old_input, 0);
        }
        let k = key_of(&e);
        let mut pos: usize = 0;
        while pos < out.len() && !key_less(&k, &keys[pos])
            invariant
                pos <= out@.len(),
                keys@.len() == out@.len(),
                out@ == old_out,
                (k.0@, k.1@) == sort_key(e),
                forall|i: int| 0 <= i < out@.len() ==> (keys@[i].0@, keys@[i].1@) == sort_key(
                    #[trigger] out@[i],
                ),
                forall|q: int| 0 <= q < pos ==> !key_lt(sort_key(e), sort_key(#[trigger] out@[q])),
            decreases out@.len() - pos,
        {
            pos = pos + 1;
        }
        proof {
            assert forall|i: int, j: int|
                0 <= i < j < old_out.len() + 1 implies !key_lt(
                sort_key(#[trigger] old_out.insert(pos as int, e)[j]),
                sort_key(#[trigger] old_out.insert(pos as int, e)[i]),
            ) by {
                let s = old_out.insert(pos as int, e);
                if i == pos {
                    // e before every later element
                    let jj = j - 1;
                    assert(s[j] == old_out[jj]);
                    if pos < old_out.len() {
                        assert(key_lt(sort_key(e), sort_key(old_out[pos as int])));
                        if jj > pos {
                            assert(!key_lt(sort_key(old_out[jj]), sort_key(old_out[pos as int])));
                            lemma_key_not_lt_is_le(sort_key(old_out[jj]), sort_key(old_out[pos as int]));
                            if key_lt(sort_key(old_out[pos as int]), sort_key(old_out[jj])) {
                                lemma_key_lt_transitive(sort_key(e), sort_key(old_out[pos as int]), sort_key(old_out[jj]));
                            }
                        }
                        lemma_key_lt_asymmetric(sort_key(e), sort_key(old_out[jj]));
                    }
                } else if j == pos {
                    assert(s[i] == old_out[i]);
                } else {
                    let ii = if i < pos { i } else { i - 1 };
                    let jj = if j < pos { j } else { j - 1 };
                    assert(s[i] == old_out[ii]);
                    assert(s[j] == old_out[jj]);
                }
            }
        }
        proof {
            let n = old_out.len() as int;
            let np = p.insert(pos as int, n);
            let s = old_out.insert(pos as int, e);
            assert(e == all[n]);
            // every document after `pos` has a larger key than `e`
            assert forall|j: int| pos < j < n + 1 implies sort_key(#[trigger] s[j]) != sort_key(e) by {
                assert(s[j] == old_out[j - 1]);
                assert(key_lt(sort_key(e), sort_key(old_out[pos as int])));
                if j - 1 > pos {
                    assert(!key_lt(sort_key(old_out[j - 1]), sort_key(old_out[pos as int])));
                    lemma_key_not_lt_is_le(sort_key(old_out[j - 1]), sort_key(old_out[pos as int]));
                    if key_lt(sort_key(old_out[pos as int]), sort_key(old_out[j - 1])) {
                        lemma_key_lt_transitive(sort_key(e), sort_key(old_out[pos as int]), sort_key(old_out[j - 1]));
                    }
                }
                if sort_key(old_out[j - 1]) == sort_key(e) {
                    lemma_key_lt_asymmetric(sort_key(e), sort_key(old_out[j - 1]));
                }
            }
            assert forall|i: int| 0 <= i < n + 1 implies 0 <= #[trigger] np[i] < n + 1 && s[i] == all[np[i]] by {
                if i < pos {
                    assert(np[i] == p[i] && s[i] == old_out[i]);
                } else if i > pos {
                    assert(np[i] == p[i - 1] && s[i] == old_out[i - 1]);
                }
            }
            assert forall|i: int, j: int| 0 <= i < j < n + 1 implies #[trigger] np[i] != #[trigger] np[j] by {
                let ii = if i < pos { i } else { i - 1 };
                let jj = if j < pos { j } else { j - 1 };
                if i != pos && j != pos {
                    assert(np[i] == p[ii] && np[j] == p[jj]);
                } else if i == pos {
                    assert(np[j] == p[jj]);
                } else {
                    assert(np[i] == p[ii]);
                }
            }
            assert forall|i: int, j: int|
                0 <= i < j < n + 1 && sort_key(s[i]) == sort_key(s[j]) implies #[trigger] np[i]
                    < #[trigger] np[j] by {
                let ii = if i < pos { i } else { i - 1 };
                let jj = if j < pos { j } else { j - 1 };
                if i != pos && j != pos {
                    assert(np[i] == p[ii] && np[j] == p[jj]);
                    assert(s[i] == old_out[ii] && s[j] == old_out[jj]);
                } else if i == pos {
                    assert(s[i] == e);
                } else {
                    assert(np[i] == p[ii]);
                    assert(np[j] == n);
                }
            }
            p = np;
        }
        out.insert(pos, e);
        keys.insert(pos, k);
        assert forall|i: int| 0 <= i < out@.len() implies (keys@[i].0@, keys@[i].1@) == sort_key(
            #[trigger] out@[i],
        ) by {
            if i < pos {
                assert(out@[i] == old_out[i]);
            } else if i > pos {
                assert(out@[i] == old_out[i - 1]);
            }
        }
        assert(out@ == old_out.insert(pos as int, e));
        proof {
            vstd::seq_lib::to_multiset_insert(old_out, pos as int, e);
        }
        assert(old_input.to_multiset() == input@.to_multiset().insert(e)) by {
            assert(old_input.remove(0) == input@);
            assert(old_input.to_multiset().contains(e)) by {
                assert(old_input[0] == e);
                vstd::seq_lib::to_multiset_contains(old_input, e);
            }
        }
        assert(out@.to_multiset().add(input@.to_multiset()) =~= all.to_multiset());
    }
    assert(input@.to_multiset() =~= vstd::multiset::Multiset::empty());
    assert(stable_arrangement(all, out@, p));
    out
}

} // verus!
