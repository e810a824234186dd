//! Kubernetes identities and their numeric derivation: labels are filtered of
//! ephemeral keys, sorted, and hashed into the cluster-local range.

use vstd::prelude::*;

verus! {

use std::collections::hash_map::DefaultHasher;
use std::hash::Hasher;
use vstd::relations::{sorted_by, total_ordering};
use vstd::seq_lib::lemma_multiset_commutative;
use vstd::multiset::Multiset;
use vstd::seq_lib::lemma_sorted_unique;
use vstd::string::StrSliceExecFns;
use vstd::string::StringExecFns;
use vstd::std_specs::hash::DefaultHasherAdditionalSpecFns;
use crate::text::{lex_le, is_prefix_of, starts_with, str_le, lemma_lex_le_total,
    lemma_lex_le_trans, lemma_lex_le_connected};

// Reserved numeric identities.
pub const IDENTITY_HOST: u32 = 1;
pub const IDENTITY_WORLD: u32 = 2;
pub const IDENTITY_REMOTE_NODE: u32 = 6;
pub const IDENTITY_KUBE_APISERVER: u32 = 7;

// Cluster-local identity range for label-derived identities.
pub const MIN_CLUSTER_IDENTITY: u32 = 256;
pub const MAX_CLUSTER_IDENTITY: u32 = 65535;
pub const CLUSTER_IDENTITY_RANGE: u32 = 65280;

/// An owner reference carried along with a pod identity.
#[derive(Debug)]
pub struct Workload {
    pub name: String,
    pub kind: String,
}

/// The mathematical value of a workload reference.
pub ghost struct WorkloadView {
    pub name: Seq<char>,
    pub kind: Seq<char>,
}

impl View for Workload {
    type V = WorkloadView;

    open spec fn view(&self) -> WorkloadView {
        WorkloadView { name: self.name@, kind: self.kind@ }
    }
}

impl Clone for Workload {
    fn clone(&self) -> (r: Self)
        ensures
            r@ == self@,
    {
        Workload { name: self.name.clone(), kind: self.kind.clone() }
    }
}

/// Kubernetes identity associated with an IP address. At most one of
/// `pod_name`, `service_name` and `node_name` is expected to be non-empty.
#[derive(Debug)]
pub struct Identity {
    pub namespace: String,
    pub pod_name: String,
    pub service_name: String,
    pub node_name: String,
    pub labels: Vec<String>,
    pub workloads: Vec<Workload>,
}

/// The mathematical value of an identity.
pub ghost struct IdentityView {
    pub namespace: Seq<char>,
    pub pod_name: Seq<char>,
    pub service_name: Seq<char>,
    pub node_name: Seq<char>,
    pub labels: Seq<Seq<char>>,
    pub workloads: Seq<WorkloadView>,
}

impl View for Identity {
    type V = IdentityView;

    open spec fn view(&self) -> IdentityView {
        IdentityView {
            namespace: self.namespace@,
            pod_name: self.pod_name@,
            service_name: self.service_name@,
            node_name: self.node_name@,
            labels: self.labels.deep_view(),
            workloads: Seq::new(self.workloads@.len(), |i: int| self.workloads@[i]@),
        }
    }
}

/// Clone a workload list, keeping its value.
pub fn clone_workloads(ws: &Vec<Workload>) -> (r: Vec<Workload>)
    ensures
        r@.len() == ws@.len(),
        forall|i: int| 0 <= i < ws@.len() ==> #[trigger] r@[i]@ == ws@[i]@,
{
    let mut out: Vec<Workload> = Vec::new();
    let mut i: usize = 0;
    while i < ws.len()
        invariant
            i <= ws@.len(),
            out@.len() == i,
            forall|j: int| 0 <= j < i ==> #[trigger] out@[j]@ == ws@[j]@,
        decreases ws@.len() - i,
    {
        out.push(ws[i].clone());
        i = i + 1;
    }
    out
}

/// Clone a label list, keeping its value.
pub fn clone_labels(labels: &Vec<String>) -> (r: Vec<String>)
    ensures
        r.deep_view() == labels.deep_view(),
{
    let mut out: Vec<String> = Vec::new();
    let mut i: usize = 0;
    while i < labels.len()
        invariant
            i <= labels@.len(),
            out@.len() == i,
            forall|j: int| 0 <= j < i ==> #[trigger] out@[j]@ == labels@[j]@,
        decreases labels@.len() - i,
    {
        out.push(labels[i].clone());
        i = i + 1;
    }
    proof {
        assert(out.deep_view() =~= labels.deep_view());
    }
    out
}

impl Clone for Identity {
    fn clone(&self) -> (r: Self)
        ensures
            r@ == self@,
    {
        let r = Identity {
            namespace: self.namespace.clone(),
            pod_name: self.pod_name.clone(),
            service_name: self.service_name.clone(),
            node_name: self.node_name.clone(),
            labels: clone_labels(&self.labels),
            workloads: clone_workloads(&self.workloads),
        };
        proof {
            assert(Seq::new(r.workloads@.len(), |i: int| r.workloads@[i]@) =~= Seq::new(
                self.workloads@.len(),
                |i: int| self.workloads@[i]@,
            ));
        }
        r
    }
}

/// Label prefixes that are not identity-relevant (high-cardinality or
/// ephemeral keys).
pub open spec fn is_irrelevant_label(l: Seq<char>) -> bool {
    is_prefix_of("pod-template-hash="@, l) || is_prefix_of("controller-revision-hash="@, l)
        || is_prefix_of("pod-template-generation="@, l) || is_prefix_of(
        "statefulset.kubernetes.io/pod-name="@,
        l,
    ) || is_prefix_of("batch.kubernetes.io/job-completion-index="@, l)
}

/// The relevance predicate used to filter labels before hashing.
pub open spec fn relevant() -> spec_fn(Seq<char>) -> bool {
    |l: Seq<char>| !is_irrelevant_label(l)
}

/// Lexicographic order as a first-class relation.
pub open spec fn lex_leq() -> spec_fn(Seq<char>, Seq<char>) -> bool {
    |a: Seq<char>, b: Seq<char>| lex_le(a, b)
}

/// Canonical form of a label set: irrelevant labels removed, the rest in
/// lexicographic order.
pub open spec fn canon_labels(labels: Seq<Seq<char>>) -> Seq<Seq<char>> {
    labels.filter(relevant()).sort_by(lex_leq())
}

/// The hasher writes of one piece of input: its UTF-8 bytes, then a
/// one-byte terminator that no UTF-8 text contains, so that distinct
/// (namespace, labels) inputs never feed the hasher the same byte stream.
pub open spec fn piece_writes(piece: Seq<char>) -> Seq<Seq<u8>> {
    seq![vstd::utf8::encode_utf8(piece), seq![255u8]]
}

/// The hasher writes of the canonical labels, in order.
pub open spec fn label_writes(canon: Seq<Seq<char>>) -> Seq<Seq<u8>>
    decreases canon.len(),
{
    if canon.len() == 0 {
        Seq::empty()
    } else {
        label_writes(canon.drop_last()) + piece_writes(canon.last())
    }
}

/// The write sequence fed to the hasher: the namespace, then each
/// canonical label, each as its terminated UTF-8 bytes.
pub open spec fn hash_writes(ns: Seq<char>, canon: Seq<Seq<char>>) -> Seq<Seq<u8>> {
    piece_writes(ns) + label_writes(canon)
}

/// The 64-bit hash of a namespace and canonical label set.
pub open spec fn label_hash(ns: Seq<char>, canon: Seq<Seq<char>>) -> u64 {
    DefaultHasher::spec_finish(hash_writes(ns, canon))
}

/// Numeric identity derived from a namespace and a raw label set: a pure
/// function of the namespace and the sorted, filtered labels, mapped into
/// `[MIN_CLUSTER_IDENTITY, MAX_CLUSTER_IDENTITY]`.
pub open spec fn cluster_identity(ns: Seq<char>, labels: Seq<Seq<char>>) -> u32 {
    (label_hash(ns, canon_labels(labels)) % 65280 + 256) as u32
}

/// Decide whether a label is filtered out before hashing.
pub fn is_irrelevant(l: &str) -> (r: bool)
    ensures
        r == is_irrelevant_label(l@),
{
    starts_with(l, "pod-template-hash=") || starts_with(l, "controller-revision-hash=")
        || starts_with(l, "pod-template-generation=") || starts_with(
        l,
        "statefulset.kubernetes.io/pod-name=",
    ) || starts_with(l, "batch.kubernetes.io/job-completion-index=")
}

/// Keep only the identity-relevant labels.
fn filter_relevant(labels: &Vec<String>) -> (r: Vec<String>)
    ensures
        r.deep_view() == labels.deep_view().filter(relevant()),
{
    let ghost all = labels.deep_view();
    let mut out: Vec<String> = Vec::new();
    let mut i: usize = 0;
    proof {
        reveal(Seq::filter);
        assert(all.take(0) =~= Seq::<Seq<char>>::empty());
    }
    while i < labels.len()
        invariant
            i <= labels@.len(),
            all == labels.deep_view(),
            all.len() == labels@.len(),
            out.deep_view() == all.take(i as int).filter(relevant()),
        decreases labels@.len() - i,
    {
        proof {
            reveal(Seq::filter);
            assert(all.take(i as int + 1).drop_last() =~= all.take(i as int));
            assert(all.take(i as int + 1).last() == all[i as int]);
            assert(all[i as int] == labels@[i as int]@);
        }
        if !is_irrelevant(labels[i].as_str()) {
            let item = labels[i].clone();
            proof {
                assert(item@ == labels@[i as int]@);
            }
            out.push(item);
            proof {
                assert(out.deep_view() =~= all.take(i as int + 1).filter(relevant()));
            }
        } else {
            proof {
                assert(out.deep_view() =~= all.take(i as int + 1).filter(relevant()));
            }
        }
        i = i + 1;
    }
    proof {
        assert(all.take(labels@.len() as int) =~= all);
    }
    out
}

/// Insert `x` into a lexicographically sorted vector, keeping it sorted.
fn insert_sorted(v: &mut Vec<String>, x: String)
    requires
        sorted_by(old(v).deep_view(), lex_leq()),
    ensures
        sorted_by(final(v).deep_view(), lex_leq()),
        final(v).deep_view().to_multiset() == old(v).deep_view().to_multiset().insert(x@),
{
    let ghost pre = v.deep_view();
    let mut pos: usize = 0;
    loop
        invariant
            pos <= v@.len(),
            v.deep_view() == pre,
            forall|j: int| 0 <= j < pos ==> lex_le(#[trigger] pre[j], x@),
        ensures
            pos <= pre.len(),
            forall|j: int| 0 <= j < pos ==> lex_le(#[trigger] pre[j], x@),
            pos < pre.len() ==> !lex_le(pre[pos as int], x@),
            v.deep_view() == pre,
        decreases v@.len() - pos,
    {
        if pos >= v.len() {
            break;
        }
        proof {
            assert(pre[pos as int] == v@[pos as int]@);
        }
        if !str_le(v[pos].as_str(), x.as_str()) {
            break;
        }
        pos = pos + 1;
    }
    proof {
        if pos < pre.len() {
            assert(pre[pos as int] == v@[pos as int]@);
            assert(!lex_le(pre[pos as int], x@));
            lemma_lex_le_connected(pre[pos as int], x@);
        }
    }
    v.insert(pos, x);
    proof {
        let post = v.deep_view();
        assert(post =~= pre.subrange(0, pos as int) + seq![x@] + pre.subrange(
            pos as int,
            pre.len() as int,
        ));
        // Sortedness of the result.
        assert forall|i: int, j: int| 0 <= i < j < post.len() implies lex_leq()(
            post[i],
            post[j],
        ) by {
            let leq = lex_leq();
            if j < pos {
                assert(leq(pre[i], pre[j]));
            } else if i < pos && j == pos {
                assert(post[j] == x@);
                assert(lex_le(pre[i], x@));
            } else if i < pos && j > pos {
                assert(post[j] == pre[j - 1]);
                if pos < pre.len() {
                    assert(leq(pre[i], pre[pos as int]) || i == pos);
                    if i < pos {
                        assert(lex_le(pre[i], x@));
                    }
                    assert(lex_le(x@, pre[pos as int]));
                    if j - 1 == pos {
                        lemma_lex_le_trans(pre[i], x@, pre[j - 1]);
                    } else {
                        assert(leq(pre[pos as int], pre[j - 1]));
                        lemma_lex_le_trans(x@, pre[pos as int], pre[j - 1]);
                        lemma_lex_le_trans(pre[i], x@, pre[j - 1]);
                    }
                }
            } else if i == pos {
                assert(post[i] == x@);
                assert(post[j] == pre[j - 1]);
                assert(lex_le(x@, pre[pos as int]));
                if j - 1 > pos {
                    assert(leq(pre[pos as int], pre[j - 1]));
                    lemma_lex_le_trans(x@, pre[pos as int], pre[j - 1]);
                }
            } else {
                assert(post[i] == pre[i - 1]);
                assert(post[j] == pre[j - 1]);
                assert(leq(pre[i - 1], pre[j - 1]));
            }
        }
        // Multiset equality.
        broadcast use vstd::seq_lib::group_to_multiset_ensures;

        let left = pre.subrange(0, pos as int);
        let right = pre.subrange(pos as int, pre.len() as int);
        lemma_multiset_commutative(left + seq![x@], right);
        lemma_multiset_commutative(left, seq![x@]);
        lemma_multiset_commutative(left, right);
        assert(left + right =~= pre);
        assert(seq![x@] =~= Seq::<Seq<char>>::empty().push(x@));
        assert(Seq::<Seq<char>>::empty().push(x@).to_multiset() =~= Multiset::<
            Seq<char>,
        >::empty().insert(x@));
        assert(post.to_multiset() =~= pre.to_multiset().insert(x@));
    }
}

/// Sort labels lexicographically.
fn sort_labels(labels: Vec<String>) -> (r: Vec<String>)
    ensures
        sorted_by(r.deep_view(), lex_leq()),
        r.deep_view().to_multiset() == labels.deep_view().to_multiset(),
{
    let ghost all = labels.deep_view();
    let mut out: Vec<String> = Vec::new();
    let mut rest = labels;
    proof {
        broadcast use vstd::seq_lib::group_to_multiset_ensures;

        assert(all.take(0) =~= Seq::<Seq<char>>::empty());
        assert(Seq::<Seq<char>>::empty().to_multiset() =~= Multiset::<Seq<char>>::empty());
    }
    let n = rest.len();
    let mut i: usize = 0;
    while i < n
        invariant
            i <= n,
            n == rest@.len(),
            rest.deep_view() == all,
            sorted_by(out.deep_view(), lex_leq()),
            out.deep_view().to_multiset() == all.take(i as int).to_multiset(),
        decreases n - i,
    {
        let x = rest[i].clone();
        proof {
            broadcast use vstd::seq_lib::group_to_multiset_ensures;

            assert(x@ == all[i as int]);
            assert(all.take(i as int + 1) =~= all.take(i as int).push(all[i as int]));
        }
        insert_sorted(&mut out, x);
        i = i + 1;
    }
    proof {
        assert(all.take(n as int) =~= all);
    }
    out
}

/// Canonicalize a label set: filter, then sort.
pub fn canonical_labels(labels: &Vec<String>) -> (r: Vec<String>)
    ensures
        r.deep_view() == canon_labels(labels.deep_view()),
{
    let filtered = filter_relevant(labels);
    let ghost fview = filtered.deep_view();
    let sorted = sort_labels(filtered);
    proof {
        lemma_lex_le_total();
        fview.lemma_sort_by_ensures(lex_leq());
        lemma_sorted_unique(sorted.deep_view(), fview.sort_by(lex_leq()), lex_leq());
    }
    sorted
}

/// Hash a namespace and label set into the cluster-local identity range.
/// The result depends only on the namespace and the canonical label set.
pub fn hash_labels_to_identity(namespace: &str, labels: &Vec<String>) -> (r: u32)
    ensures
        r == cluster_identity(namespace@, labels.deep_view()),
        MIN_CLUSTER_IDENTITY <= r <= MAX_CLUSTER_IDENTITY,
{
    let canon = canonical_labels(labels);
    let ghost cview = canon.deep_view();
    let separator: [u8; 1] = [255u8];
    proof {
        assert(separator@ =~= seq![255u8]);
    }
    let mut hasher = DefaultHasher::new();
    hasher.write(namespace.as_bytes());
    hasher.write(separator.as_slice());
    proof {
        broadcast use vstd::string::group_string_axioms;

        assert(cview.take(0) =~= Seq::<Seq<char>>::empty());
        assert(hasher@ =~= piece_writes(namespace@) + label_writes(cview.take(0)));
    }
    let mut i: usize = 0;
    let n = canon.len();
    while i < n
        invariant
            i <= n,
            n == canon@.len(),
            cview == canon.deep_view(),
            separator@ == seq![255u8],
            hasher@ == piece_writes(namespace@) + label_writes(cview.take(i as int)),
        decreases n - i,
    {
        proof {
            assert(cview[i as int] == canon@[i as int]@);
            assert(cview.take(i as int + 1).drop_last() =~= cview.take(i as int));
            assert(cview.take(i as int + 1).last() == cview[i as int]);
        }
        hasher.write(canon[i].as_str().as_bytes());
        hasher.write(separator.as_slice());
        proof {
            assert(hasher@ =~= piece_writes(namespace@) + label_writes(cview.take(i as int + 1)));
        }
        i = i + 1;
    }
    proof {
        assert(cview.take(n as int) =~= cview);
        assert(hasher@ == hash_writes(namespace@, cview));
    }
    let hash = hasher.finish();
    (hash % 65280) as u32 + 256
}

impl Identity {
    /// The numeric identity this identity resolves to, before any reserved
    /// override: nodes and services hash a synthetic label, pods hash their
    /// labels, and the all-empty identity is WORLD.
    pub open spec fn spec_numeric_identity(&self) -> u32 {
        if self.node_name@.len() > 0 {
            cluster_identity(Seq::empty(), seq!["k8s:io.kubernetes.node.name="@ + self.node_name@])
        } else if self.pod_name@.len() > 0 {
            cluster_identity(self.namespace@, self.labels.deep_view())
        } else if self.service_name@.len() > 0 {
            cluster_identity(
                self.namespace@,
                seq!["k8s:io.kubernetes.svc.name="@ + self.service_name@],
            )
        } else {
            IDENTITY_WORLD
        }
    }

    /// Compute the numeric identity.
    pub fn numeric_identity(&self) -> (r: u32)
        ensures
            r == self.spec_numeric_identity(),
    {
        if self.node_name.as_str().unicode_len() > 0 {
            let mut synthetic = String::new();
            synthetic.append("k8s:io.kubernetes.node.name=");
            synthetic.append(self.node_name.as_str());
            let mut labels: Vec<String> = Vec::new();
            labels.push(synthetic);
            let r = hash_labels_to_identity("", &labels);
            proof {
                assert(""@ =~= Seq::<char>::empty()) by {
                    reveal_strlit("");
                }
                assert(labels.deep_view() =~= seq![
                    "k8s:io.kubernetes.node.name="@ + self.node_name@,
                ]);
            }
            r
        } else if self.pod_name.as_str().unicode_len() > 0 {
            hash_labels_to_identity(self.namespace.as_str(), &self.labels)
        } else if self.service_name.as_str().unicode_len() > 0 {
            let mut synthetic = String::new();
            synthetic.append("k8s:io.kubernetes.svc.name=");
            synthetic.append(self.service_name.as_str());
            let mut labels: Vec<String> = Vec::new();
            labels.push(synthetic);
            let r = hash_labels_to_identity(self.namespace.as_str(), &labels);
            proof {
                assert(labels.deep_view() =~= seq![
                    "k8s:io.kubernetes.svc.name="@ + self.service_name@,
                ]);
            }
            r
        } else {
            IDENTITY_WORLD
        }
    }
}

/// The display names of an identity value: `namespace/pod`,
/// `namespace/service`, the bare node name, or nothing.
pub open spec fn spec_names_of(id: IdentityView) -> Seq<Seq<char>> {
    if id.pod_name.len() > 0 {
        seq![id.namespace + "/"@ + id.pod_name]
    } else if id.service_name.len() > 0 {
        seq![id.namespace + "/"@ + id.service_name]
    } else if id.node_name.len() > 0 {
        seq![id.node_name]
    } else {
        Seq::empty()
    }
}

/// The display names of an identity: `namespace/pod`, `namespace/service`,
/// the bare node name, or nothing.
pub open spec fn spec_identity_names(id: &Identity) -> Seq<Seq<char>> {
    spec_names_of(id@)
}

/// Build the display names of an identity.
pub fn identity_names(id: &Identity) -> (r: Vec<String>)
    ensures
        r.deep_view() == spec_identity_names(id),
{
    let mut out: Vec<String> = Vec::new();
    if id.pod_name.as_str().unicode_len() > 0 {
        let mut s = String::new();
        s.append(id.namespace.as_str());
        s.append("/");
        s.append(id.pod_name.as_str());
        out.push(s);
        proof {
            assert(out.deep_view() =~= spec_identity_names(id));
        }
    } else if id.service_name.as_str().unicode_len() > 0 {
        let mut s = String::new();
        s.append(id.namespace.as_str());
        s.append("/");
        s.append(id.service_name.as_str());
        out.push(s);
        proof {
            assert(out.deep_view() =~= spec_identity_names(id));
        }
    } else if id.node_name.as_str().unicode_len() > 0 {
        let mut s = String::new();
        s.append(id.node_name.as_str());
        out.push(s);
        proof {
            assert(out.deep_view() =~= spec_identity_names(id));
        }
    } else {
        proof {
            assert(out.deep_view() =~= spec_identity_names(id));
        }
    }
    out
}

/// The reserved label attached for a reserved numeric identity, if any.
pub open spec fn spec_reserved_label_for(id: u32) -> Option<Seq<char>> {
    if id == IDENTITY_HOST {
        Some("reserved:host"@)
    } else if id == IDENTITY_WORLD {
        Some("reserved:world"@)
    } else if id == IDENTITY_REMOTE_NODE {
        Some("reserved:remote-node"@)
    } else if id == IDENTITY_KUBE_APISERVER {
        Some("reserved:kube-apiserver"@)
    } else {
        None
    }
}

/// Return the reserved label for a reserved numeric identity.
pub fn reserved_label_for(id: u32) -> (r: Option<String>)
    ensures
        match r {
            Some(l) => spec_reserved_label_for(id) == Some(l@),
            None => spec_reserved_label_for(id) is None,
        },
{
    if id == IDENTITY_HOST {
        Some(string_lit("reserved:host"))
    } else if id == IDENTITY_WORLD {
        Some(string_lit("reserved:world"))
    } else if id == IDENTITY_REMOTE_NODE {
        Some(string_lit("reserved:remote-node"))
    } else if id == IDENTITY_KUBE_APISERVER {
        Some(string_lit("reserved:kube-apiserver"))
    } else {
        None
    }
}

/// An owned copy of a string slice.
pub fn string_lit(s: &str) -> (r: String)
    ensures
        r@ == s@,
{
    let mut out = String::new();
    out.append(s);
    out
}

// ── Laws on the numeric identity ───────────────────────────────────────

/// Filtering respects multiset equality: permuted label sets keep the same
/// relevant labels, as a multiset.
proof fn lemma_filter_multiset(s1: Seq<Seq<char>>, s2: Seq<Seq<char>>, p: spec_fn(Seq<char>) -> bool)
    requires
        s1.to_multiset() == s2.to_multiset(),
    ensures
        s1.filter(p).to_multiset() == s2.filter(p).to_multiset(),
    decreases s1.len(),
{
    broadcast use vstd::seq_lib::group_to_multiset_ensures;

    if s1.len() == 0 {
        assert(s1.to_multiset().len() == s1.len());
        assert(s2.to_multiset().len() == s2.len());
        assert(s2.len() == 0);
        assert(s1 =~= s2);
    } else {
        let x = s1.last();
        assert(s1.to_multiset().count(x) > 0) by {
            assert(s1.contains(x));
        }
        assert(s2.contains(x)) by {
            assert(s2.to_multiset().count(x) > 0);
        }
        let i = choose|i: int| 0 <= i < s2.len() && s2[i] == x;
        let s2r = s2.remove(i);
        assert(s2r.to_multiset() =~= s2.to_multiset().remove(x));
        assert(s1.drop_last() =~= s1.remove(s1.len() - 1));
        assert(s1.drop_last().to_multiset() =~= s1.to_multiset().remove(x));
        lemma_filter_multiset(s1.drop_last(), s2r, p);

        reveal(Seq::filter);
        assert(s1.filter(p) == if p(x) {
            s1.drop_last().filter(p).push(x)
        } else {
            s1.drop_last().filter(p)
        });

        let left = s2.subrange(0, i);
        let mid = seq![x];
        let right = s2.subrange(i + 1, s2.len() as int);
        assert(s2 =~= (left + mid) + right);
        assert(s2r =~= left + right);
        Seq::filter_distributes_over_add(left + mid, right, p);
        Seq::filter_distributes_over_add(left, mid, p);
        Seq::filter_distributes_over_add(left, right, p);
        lemma_multiset_commutative(left.filter(p) + mid.filter(p), right.filter(p));
        lemma_multiset_commutative(left.filter(p), mid.filter(p));
        lemma_multiset_commutative(left.filter(p), right.filter(p));
        assert(mid.filter(p) == if p(x) {
            mid.drop_last().filter(p).push(x)
        } else {
            mid.drop_last().filter(p)
        });
        assert(mid.drop_last() =~= Seq::<Seq<char>>::empty());
        assert(Seq::<Seq<char>>::empty().filter(p) == Seq::<Seq<char>>::empty());
        if p(x) {
            assert(mid.filter(p) =~= Seq::<Seq<char>>::empty().push(x));
            assert(mid.filter(p).to_multiset() =~= Multiset::<Seq<char>>::empty().insert(x));
            assert(s2.filter(p).to_multiset() =~= s2r.filter(p).to_multiset().insert(x));
            assert(s1.filter(p).to_multiset() =~= s1.drop_last().filter(p).to_multiset().insert(
                x,
            ));
        } else {
            assert(mid.filter(p).to_multiset() =~= Multiset::<Seq<char>>::empty());
            assert(s2.filter(p).to_multiset() =~= s2r.filter(p).to_multiset());
            assert(s1.filter(p).to_multiset() =~= s1.drop_last().filter(p).to_multiset());
        }
    }
}

/// Filtering a sequence with nothing relevant leaves nothing.
proof fn lemma_filter_none(s: Seq<Seq<char>>, p: spec_fn(Seq<char>) -> bool)
    requires
        forall|i: int| 0 <= i < s.len() ==> !p(#[trigger] s[i]),
    ensures
        s.filter(p) == Seq::<Seq<char>>::empty(),
    decreases s.len(),
{
    reveal(Seq::filter);
    if s.len() > 0 {
        assert(forall|i: int| 0 <= i < s.len() - 1 ==> s.drop_last()[i] == s[i]);
        lemma_filter_none(s.drop_last(), p);
        assert(!p(s.last()));
    }
}

/// Reordering labels does not change the numeric identity.
pub proof fn lemma_identity_label_order_irrelevant(
    ns: Seq<char>,
    l1: Seq<Seq<char>>,
    l2: Seq<Seq<char>>,
)
    requires
        l1.to_multiset() == l2.to_multiset(),
    ensures
        cluster_identity(ns, l1) == cluster_identity(ns, l2),
{
    lemma_filter_multiset(l1, l2, relevant());
    lemma_lex_le_total();
    let f1 = l1.filter(relevant());
    let f2 = l2.filter(relevant());
    f1.lemma_sort_by_ensures(lex_leq());
    f2.lemma_sort_by_ensures(lex_leq());
    lemma_sorted_unique(f1.sort_by(lex_leq()), f2.sort_by(lex_leq()), lex_leq());
}

/// Appending only irrelevant labels does not change the numeric identity.
pub proof fn lemma_identity_ignores_irrelevant(
    ns: Seq<char>,
    labels: Seq<Seq<char>>,
    extra: Seq<Seq<char>>,
)
    requires
        forall|i: int| 0 <= i < extra.len() ==> is_irrelevant_label(#[trigger] extra[i]),
    ensures
        cluster_identity(ns, labels + extra) == cluster_identity(ns, labels),
{
    Seq::filter_distributes_over_add(labels, extra, relevant());
    lemma_filter_none(extra, relevant());
    assert(labels.filter(relevant()) + Seq::<Seq<char>>::empty() =~= labels.filter(relevant()));
    assert((labels + extra).filter(relevant()) == labels.filter(relevant()));
}

/// The numeric identity of any label set lies in the cluster-local range.
pub proof fn lemma_cluster_identity_range(ns: Seq<char>, labels: Seq<Seq<char>>)
    ensures
        MIN_CLUSTER_IDENTITY <= cluster_identity(ns, labels) <= MAX_CLUSTER_IDENTITY,
{
}

} // verus!
