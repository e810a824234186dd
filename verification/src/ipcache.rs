//! The agent-side IP-to-identity cache: one identity per address, a synced
//! flag that flips on the operator's sync marker, and the local node name
//! used to tell host from remote-node traffic.

use vstd::prelude::*;

verus! {

use crate::identity::{Identity, IdentityView, IDENTITY_KUBE_APISERVER};
use crate::net::IpAddress;
use crate::text::{str_eq, string_eq};
use vstd::string::StrSliceExecFns;
use crate::kvlist::{distinct_keys, contains_key, value_at, lemma_value_at_index, lemma_remove_entry, lemma_push_entry};

/// Change event emitted when cache entries are modified.
#[derive(Debug)]
pub enum IpCacheEvent {
    Upsert(IpAddress, Identity),
    Delete(IpAddress),
    Clear,
}

/// The mathematical value of a change event.
pub ghost enum IpCacheEventView {
    Upsert(IpAddress, IdentityView),
    Delete(IpAddress),
    Clear,
}

impl View for IpCacheEvent {
    type V = IpCacheEventView;

    open spec fn view(&self) -> IpCacheEventView {
        match self {
            IpCacheEvent::Upsert(ip, id) => IpCacheEventView::Upsert(*ip, id@),
            IpCacheEvent::Delete(ip) => IpCacheEventView::Delete(*ip),
            IpCacheEvent::Clear => IpCacheEventView::Clear,
        }
    }
}

impl Clone for IpCacheEvent {
    fn clone(&self) -> (r: Self)
        ensures
            r@ == self@,
    {
        match self {
            IpCacheEvent::Upsert(ip, id) => IpCacheEvent::Upsert(*ip, id.clone()),
            IpCacheEvent::Delete(ip) => IpCacheEvent::Delete(*ip),
            IpCacheEvent::Clear => IpCacheEvent::Clear,
        }
    }
}

/// IP-to-identity cache populated from the operator stream, with the
/// history of every change event broadcast to subscribers. A subscriber's
/// stream is the history from its subscription position on.
pub struct IpCache {
    entries: Vec<(IpAddress, Identity)>,
    synced: bool,
    local_node_name: String,
    history: Vec<IpCacheEvent>,
}

/// The reserved kube-apiserver identity overrides the hash for the
/// `kubernetes` service in the `default` namespace.
pub open spec fn spec_resolved_identity(id: IdentityView) -> u32 {
    if id.namespace == "default"@ && id.service_name == "kubernetes"@ {
        IDENTITY_KUBE_APISERVER
    } else {
        spec_numeric_identity_of(id)
    }
}

/// The numeric identity of an identity view, mirroring
/// `Identity::spec_numeric_identity`.
pub open spec fn spec_numeric_identity_of(id: IdentityView) -> u32 {
    if id.node_name.len() > 0 {
        crate::identity::cluster_identity(
            Seq::empty(),
            seq!["k8s:io.kubernetes.node.name="@ + id.node_name],
        )
    } else if id.pod_name.len() > 0 {
        crate::identity::cluster_identity(id.namespace, id.labels)
    } else if id.service_name.len() > 0 {
        crate::identity::cluster_identity(
            id.namespace,
            seq!["k8s:io.kubernetes.svc.name="@ + id.service_name],
        )
    } else {
        crate::identity::IDENTITY_WORLD
    }
}

impl IpCache {
    /// The entry list, as a mathematical value.
    pub closed spec fn spec_entries(&self) -> Seq<(IpAddress, Identity)> {
        self.entries@
    }

    /// No address appears twice.
    pub open spec fn wf(&self) -> bool {
        distinct_keys(self.spec_entries())
    }

    /// The cache holds an entry for this address.
    pub open spec fn spec_contains(&self, ip: IpAddress) -> bool {
        contains_key(self.spec_entries(), ip)
    }

    /// The identity mapped to this address.
    pub open spec fn spec_at(&self, ip: IpAddress) -> IdentityView {
        value_at(self.spec_entries(), ip)@
    }

    /// Number of entries.
    pub open spec fn spec_len(&self) -> nat {
        self.spec_entries().len()
    }

    pub closed spec fn spec_synced(&self) -> bool {
        self.synced
    }

    pub closed spec fn spec_local_node_name(&self) -> Seq<char> {
        self.local_node_name@
    }

    /// The broadcast events, in emission order.
    pub closed spec fn spec_history_raw(&self) -> Seq<IpCacheEvent> {
        self.history@
    }

    /// The broadcast events, as mathematical values.
    pub open spec fn spec_history(&self) -> Seq<IpCacheEventView> {
        Seq::new(self.spec_history_raw().len(), |i: int| self.spec_history_raw()[i]@)
    }

    /// An empty, unsynced cache.
    pub fn new() -> (r: Self)
        ensures
            r.wf(),
            !r.spec_synced(),
            r.spec_len() == 0,
            forall|ip: IpAddress| !r.spec_contains(ip),
            r.spec_local_node_name() == Seq::<char>::empty(),
            r.spec_history() == Seq::<IpCacheEventView>::empty(),
    {
        let r = IpCache {
            entries: Vec::new(),
            synced: false,
            local_node_name: String::new(),
            history: Vec::new(),
        };
        proof {
            assert(r.spec_history() =~= Seq::<IpCacheEventView>::empty());
        }
        r
    }

    /// Set the local node name, used to distinguish host from remote node.
    pub fn set_local_node_name(&mut self, name: String)
        ensures
            final(self).spec_local_node_name() == name@,
            final(self).spec_entries() == old(self).spec_entries(),
            final(self).spec_synced() == old(self).spec_synced(),
            final(self).spec_history() == old(self).spec_history(),
    {
        self.local_node_name = name;
    }

    /// Return the local node name.
    pub fn local_node_name(&self) -> (r: String)
        ensures
            r@ == self.spec_local_node_name(),
    {
        self.local_node_name.clone()
    }

    /// Index of the entry for `ip`, if any.
    fn find(&self, ip: IpAddress) -> (r: Option<usize>)
        ensures
            match r {
                Some(i) => i < self.entries@.len() && self.entries@[i as int].0 == ip,
                None => !self.spec_contains(ip),
            },
    {
        let mut i: usize = 0;
        while i < self.entries.len()
            invariant
                i <= self.entries@.len(),
                forall|j: int| 0 <= j < i ==> (#[trigger] self.entries@[j]).0 != ip,
            decreases self.entries@.len() - i,
        {
            if self.entries[i].0 == ip {
                return Some(i);
            }
            i = i + 1;
        }
        None
    }

    /// Map `ip` to `identity`, replacing any previous entry, and broadcast
    /// one upsert event.
    pub fn upsert(&mut self, ip: IpAddress, identity: Identity)
        requires
            old(self).wf(),
        ensures
            final(self).wf(),
            final(self).spec_contains(ip),
            final(self).spec_at(ip) == identity@,
            forall|other: IpAddress|
                other != ip ==> final(self).spec_contains(other) == old(self).spec_contains(
                    other,
                ),
            forall|other: IpAddress|
                other != ip && old(self).spec_contains(other) ==> #[trigger] final(self).spec_at(
                    other,
                ) == old(self).spec_at(other),
            final(self).spec_len() == if old(self).spec_contains(ip) {
                old(self).spec_len() as int
            } else {
                old(self).spec_len() + 1int
            },
            final(self).spec_synced() == old(self).spec_synced(),
            final(self).spec_local_node_name() == old(self).spec_local_node_name(),
            final(self).spec_history() == old(self).spec_history().push(
                IpCacheEventView::Upsert(ip, identity@),
            ),
    {
        let event_identity = identity.clone();
        let ghost pre = self.entries@;
        match self.find(ip) {
            Some(i) => {
                proof {
                    lemma_remove_entry(pre, i as int);
                }
                self.entries.remove(i);
                proof {
                    assert(self.entries@ =~= pre.remove(i as int));
                }
            },
            None => {
            },
        }
        let ghost mid = self.entries@;
        proof {
            lemma_push_entry(mid, ip, identity);
        }
        self.entries.push((ip, identity));
        proof {
            assert(self.entries@ =~= mid.push((ip, identity)));
        }
        let ghost hpre = self.history@;
        self.history.push(IpCacheEvent::Upsert(ip, event_identity));
        proof {
            assert(final(self).spec_history() =~= Seq::new(hpre.len(), |i: int| hpre[i]@).push(
                IpCacheEventView::Upsert(ip, identity@),
            ));
            assert(Seq::new(hpre.len(), |i: int| hpre[i]@) =~= old(self).spec_history());
        }
    }

    /// Remove the entry for `ip`, broadcasting one delete event exactly
    /// when an entry was there to remove. Returns whether it was.
    pub fn delete(&mut self, ip: IpAddress) -> (removed: bool)
        requires
            old(self).wf(),
        ensures
            final(self).wf(),
            removed == old(self).spec_contains(ip),
            !final(self).spec_contains(ip),
            forall|other: IpAddress|
                other != ip ==> final(self).spec_contains(other) == old(self).spec_contains(
                    other,
                ),
            forall|other: IpAddress|
                other != ip && old(self).spec_contains(other) ==> #[trigger] final(self).spec_at(
                    other,
                ) == old(self).spec_at(other),
            final(self).spec_len() == if old(self).spec_contains(ip) {
                old(self).spec_len() - 1
            } else {
                old(self).spec_len() as int
            },
            final(self).spec_synced() == old(self).spec_synced(),
            final(self).spec_local_node_name() == old(self).spec_local_node_name(),
            final(self).spec_history() == if old(self).spec_contains(ip) {
                old(self).spec_history().push(IpCacheEventView::Delete(ip))
            } else {
                old(self).spec_history()
            },
    {
        let ghost pre = self.entries@;
        match self.find(ip) {
            Some(i) => {
                proof {
                    lemma_remove_entry(pre, i as int);
                    assert(contains_key(pre, ip)) by {
                        assert(pre[i as int].0 == ip);
                    }
                }
                self.entries.remove(i);
                let ghost hpre = self.history@;
                self.history.push(IpCacheEvent::Delete(ip));
                proof {
                    assert(self.entries@ =~= pre.remove(i as int));
                    assert(final(self).spec_history() =~= Seq::new(
                        hpre.len(),
                        |i: int| hpre[i]@,
                    ).push(IpCacheEventView::Delete(ip)));
                    assert(Seq::new(hpre.len(), |i: int| hpre[i]@) =~= old(self).spec_history());
                }
                true
            },
            None => false,
        }
    }

    /// Look up one address.
    pub fn get(&self, ip: IpAddress) -> (r: Option<Identity>)
        requires
            self.wf(),
        ensures
            match r {
                Some(id) => self.spec_contains(ip) && id@ == self.spec_at(ip),
                None => !self.spec_contains(ip),
            },
    {
        match self.find(ip) {
            Some(i) => {
                proof {
                    lemma_value_at_index(self.entries@, i as int);
                }
                Some(self.entries[i].1.clone())
            },
            None => None,
        }
    }

    /// Look up two addresses at once (the enrichment hot path).
    pub fn get_pair(&self, ip1: IpAddress, ip2: IpAddress) -> (r: (Option<Identity>, Option<
        Identity,
    >))
        requires
            self.wf(),
        ensures
            match r.0 {
                Some(id) => self.spec_contains(ip1) && id@ == self.spec_at(ip1),
                None => !self.spec_contains(ip1),
            },
            match r.1 {
                Some(id) => self.spec_contains(ip2) && id@ == self.spec_at(ip2),
                None => !self.spec_contains(ip2),
            },
    {
        (self.get(ip1), self.get(ip2))
    }

    /// Flip the synced flag after the operator's snapshot is complete.
    pub fn mark_synced(&mut self)
        ensures
            final(self).spec_synced(),
            final(self).spec_entries() == old(self).spec_entries(),
            final(self).spec_local_node_name() == old(self).spec_local_node_name(),
            final(self).spec_history() == old(self).spec_history(),
    {
        self.synced = true;
    }

    pub fn is_synced(&self) -> (r: bool)
        ensures
            r == self.spec_synced(),
    {
        self.synced
    }

    /// Subscribe to change events: the position in the history from which
    /// this subscriber observes every later event.
    pub fn subscribe(&self) -> (r: usize)
        ensures
            r == self.spec_history().len(),
    {
        self.history.len()
    }

    /// The events a subscriber at `pos` has observed so far.
    pub fn events_since(&self, pos: usize) -> (r: Vec<IpCacheEvent>)
        requires
            pos <= self.spec_history().len(),
        ensures
            r@.len() == self.spec_history().len() - pos,
            forall|i: int|
                0 <= i < r@.len() ==> (#[trigger] r@[i])@ == self.spec_history()[pos + i],
    {
        let mut out: Vec<IpCacheEvent> = Vec::new();
        let mut i: usize = pos;
        while i < self.history.len()
            invariant
                pos <= i <= self.history@.len(),
                out@.len() == i - pos,
                forall|j: int|
                    0 <= j < out@.len() ==> (#[trigger] out@[j])@ == self.spec_history()[pos + j],
            decreases self.history@.len() - i,
        {
            proof {
                assert(self.spec_history()[i as int] == self.history@[i as int]@);
            }
            out.push(self.history[i].clone());
            i = i + 1;
        }
        out
    }

    /// Drop all entries, mark unsynced, and broadcast one clear event.
    /// Used on an unclean disconnect only: after a graceful shutdown
    /// sentinel the cache is preserved instead (see the stream-end rule).
    pub fn clear(&mut self)
        ensures
            final(self).wf(),
            !final(self).spec_synced(),
            final(self).spec_len() == 0,
            forall|ip: IpAddress| !final(self).spec_contains(ip),
            final(self).spec_local_node_name() == old(self).spec_local_node_name(),
            final(self).spec_history() == old(self).spec_history().push(IpCacheEventView::Clear),
    {
        self.synced = false;
        self.entries = Vec::new();
        let ghost hpre = self.history@;
        self.history.push(IpCacheEvent::Clear);
        proof {
            assert(final(self).spec_history() =~= Seq::new(hpre.len(), |i: int| hpre[i]@).push(
                IpCacheEventView::Clear,
            ));
            assert(Seq::new(hpre.len(), |i: int| hpre[i]@) =~= old(self).spec_history());
        }
    }

    /// Number of entries.
    pub fn len(&self) -> (r: usize)
        ensures
            r == self.spec_len(),
    {
        self.entries.len()
    }

    /// Snapshot of all entries, one pair per address, in table order.
    pub fn dump(&self) -> (r: Vec<(IpAddress, Identity)>)
        requires
            self.wf(),
        ensures
            r@.len() == self.spec_len(),
            forall|i: int|
                0 <= i < r@.len() ==> self.spec_contains((#[trigger] r@[i]).0) && r@[i].1@
                    == self.spec_at(r@[i].0),
            forall|i: int|
                0 <= i < r@.len() ==> (#[trigger] r@[i]).0 == self.spec_entries()[i].0 && r@[i].1@
                    == self.spec_entries()[i].1@,
            forall|i: int, j: int| 0 <= i < j < r@.len() ==> (#[trigger] r@[i]).0 != (
            #[trigger] r@[j]).0,
            forall|a: IpAddress|
                self.spec_contains(a) ==> exists|i: int| 0 <= i < r@.len() && (#[trigger] r@[i]).0
                    == a,
    {
        let mut out: Vec<(IpAddress, Identity)> = Vec::new();
        let mut i: usize = 0;
        while i < self.entries.len()
            invariant
                self.wf(),
                i <= self.entries@.len(),
                out@.len() == i,
                forall|j: int|
                    0 <= j < i ==> self.spec_contains((#[trigger] out@[j]).0) && out@[j].1@
                        == self.spec_at(out@[j].0),
                forall|j: int|
                    0 <= j < i ==> (#[trigger] out@[j]).0 == self.spec_entries()[j].0
                        && out@[j].1@ == self.spec_entries()[j].1@,
            decreases self.entries@.len() - i,
        {
            proof {
                lemma_value_at_index(self.entries@, i as int);
            }
            out.push((self.entries[i].0, self.entries[i].1.clone()));
            i = i + 1;
        }
        proof {
            assert forall|a: IpAddress| self.spec_contains(a) implies exists|i: int|
                0 <= i < out@.len() && (#[trigger] out@[i]).0 == a by {
                let k = choose|k: int|
                    0 <= k < self.spec_entries().len() && (#[trigger] self.spec_entries()[k]).0
                        == a;
                assert(out@[k].0 == a);
            }
        }
        out
    }

    /// All node entries as (node name, address) pairs, exactly one per
    /// distinct non-empty node name in the cache.
    pub fn get_node_peers(&self) -> (r: Vec<(String, IpAddress)>)
        requires
            self.wf(),
        ensures
            forall|i: int|
                0 <= i < r@.len() ==> self.spec_contains((#[trigger] r@[i]).1) && self.spec_at(
                    r@[i].1,
                ).node_name == r@[i].0@ && r@[i].0@.len() > 0,
            forall|i: int, j: int| 0 <= i < j < r@.len() ==> (#[trigger] r@[i]).0@ != (
            #[trigger] r@[j]).0@,
            forall|a: IpAddress|
                self.spec_contains(a) && self.spec_at(a).node_name.len() > 0 ==> exists|j: int|
                    0 <= j < r@.len() && (#[trigger] r@[j]).0@ == self.spec_at(a).node_name,
    {
        let mut out: Vec<(String, IpAddress)> = Vec::new();
        let mut i: usize = 0;
        while i < self.entries.len()
            invariant
                self.wf(),
                i <= self.entries@.len(),
                forall|k: int|
                    0 <= k < out@.len() ==> self.spec_contains((#[trigger] out@[k]).1)
                        && self.spec_at(out@[k].1).node_name == out@[k].0@ && out@[k].0@.len()
                        > 0,
                forall|a: int, b: int| 0 <= a < b < out@.len() ==> (#[trigger] out@[a]).0@ != (
                #[trigger] out@[b]).0@,
                forall|j: int|
                    0 <= j < i && (#[trigger] self.spec_entries()[j]).1@.node_name.len() > 0
                        ==> exists|m: int|
                        0 <= m < out@.len() && (#[trigger] out@[m]).0@
                            == self.spec_entries()[j].1@.node_name,
            decreases self.entries@.len() - i,
        {
            let name_len = self.entries[i].1.node_name.as_str().unicode_len();
            if name_len > 0 {
                let mut seen = false;
                let mut k: usize = 0;
                while k < out.len()
                    invariant
                        k <= out@.len(),
                        i < self.entries@.len(),
                        seen == exists|a: int|
                            0 <= a < k && (#[trigger] out@[a]).0@ == self.entries@[i as int].1@
                                .node_name,
                    decreases out@.len() - k,
                {
                    if string_eq(&out[k].0, &self.entries[i].1.node_name) {
                        proof {
                            assert(out@[k as int].0@ == self.entries@[i as int].1@.node_name);
                        }
                        seen = true;
                    }
                    k = k + 1;
                }
                if !seen {
                    proof {
                        lemma_value_at_index(self.entries@, i as int);
                    }
                    let ghost out0 = out@;
                    out.push((self.entries[i].1.node_name.clone(), self.entries[i].0));
                    proof {
                        assert(out@[out@.len() - 1].0@ == self.spec_entries()[i as int].1@
                            .node_name);
                        assert forall|j: int|
                            0 <= j < i + 1 && (#[trigger] self.spec_entries()[j]).1@.node_name.len()
                                > 0 implies exists|m: int|
                            0 <= m < out@.len() && (#[trigger] out@[m]).0@
                                == self.spec_entries()[j].1@.node_name by {
                            if j < i {
                                let m0 = choose|m0: int|
                                    0 <= m0 < out0.len() && (#[trigger] out0[m0]).0@
                                        == self.spec_entries()[j].1@.node_name;
                                assert(out@[m0].0@ == self.spec_entries()[j].1@.node_name);
                            }
                        }
                    }
                } else {
                    proof {
                        let m0 = choose|m0: int|
                            0 <= m0 < out@.len() && (#[trigger] out@[m0]).0@
                                == self.entries@[i as int].1@.node_name;
                        assert(out@[m0].0@ == self.spec_entries()[i as int].1@.node_name);
                    }
                }
            }
            i = i + 1;
        }
        proof {
            assert forall|a: IpAddress|
                self.spec_contains(a) && self.spec_at(a).node_name.len() > 0 implies exists|j: int|
                0 <= j < out@.len() && (#[trigger] out@[j]).0@ == self.spec_at(a).node_name by {
                let k = choose|k: int|
                    0 <= k < self.spec_entries().len() && (#[trigger] self.spec_entries()[k]).0
                        == a;
                lemma_value_at_index(self.spec_entries(), k);
            }
        }
        out
    }

    /// Resolve the numeric identity, applying the kube-apiserver override.
    pub fn resolve_identity_with_local(&self, id: &Identity, local_node_name: &str) -> (r: u32)
        ensures
            r == spec_resolved_identity(id@),
    {
        if str_eq(id.namespace.as_str(), "default") && str_eq(
            id.service_name.as_str(),
            "kubernetes",
        ) {
            IDENTITY_KUBE_APISERVER
        } else {
            id.numeric_identity()
        }
    }
}

} // verus!
