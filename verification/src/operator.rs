//! The operator's canonical IP-to-identity state: watcher-driven upserts
//! and kind-guarded deletes, a consistent snapshot, and the broadcast
//! history that streaming agents subscribe to.

use vstd::prelude::*;

verus! {

use crate::kvlist::{distinct_keys, contains_key, value_at, lemma_value_at_index,
    lemma_remove_entry, lemma_push_entry};
use crate::net::IpAddress;
use crate::text::string_eq;
use vstd::string::StrSliceExecFns;

/// Kind of resource that owns an IP cache entry.
#[derive(Clone, Copy, PartialEq, Eq, Structural, Debug)]
pub enum ResourceKind {
    Pod,
    Service,
    Node,
}

/// An owner reference carried along with a cached identity.
#[derive(Debug)]
pub struct CachedWorkload {
    pub name: String,
    pub kind: String,
}

/// The mathematical value of a cached workload.
pub ghost struct CachedWorkloadView {
    pub name: Seq<char>,
    pub kind: Seq<char>,
}

impl View for CachedWorkload {
    type V = CachedWorkloadView;

    open spec fn view(&self) -> CachedWorkloadView {
        CachedWorkloadView { name: self.name@, kind: self.kind@ }
    }
}

impl Clone for CachedWorkload {
    fn clone(&self) -> (r: Self)
        ensures
            r@ == self@,
    {
        CachedWorkload { name: self.name.clone(), kind: self.kind.clone() }
    }
}

/// An identity together with the kind of resource that owns it, used to
/// refuse cross-resource deletes on a shared address.
#[derive(Debug)]
pub struct CachedIdentity {
    pub resource_kind: ResourceKind,
    pub namespace: String,
    pub pod_name: String,
    pub service_name: String,
    pub node_name: String,
    pub labels: Vec<String>,
    pub workloads: Vec<CachedWorkload>,
}

/// The mathematical value of a cached identity.
pub ghost struct CachedIdentityView {
    pub resource_kind: ResourceKind,
    pub namespace: Seq<char>,
    pub pod_name: Seq<char>,
    pub service_name: Seq<char>,
    pub node_name: Seq<char>,
    pub labels: Seq<Seq<char>>,
    pub workloads: Seq<CachedWorkloadView>,
}

impl View for CachedIdentity {
    type V = CachedIdentityView;

    open spec fn view(&self) -> CachedIdentityView {
        CachedIdentityView {
            resource_kind: self.resource_kind,
            namespace: self.namespace@,
            pod_name: self.pod_name@,
            service_name: self.service_name@,
            node_name: self.node_name@,
            labels: self.labels.deep_view(),
            workloads: Seq::new(self.workloads@.len(), |i: int| self.workloads@[i]@),
        }
    }
}

/// Clone a cached workload list, keeping its value.
pub fn clone_workload_list(ws: &Vec<CachedWorkload>) -> (r: Vec<CachedWorkload>)
    ensures
        r@.len() == ws@.len(),
        forall|i: int| 0 <= i < ws@.len() ==> #[trigger] r@[i]@ == ws@[i]@,
{
    let mut out: Vec<CachedWorkload> = Vec::new();
    let mut i: usize = 0;
    while i < ws.len()
        invariant
            i <= ws@.len(),
            out@.len() == i,
            forall|j: int| 0 <= j < i ==> #[trigger] out@[j]@ == ws@[j]@,
        decreases ws@.len() - i,
    {
        out.push(ws[i].clone());
        i = i + 1;
    }
    out
}

impl Clone for CachedIdentity {
    fn clone(&self) -> (r: Self)
        ensures
            r@ == self@,
    {
        let r = CachedIdentity {
            resource_kind: self.resource_kind,
            namespace: self.namespace.clone(),
            pod_name: self.pod_name.clone(),
            service_name: self.service_name.clone(),
            node_name: self.node_name.clone(),
            labels: crate::identity::clone_labels(&self.labels),
            workloads: clone_workload_list(&self.workloads),
        };
        proof {
            assert(Seq::new(r.workloads@.len(), |i: int| r.workloads@[i]@) =~= Seq::new(
                self.workloads@.len(),
                |i: int| self.workloads@[i]@,
            ));
        }
        r
    }
}

/// Decide value equality of two cached identities.
pub fn cached_identities_equal(a: &CachedIdentity, b: &CachedIdentity) -> (r: bool)
    ensures
        r == (a@ == b@),
{
    if a.resource_kind != b.resource_kind {
        return false;
    }
    if !string_eq(&a.namespace, &b.namespace) || !string_eq(&a.pod_name, &b.pod_name)
        || !string_eq(&a.service_name, &b.service_name) || !string_eq(
        &a.node_name,
        &b.node_name,
    ) {
        return false;
    }
    if a.labels.len() != b.labels.len() {
        assert(a@.labels.len() != b@.labels.len());
        return false;
    }
    let mut i: usize = 0;
    while i < a.labels.len()
        invariant
            i <= a.labels@.len(),
            a.labels@.len() == b.labels@.len(),
            forall|j: int| 0 <= j < i ==> #[trigger] a.labels.deep_view()[j] == b.labels.deep_view()[j],
        decreases a.labels@.len() - i,
    {
        proof {
            assert(a.labels.deep_view()[i as int] == a.labels@[i as int]@);
            assert(b.labels.deep_view()[i as int] == b.labels@[i as int]@);
        }
        if !string_eq(&a.labels[i], &b.labels[i]) {
            return false;
        }
        i = i + 1;
    }
    proof {
        assert(a.labels.deep_view() =~= b.labels.deep_view());
    }
    if a.workloads.len() != b.workloads.len() {
        assert(a@.workloads.len() != b@.workloads.len());
        return false;
    }
    let mut k: usize = 0;
    while k < a.workloads.len()
        invariant
            k <= a.workloads@.len(),
            a.workloads@.len() == b.workloads@.len(),
            forall|j: int| 0 <= j < k ==> #[trigger] a.workloads@[j]@ == b.workloads@[j]@,
        decreases a.workloads@.len() - k,
    {
        if !string_eq(&a.workloads[k].name, &b.workloads[k].name) || !string_eq(
            &a.workloads[k].kind,
            &b.workloads[k].kind,
        ) {
            proof {
                assert(a.workloads@[k as int]@ != b.workloads@[k as int]@);
                assert(a@.workloads[k as int] == a.workloads@[k as int]@);
                assert(b@.workloads[k as int] == b.workloads@[k as int]@);
                assert(a@.workloads != b@.workloads);
            }
            return false;
        }
        k = k + 1;
    }
    proof {
        assert(Seq::new(a.workloads@.len(), |i: int| a.workloads@[i]@) =~= Seq::new(
            b.workloads@.len(),
            |i: int| b.workloads@[i]@,
        ));
    }
    true
}

/// Kind of a streamed update.
#[derive(Clone, Copy, PartialEq, Eq, Structural, Debug)]
pub enum UpdateType {
    Upsert,
    Delete,
    SyncComplete,
    Shutdown,
}

/// One message of the operator-to-agent stream.
#[derive(Debug)]
pub struct IpCacheUpdate {
    pub update_type: UpdateType,
    pub ip: Option<IpAddress>,
    pub namespace: String,
    pub pod_name: String,
    pub service_name: String,
    pub node_name: String,
    pub labels: Vec<String>,
    pub workloads: Vec<CachedWorkload>,
}

/// The mathematical value of a streamed update.
pub ghost struct IpCacheUpdateView {
    pub update_type: UpdateType,
    pub ip: Option<IpAddress>,
    pub namespace: Seq<char>,
    pub pod_name: Seq<char>,
    pub service_name: Seq<char>,
    pub node_name: Seq<char>,
    pub labels: Seq<Seq<char>>,
    pub workloads: Seq<CachedWorkloadView>,
}

impl View for IpCacheUpdate {
    type V = IpCacheUpdateView;

    open spec fn view(&self) -> IpCacheUpdateView {
        IpCacheUpdateView {
            update_type: self.update_type,
            ip: self.ip,
            namespace: self.namespace@,
            pod_name: self.pod_name@,
            service_name: self.service_name@,
            node_name: self.node_name@,
            labels: self.labels.deep_view(),
            workloads: Seq::new(self.workloads@.len(), |i: int| self.workloads@[i]@),
        }
    }
}

impl Clone for IpCacheUpdate {
    fn clone(&self) -> (r: Self)
        ensures
            r@ == self@,
    {
        let r = IpCacheUpdate {
            update_type: self.update_type,
            ip: self.ip,
            namespace: self.namespace.clone(),
            pod_name: self.pod_name.clone(),
            service_name: self.service_name.clone(),
            node_name: self.node_name.clone(),
            labels: crate::identity::clone_labels(&self.labels),
            workloads: clone_workload_list(&self.workloads),
        };
        proof {
            assert(Seq::new(r.workloads@.len(), |i: int| r.workloads@[i]@) =~= Seq::new(
                self.workloads@.len(),
                |i: int| self.workloads@[i]@,
            ));
        }
        r
    }
}

/// The upsert message announcing one identity.
pub open spec fn spec_upsert_update(ip: IpAddress, id: CachedIdentityView) -> IpCacheUpdateView {
    IpCacheUpdateView {
        update_type: UpdateType::Upsert,
        ip: Some(ip),
        namespace: id.namespace,
        pod_name: id.pod_name,
        service_name: id.service_name,
        node_name: id.node_name,
        labels: id.labels,
        workloads: id.workloads,
    }
}

/// The delete message announcing one removed address.
pub open spec fn spec_delete_update(ip: IpAddress) -> IpCacheUpdateView {
    IpCacheUpdateView {
        update_type: UpdateType::Delete,
        ip: Some(ip),
        namespace: Seq::empty(),
        pod_name: Seq::empty(),
        service_name: Seq::empty(),
        node_name: Seq::empty(),
        labels: Seq::empty(),
        workloads: Seq::empty(),
    }
}

/// The terminator telling an agent its snapshot is complete.
pub open spec fn spec_sync_complete_update() -> IpCacheUpdateView {
    IpCacheUpdateView {
        update_type: UpdateType::SyncComplete,
        ip: None,
        namespace: Seq::empty(),
        pod_name: Seq::empty(),
        service_name: Seq::empty(),
        node_name: Seq::empty(),
        labels: Seq::empty(),
        workloads: Seq::empty(),
    }
}

/// The shutdown sentinel preserving agent caches across a restart.
pub open spec fn spec_shutdown_update() -> IpCacheUpdateView {
    IpCacheUpdateView {
        update_type: UpdateType::Shutdown,
        ip: None,
        namespace: Seq::empty(),
        pod_name: Seq::empty(),
        service_name: Seq::empty(),
        node_name: Seq::empty(),
        labels: Seq::empty(),
        workloads: Seq::empty(),
    }
}

fn make_upsert_update(ip: IpAddress, id: &CachedIdentity) -> (r: IpCacheUpdate)
    ensures
        r@ == spec_upsert_update(ip, id@),
{
    let r = IpCacheUpdate {
        update_type: UpdateType::Upsert,
        ip: Some(ip),
        namespace: id.namespace.clone(),
        pod_name: id.pod_name.clone(),
        service_name: id.service_name.clone(),
        node_name: id.node_name.clone(),
        labels: crate::identity::clone_labels(&id.labels),
        workloads: clone_workload_list(&id.workloads),
    };
    proof {
        assert(Seq::new(r.workloads@.len(), |i: int| r.workloads@[i]@) =~= Seq::new(
            id.workloads@.len(),
            |i: int| id.workloads@[i]@,
        ));
    }
    r
}

fn make_delete_update(ip: IpAddress) -> (r: IpCacheUpdate)
    ensures
        r@ == spec_delete_update(ip),
{
    let r = IpCacheUpdate {
        update_type: UpdateType::Delete,
        ip: Some(ip),
        namespace: String::new(),
        pod_name: String::new(),
        service_name: String::new(),
        node_name: String::new(),
        labels: Vec::new(),
        workloads: Vec::new(),
    };
    proof {
        assert(r@.labels =~= Seq::<Seq<char>>::empty());
        assert(r@.workloads =~= Seq::<CachedWorkloadView>::empty());
    }
    r
}

/// Canonical operator state: one identity per address, plus the history of
/// every update emitted on the broadcast path. A subscriber's stream is
/// the history from its subscription position on.
pub struct OperatorState {
    cache: Vec<(IpAddress, CachedIdentity)>,
    history: Vec<IpCacheUpdate>,
    upserts_total: u64,
    upserts_skipped: u64,
    deletes_total: u64,
    connected_agents: u64,
}

impl OperatorState {
    pub closed spec fn spec_cache(&self) -> Seq<(IpAddress, CachedIdentity)> {
        self.cache@
    }

    /// The emitted updates, in emission order.
    pub closed spec fn spec_history_raw(&self) -> Seq<IpCacheUpdate> {
        self.history@
    }

    /// The emitted updates, as mathematical values.
    pub open spec fn spec_history(&self) -> Seq<IpCacheUpdateView> {
        Seq::new(self.spec_history_raw().len(), |i: int| self.spec_history_raw()[i]@)
    }

    pub open spec fn wf(&self) -> bool {
        distinct_keys(self.spec_cache())
    }

    pub open spec fn spec_contains(&self, ip: IpAddress) -> bool {
        contains_key(self.spec_cache(), ip)
    }

    pub open spec fn spec_at(&self, ip: IpAddress) -> CachedIdentityView {
        value_at(self.spec_cache(), ip)@
    }

    pub open spec fn spec_len(&self) -> nat {
        self.spec_cache().len()
    }

    pub closed spec fn spec_upserts_total(&self) -> u64 {
        self.upserts_total
    }

    pub closed spec fn spec_upserts_skipped(&self) -> u64 {
        self.upserts_skipped
    }

    pub closed spec fn spec_deletes_total(&self) -> u64 {
        self.deletes_total
    }

    pub closed spec fn spec_connected_agents(&self) -> u64 {
        self.connected_agents
    }

    /// Count of effective upserts.
    pub fn upserts_total(&self) -> (r: u64)
        ensures
            r == self.spec_upserts_total(),
    {
        self.upserts_total
    }

    /// Count of upserts skipped because the identity was unchanged.
    pub fn upserts_skipped(&self) -> (r: u64)
        ensures
            r == self.spec_upserts_skipped(),
    {
        self.upserts_skipped
    }

    /// Count of effective deletes.
    pub fn deletes_total(&self) -> (r: u64)
        ensures
            r == self.spec_deletes_total(),
    {
        self.deletes_total
    }

    /// Number of currently connected agents.
    pub fn connected_agents(&self) -> (r: u64)
        ensures
            r == self.spec_connected_agents(),
    {
        self.connected_agents
    }

    /// Count one more connected agent.
    pub fn agent_connected(&mut self)
        ensures
            final(self).spec_connected_agents() == crate::conntrack::sat_add_u64(
                old(self).spec_connected_agents(),
                1,
            ),
            final(self).spec_cache() == old(self).spec_cache(),
            final(self).spec_history() == old(self).spec_history(),
    {
        self.connected_agents = crate::conntrack::sat_add64(self.connected_agents, 1);
    }

    /// Count one agent gone, as the per-stream guard does on every exit
    /// path.
    pub fn agent_disconnected(&mut self)
        ensures
            final(self).spec_connected_agents() == if old(self).spec_connected_agents() > 0 {
                (old(self).spec_connected_agents() - 1) as u64
            } else {
                0u64
            },
            final(self).spec_cache() == old(self).spec_cache(),
            final(self).spec_history() == old(self).spec_history(),
    {
        if self.connected_agents > 0 {
            self.connected_agents = self.connected_agents - 1;
        }
    }

    /// An empty state with no history.
    pub fn new() -> (r: Self)
        ensures
            r.wf(),
            r.spec_len() == 0,
            forall|ip: IpAddress| !r.spec_contains(ip),
            r.spec_history() == Seq::<IpCacheUpdateView>::empty(),
            r.spec_upserts_total() == 0,
            r.spec_upserts_skipped() == 0,
            r.spec_deletes_total() == 0,
            r.spec_connected_agents() == 0,
    {
        let r = OperatorState {
            cache: Vec::new(),
            history: Vec::new(),
            upserts_total: 0,
            upserts_skipped: 0,
            deletes_total: 0,
            connected_agents: 0,
        };
        proof {
            assert(r.spec_history() =~= Seq::<IpCacheUpdateView>::empty());
        }
        r
    }

    fn find(&self, ip: IpAddress) -> (r: Option<usize>)
        ensures
            match r {
                Some(i) => i < self.spec_cache().len() && self.spec_cache()[i as int].0 == ip,
                None => !self.spec_contains(ip),
            },
    {
        let mut i: usize = 0;
        while i < self.cache.len()
            invariant
                i <= self.cache@.len(),
                forall|j: int| 0 <= j < i ==> (#[trigger] self.cache@[j]).0 != ip,
            decreases self.cache@.len() - i,
        {
            if self.cache[i].0 == ip {
                return Some(i);
            }
            i = i + 1;
        }
        None
    }

    /// Map `ip` to `identity`. An unchanged identity is counted as skipped
    /// and emits nothing; a change replaces the entry and emits an upsert
    /// message.
    pub fn upsert(&mut self, ip: IpAddress, identity: CachedIdentity)
        requires
            old(self).wf(),
        ensures
            final(self).wf(),
            final(self).spec_contains(ip),
            final(self).spec_at(ip) == identity@,
            forall|other: IpAddress|
                other != ip ==> final(self).spec_contains(other) == old(self).spec_contains(
                    other,
                ),
            forall|other: IpAddress|
                other != ip && old(self).spec_contains(other) ==> #[trigger] final(self).spec_at(
                    other,
                ) == old(self).spec_at(other),
            if old(self).spec_contains(ip) && old(self).spec_at(ip) == identity@ {
                final(self).spec_history() == old(self).spec_history()
                    && final(self).spec_upserts_skipped() == crate::conntrack::sat_add_u64(
                    old(self).spec_upserts_skipped(),
                    1,
                ) && final(self).spec_upserts_total() == old(self).spec_upserts_total()
            } else {
                final(self).spec_history() == old(self).spec_history().push(
                    spec_upsert_update(ip, identity@),
                ) && final(self).spec_upserts_total() == crate::conntrack::sat_add_u64(
                    old(self).spec_upserts_total(),
                    1,
                ) && final(self).spec_upserts_skipped() == old(self).spec_upserts_skipped()
            },
            final(self).spec_deletes_total() == old(self).spec_deletes_total(),
    {
        let ghost pre = self.cache@;
        match self.find(ip) {
            Some(i) => {
                proof {
                    lemma_value_at_index(pre, i as int);
                }
                if cached_identities_equal(&self.cache[i].1, &identity) {
                    self.upserts_skipped = crate::conntrack::sat_add64(self.upserts_skipped, 1);
                    return ;
                }
                proof {
                    lemma_remove_entry(pre, i as int);
                }
                self.cache.remove(i);
                proof {
                    assert(self.cache@ =~= pre.remove(i as int));
                }
            },
            None => {
            },
        }
        let ghost mid = self.cache@;
        let update = make_upsert_update(ip, &identity);
        proof {
            lemma_push_entry(mid, ip, identity);
        }
        let ghost hpre = self.history@;
        self.cache.push((ip, identity));
        self.history.push(update);
        self.upserts_total = crate::conntrack::sat_add64(self.upserts_total, 1);
        proof {
            assert(self.cache@ =~= mid.push((ip, identity)));
            assert(final(self).spec_history() =~= Seq::new(
                hpre.len(),
                |i: int| hpre[i]@,
            ).push(update@));
            assert(Seq::new(hpre.len(), |i: int| hpre[i]@) =~= old(self).spec_history());
        }
    }

    /// Remove the entry for `ip`, but only when it is owned by `kind`: a
    /// delete of one resource kind leaves another kind's entry intact.
    pub fn delete(&mut self, ip: IpAddress, kind: ResourceKind) -> (removed: bool)
        requires
            old(self).wf(),
        ensures
            final(self).wf(),
            removed == (old(self).spec_contains(ip) && old(self).spec_at(ip).resource_kind
                == kind),
            removed ==> !final(self).spec_contains(ip)
                && final(self).spec_history() == old(self).spec_history().push(spec_delete_update(ip))
                && final(self).spec_deletes_total() == crate::conntrack::sat_add_u64(
                old(self).spec_deletes_total(),
                1,
            ),
            !removed ==> final(self).spec_contains(ip) == old(self).spec_contains(ip)
                && (old(self).spec_contains(ip) ==> final(self).spec_at(ip) == old(self).spec_at(ip))
                && final(self).spec_history() == old(self).spec_history()
                && final(self).spec_deletes_total() == old(self).spec_deletes_total(),
            forall|other: IpAddress|
                other != ip ==> final(self).spec_contains(other) == old(self).spec_contains(
                    other,
                ),
            forall|other: IpAddress|
                other != ip && old(self).spec_contains(other) ==> #[trigger] final(self).spec_at(
                    other,
                ) == old(self).spec_at(other),
            final(self).spec_upserts_total() == old(self).spec_upserts_total(),
    {
        let ghost pre = self.cache@;
        match self.find(ip) {
            Some(i) => {
                proof {
                    lemma_value_at_index(pre, i as int);
                }
                if self.cache[i].1.resource_kind == kind {
                    proof {
                        lemma_remove_entry(pre, i as int);
                    }
                    self.cache.remove(i);
                    let ghost hpre = self.history@;
                    let update = make_delete_update(ip);
                    self.history.push(update);
                    self.deletes_total = crate::conntrack::sat_add64(self.deletes_total, 1);
                    proof {
                        assert(self.cache@ =~= pre.remove(i as int));
                        assert(final(self).spec_history() =~= Seq::new(
                            hpre.len(),
                            |i: int| hpre[i]@,
                        ).push(update@));
                        assert(Seq::new(hpre.len(), |i: int| hpre[i]@) =~= old(
                            self,
                        ).spec_history());
                    }
                    true
                } else {
                    false
                }
            },
            None => false,
        }
    }

    /// A consistent snapshot of every entry, as upsert messages.
    pub fn snapshot(&self) -> (r: Vec<IpCacheUpdate>)
        requires
            self.wf(),
        ensures
            r@.len() == self.spec_len(),
            forall|i: int|
                0 <= i < r@.len() ==> (#[trigger] r@[i])@ == spec_upsert_update(
                    self.spec_cache()[i].0,
                    self.spec_cache()[i].1@,
                ),
            forall|i: int|
                0 <= i < r@.len() ==> self.spec_contains((#[trigger] r@[i])@.ip->Some_0)
                    && self.spec_at(r@[i]@.ip->Some_0) == self.spec_cache()[i].1@,
    {
        let mut out: Vec<IpCacheUpdate> = Vec::new();
        let mut i: usize = 0;
        while i < self.cache.len()
            invariant
                self.wf(),
                i <= self.cache@.len(),
                out@.len() == i,
                forall|j: int|
                    0 <= j < i ==> (#[trigger] out@[j])@ == spec_upsert_update(
                        self.spec_cache()[j].0,
                        self.spec_cache()[j].1@,
                    ),
                forall|j: int|
                    0 <= j < i ==> self.spec_contains((#[trigger] out@[j])@.ip->Some_0)
                        && self.spec_at(out@[j]@.ip->Some_0) == self.spec_cache()[j].1@,
            decreases self.cache@.len() - i,
        {
            proof {
                lemma_value_at_index(self.spec_cache(), i as int);
            }
            out.push(make_upsert_update(self.cache[i].0, &self.cache[i].1));
            i = i + 1;
        }
        out
    }

    /// Subscribe to the broadcast path: the position in the history from
    /// which this subscriber observes every later update. Subscribing
    /// before snapshotting guarantees no update between the two is missed.
    pub fn subscribe(&self) -> (r: usize)
        ensures
            r == self.spec_history().len(),
    {
        self.history.len()
    }

    /// The updates a subscriber at `pos` has observed so far.
    pub fn updates_since(&self, pos: usize) -> (r: Vec<IpCacheUpdate>)
        requires
            pos <= self.spec_history().len(),
        ensures
            r@.len() == self.spec_history().len() - pos,
            forall|i: int|
                0 <= i < r@.len() ==> (#[trigger] r@[i])@ == self.spec_history()[pos + i],
    {
        let mut out: Vec<IpCacheUpdate> = Vec::new();
        let mut i: usize = pos;
        while i < self.history.len()
            invariant
                pos <= i <= self.history@.len(),
                out@.len() == i - pos,
                forall|j: int|
                    0 <= j < out@.len() ==> (#[trigger] out@[j])@ == self.spec_history()[pos + j],
            decreases self.history@.len() - i,
        {
            proof {
                assert(self.spec_history()[i as int] == self.history@[i as int]@);
            }
            out.push(self.history[i].clone());
            i = i + 1;
        }
        out
    }

    /// Emit the shutdown sentinel so agents preserve their caches across
    /// the restart.
    pub fn broadcast_shutdown(&mut self)
        ensures
            final(self).wf() == old(self).wf(),
            final(self).spec_cache() == old(self).spec_cache(),
            final(self).spec_history() == old(self).spec_history().push(spec_shutdown_update()),
    {
        let ghost hpre = self.history@;
        let update = IpCacheUpdate {
            update_type: UpdateType::Shutdown,
            ip: None,
            namespace: String::new(),
            pod_name: String::new(),
            service_name: String::new(),
            node_name: String::new(),
            labels: Vec::new(),
            workloads: Vec::new(),
        };
        proof {
            assert(update@.labels =~= Seq::<Seq<char>>::empty());
            assert(update@.workloads =~= Seq::<CachedWorkloadView>::empty());
        }
        self.history.push(update);
        proof {
            assert(final(self).spec_history() =~= Seq::new(
                hpre.len(),
                |i: int| hpre[i]@,
            ).push(spec_shutdown_update()));
            assert(Seq::new(hpre.len(), |i: int| hpre[i]@) =~= old(self).spec_history());
        }
    }

    /// Snapshot of all entries for inspection, one upsert message per
    /// entry, in table order.
    pub fn dump(&self) -> (r: Vec<IpCacheUpdate>)
        requires
            self.wf(),
        ensures
            r@.len() == self.spec_len(),
            forall|i: int|
                0 <= i < r@.len() ==> (#[trigger] r@[i])@ == spec_upsert_update(
                    self.spec_cache()[i].0,
                    self.spec_cache()[i].1@,
                ),
            forall|i: int|
                0 <= i < r@.len() ==> self.spec_contains((#[trigger] r@[i])@.ip->Some_0)
                    && self.spec_at(r@[i]@.ip->Some_0) == self.spec_cache()[i].1@,
    {
        self.snapshot()
    }

    /// Open one agent's stream, §4.3-style: the subscription position is
    /// taken before the snapshot, so no update landing between the two is
    /// lost; the returned messages are the whole snapshot followed by the
    /// sync-complete terminator, and everything the agent must still
    /// observe is the history from the returned position on.
    pub fn initial_stream(&self) -> (r: (Vec<IpCacheUpdate>, usize))
        requires
            self.wf(),
        ensures
            r.1 == self.spec_history().len(),
            r.0@.len() == self.spec_len() + 1,
            forall|i: int|
                0 <= i < self.spec_len() ==> (#[trigger] r.0@[i])@ == spec_upsert_update(
                    self.spec_cache()[i].0,
                    self.spec_cache()[i].1@,
                ),
            r.0@[self.spec_len() as int]@ == spec_sync_complete_update(),
    {
        let pos = self.subscribe();
        let mut updates = self.snapshot();
        let ghost snap = updates@;
        let terminator = IpCacheUpdate {
            update_type: UpdateType::SyncComplete,
            ip: None,
            namespace: String::new(),
            pod_name: String::new(),
            service_name: String::new(),
            node_name: String::new(),
            labels: Vec::new(),
            workloads: Vec::new(),
        };
        proof {
            assert(terminator@.labels =~= Seq::<Seq<char>>::empty());
            assert(terminator@.workloads =~= Seq::<CachedWorkloadView>::empty());
            assert(terminator@ == spec_sync_complete_update());
        }
        updates.push(terminator);
        proof {
            assert(forall|i: int| 0 <= i < snap.len() ==> #[trigger] updates@[i] == snap[i]);
        }
        (updates, pos)
    }
}

/// No update emitted at or after a subscription position is missing from
/// the subscriber's observed stream: the update at history index `i` is
/// delivered as element `i - pos` of the stream.
pub proof fn lemma_subscribe_no_loss(history: Seq<IpCacheUpdateView>, pos: int, i: int)
    requires
        0 <= pos <= i < history.len(),
    ensures
        history.subrange(pos, history.len() as int)[i - pos] == history[i],
{
}

} // verus!
