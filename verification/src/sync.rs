//! The agent side of the operator stream: applying each update to the
//! local cache, flipping the synced flag on the sync marker, preserving
//! the cache across a graceful operator shutdown, and clearing it on any
//! other disconnect.

use vstd::prelude::*;

verus! {

use crate::events::{AgentEvent, AgentEventKind, AgentEventView, AgentNotification,
    AgentNotificationView};
use crate::identity::{Identity, IdentityView, Workload, clone_labels};
use crate::ipcache::{IpCache, IpCacheEventView};
use crate::net::IpAddress;
use crate::operator::{IpCacheUpdate, IpCacheUpdateView, UpdateType};

/// What one streamed update led to.
#[derive(Debug)]
pub enum SyncStep {
    /// The entry was stored; after the initial sync, the event is for the
    /// agent-event store and broadcast.
    Upserted(Option<AgentEvent>),
    /// The cache no longer holds the address; after the initial sync, the
    /// event is for the agent-event store and broadcast (it is emitted
    /// whether or not an entry was there, as the cache's own change
    /// stream carries the was-present distinction).
    Deleted(Option<AgentEvent>),
    /// The initial snapshot is complete and the cache is now synced.
    SyncCompleted,
    /// The operator is shutting down gracefully: the stream ends, and the
    /// cache must be preserved across the reconnect.
    ShutdownPreserve,
    /// The update named no usable address and was dropped.
    Skipped,
}

/// Progress of one connection to the operator.
pub struct SyncSession {
    pub initial_done: bool,
    pub snapshot_count: u64,
}

/// The agent event announcing one applied upsert.
pub open spec fn spec_upserted_event(u: IpCacheUpdateView, ip: IpAddress) -> AgentEventView {
    AgentEventView {
        kind: AgentEventKind::IpcacheUpserted,
        notification: Some(
            AgentNotificationView::IpcacheUpdate {
                cidr: ip,
                namespace: u.namespace,
                pod_name: u.pod_name,
            },
        ),
    }
}

/// The agent event announcing one applied delete.
pub open spec fn spec_deleted_event(ip: IpAddress) -> AgentEventView {
    AgentEventView {
        kind: AgentEventKind::IpcacheDeleted,
        notification: Some(
            AgentNotificationView::IpcacheUpdate {
                cidr: ip,
                namespace: Seq::empty(),
                pod_name: Seq::empty(),
            },
        ),
    }
}

/// The identity carried by an upsert message.
pub open spec fn spec_update_identity(u: IpCacheUpdateView) -> IdentityView {
    IdentityView {
        namespace: u.namespace,
        pod_name: u.pod_name,
        service_name: u.service_name,
        node_name: u.node_name,
        labels: u.labels,
        workloads: Seq::new(
            u.workloads.len(),
            |i: int| crate::identity::WorkloadView {
                name: u.workloads[i].name,
                kind: u.workloads[i].kind,
            },
        ),
    }
}

/// Build the identity carried by an upsert message.
fn identity_of_update(update: &IpCacheUpdate) -> (r: Identity)
    ensures
        r@ == spec_update_identity(update@),
{
    let mut workloads: Vec<Workload> = Vec::new();
    let mut i: usize = 0;
    while i < update.workloads.len()
        invariant
            i <= update.workloads@.len(),
            workloads@.len() == i,
            forall|j: int|
                0 <= j < i ==> (#[trigger] workloads@[j]@).name == update.workloads@[j]@.name
                    && workloads@[j]@.kind == update.workloads@[j]@.kind,
        decreases update.workloads@.len() - i,
    {
        workloads.push(
            Workload {
                name: update.workloads[i].name.clone(),
                kind: update.workloads[i].kind.clone(),
            },
        );
        i = i + 1;
    }
    let r = Identity {
        namespace: update.namespace.clone(),
        pod_name: update.pod_name.clone(),
        service_name: update.service_name.clone(),
        node_name: update.node_name.clone(),
        labels: clone_labels(&update.labels),
        workloads,
    };
    proof {
        assert(Seq::new(r.workloads@.len(), |i: int| r.workloads@[i]@) =~= Seq::new(
            update@.workloads.len(),
            |i: int| crate::identity::WorkloadView {
                name: update@.workloads[i].name,
                kind: update@.workloads[i].kind,
            },
        ));
    }
    r
}

impl SyncSession {
    /// A fresh session: the snapshot is still streaming.
    pub fn new() -> (r: Self)
        ensures
            !r.initial_done,
            r.snapshot_count == 0,
    {
        SyncSession { initial_done: false, snapshot_count: 0 }
    }

    /// Apply one streamed update to the local cache.
    pub fn apply_update(&mut self, cache: &mut IpCache, update: &IpCacheUpdate) -> (r: SyncStep)
        requires
            old(cache).wf(),
        ensures
            final(cache).wf(),
            ({
                let u = update@;
                match u.update_type {
                    UpdateType::Upsert => match u.ip {
                        Some(ip) => {
                            &&& final(cache).spec_contains(ip)
                            &&& final(cache).spec_at(ip) == spec_update_identity(u)
                            &&& (forall|other: IpAddress|
                                other != ip ==> final(cache).spec_contains(other) == old(
                                    cache,
                                ).spec_contains(other))
                            &&& (forall|other: IpAddress|
                                other != ip && old(cache).spec_contains(other)
                                    ==> #[trigger] final(cache).spec_at(other) == old(
                                    cache,
                                ).spec_at(other))
                            &&& final(cache).spec_synced() == old(cache).spec_synced()
                            &&& final(cache).spec_history() == old(cache).spec_history().push(
                                IpCacheEventView::Upsert(ip, spec_update_identity(u)),
                            )
                            &&& (r matches SyncStep::Upserted(ev) && (if old(self).initial_done {
                                ev matches Some(e) && e@ == spec_upserted_event(u, ip)
                            } else {
                                ev is None
                            }))
                            &&& final(self).initial_done == old(self).initial_done
                        },
                        None => r is Skipped && *final(cache) == *old(cache) && *final(self)
                            == *old(self),
                    },
                    UpdateType::Delete => match u.ip {
                        Some(ip) => {
                            &&& !final(cache).spec_contains(ip)
                            &&& (forall|other: IpAddress|
                                other != ip ==> final(cache).spec_contains(other) == old(
                                    cache,
                                ).spec_contains(other))
                            &&& (forall|other: IpAddress|
                                other != ip && old(cache).spec_contains(other)
                                    ==> #[trigger] final(cache).spec_at(other) == old(
                                    cache,
                                ).spec_at(other))
                            &&& final(cache).spec_synced() == old(cache).spec_synced()
                            &&& final(cache).spec_history() == (if old(cache).spec_contains(ip) {
                                old(cache).spec_history().push(IpCacheEventView::Delete(ip))
                            } else {
                                old(cache).spec_history()
                            })
                            &&& (r matches SyncStep::Deleted(ev) && (if old(self).initial_done {
                                ev matches Some(e) && e@ == spec_deleted_event(ip)
                            } else {
                                ev is None
                            }))
                            &&& final(self).initial_done == old(self).initial_done
                        },
                        None => r is Skipped && *final(cache) == *old(cache) && *final(self)
                            == *old(self),
                    },
                    UpdateType::SyncComplete => {
                        &&& final(cache).spec_synced()
                        &&& final(cache).spec_entries() == old(cache).spec_entries()
                        &&& final(cache).spec_history() == old(cache).spec_history()
                        &&& final(self).initial_done
                        &&& r is SyncCompleted
                    },
                    UpdateType::Shutdown => {
                        &&& *final(cache) == *old(cache)
                        &&& *final(self) == *old(self)
                        &&& r is ShutdownPreserve
                    },
                }
            }),
    {
        match update.update_type {
            UpdateType::Upsert => {
                let ip = match update.ip {
                    Some(ip) => ip,
                    None => {
                        return SyncStep::Skipped;
                    },
                };
                let identity = identity_of_update(update);
                cache.upsert(ip, identity);
                if self.initial_done {
                    let event = AgentEvent {
                        kind: AgentEventKind::IpcacheUpserted,
                        notification: Some(
                            AgentNotification::IpcacheUpdate {
                                cidr: ip,
                                namespace: update.namespace.clone(),
                                pod_name: update.pod_name.clone(),
                            },
                        ),
                    };
                    SyncStep::Upserted(Some(event))
                } else {
                    self.snapshot_count = crate::conntrack::sat_add64(self.snapshot_count, 1);
                    SyncStep::Upserted(None)
                }
            },
            UpdateType::Delete => {
                let ip = match update.ip {
                    Some(ip) => ip,
                    None => {
                        return SyncStep::Skipped;
                    },
                };
                cache.delete(ip);
                if self.initial_done {
                    let event = AgentEvent {
                        kind: AgentEventKind::IpcacheDeleted,
                        notification: Some(
                            AgentNotification::IpcacheUpdate {
                                cidr: ip,
                                namespace: String::new(),
                                pod_name: String::new(),
                            },
                        ),
                    };
                    SyncStep::Deleted(Some(event))
                } else {
                    SyncStep::Deleted(None)
                }
            },
            UpdateType::SyncComplete => {
                cache.mark_synced();
                self.initial_done = true;
                SyncStep::SyncCompleted
            },
            UpdateType::Shutdown => SyncStep::ShutdownPreserve,
        }
    }
}

/// End of the operator stream: the cache survives a graceful shutdown and
/// is cleared after any other disconnect, so the next snapshot starts
/// clean.
pub fn end_of_stream(cache: &mut IpCache, preserve: bool)
    requires
        old(cache).wf(),
    ensures
        final(cache).wf(),
        preserve ==> *final(cache) == *old(cache),
        !preserve ==> !final(cache).spec_synced() && final(cache).spec_len() == 0 && (forall|
            ip: IpAddress,
        | !final(cache).spec_contains(ip)) && final(cache).spec_history() == old(
            cache,
        ).spec_history().push(IpCacheEventView::Clear),
{
    if !preserve {
        cache.clear();
    }
}

} // verus!
