//! Agent lifecycle events and their ring-buffer store.

use vstd::prelude::*;

verus! {

use vstd::pervasive::cloned;
use crate::flow::clone_opt_string;
use crate::net::IpAddress;
use crate::store::RingBuffer;

/// The kind of an agent event.
#[derive(Clone, Copy, PartialEq, Eq, Structural, Debug)]
pub enum AgentEventKind {
    Unknown,
    AgentStarted,
    IpcacheUpserted,
    IpcacheDeleted,
}

/// The payload attached to an agent event.
#[derive(Debug)]
pub enum AgentNotification {
    AgentStart { time_s: i64, time_ns: i32 },
    IpcacheUpdate { cidr: IpAddress, namespace: String, pod_name: String },
}

/// The mathematical value of a notification.
pub ghost enum AgentNotificationView {
    AgentStart { time_s: i64, time_ns: i32 },
    IpcacheUpdate { cidr: IpAddress, namespace: Seq<char>, pod_name: Seq<char> },
}

impl View for AgentNotification {
    type V = AgentNotificationView;

    open spec fn view(&self) -> AgentNotificationView {
        match self {
            AgentNotification::AgentStart { time_s, time_ns } => AgentNotificationView::AgentStart {
                time_s: *time_s,
                time_ns: *time_ns,
            },
            AgentNotification::IpcacheUpdate {
                cidr,
                namespace,
                pod_name,
            } => AgentNotificationView::IpcacheUpdate {
                cidr: *cidr,
                namespace: namespace@,
                pod_name: pod_name@,
            },
        }
    }
}

impl Clone for AgentNotification {
    fn clone(&self) -> (r: Self)
        ensures
            r@ == self@,
    {
        match self {
            AgentNotification::AgentStart { time_s, time_ns } => AgentNotification::AgentStart {
                time_s: *time_s,
                time_ns: *time_ns,
            },
            AgentNotification::IpcacheUpdate {
                cidr,
                namespace,
                pod_name,
            } => AgentNotification::IpcacheUpdate {
                cidr: *cidr,
                namespace: namespace.clone(),
                pod_name: pod_name.clone(),
            },
        }
    }
}

/// An agent lifecycle event.
#[derive(Debug)]
pub struct AgentEvent {
    pub kind: AgentEventKind,
    pub notification: Option<AgentNotification>,
}

/// The mathematical value of an agent event.
pub ghost struct AgentEventView {
    pub kind: AgentEventKind,
    pub notification: Option<AgentNotificationView>,
}

impl View for AgentEvent {
    type V = AgentEventView;

    open spec fn view(&self) -> AgentEventView {
        AgentEventView {
            kind: self.kind,
            notification: match self.notification {
                Some(ref n) => Some(n@),
                None => None,
            },
        }
    }
}

impl Clone for AgentEvent {
    fn clone(&self) -> (r: Self)
        ensures
            r@ == self@,
    {
        AgentEvent {
            kind: self.kind,
            notification: match &self.notification {
                Some(n) => Some(n.clone()),
                None => None,
            },
        }
    }
}

/// A ring of recent agent events.
pub struct AgentEventStore {
    inner: RingBuffer<AgentEvent>,
}

impl AgentEventStore {
    pub closed spec fn spec_events(&self) -> Seq<AgentEvent> {
        self.inner.spec_items()
    }

    pub closed spec fn spec_capacity(&self) -> usize {
        self.inner.spec_capacity()
    }

    pub closed spec fn spec_seen(&self) -> u64 {
        self.inner.spec_seen()
    }

    pub closed spec fn spec_start_ns(&self) -> u64 {
        self.inner.spec_start_ns()
    }

    pub open spec fn wf(&self) -> bool {
        self.spec_capacity() > 0 ==> self.spec_events().len() <= self.spec_capacity()
    }

    /// An empty store created at `now_ns`.
    pub fn new(capacity: usize, now_ns: u64) -> (r: Self)
        ensures
            r.wf(),
            r.spec_events() == Seq::<AgentEvent>::empty(),
            r.spec_capacity() == capacity,
            r.spec_seen() == 0,
    {
        AgentEventStore { inner: RingBuffer::new(capacity, now_ns) }
    }

    /// Push one event, evicting the oldest when full.
    pub fn push(&mut self, event: AgentEvent)
        requires
            old(self).wf(),
        ensures
            final(self).wf(),
            final(self).spec_events() == (if old(self).spec_events().len() >= old(
                self,
            ).spec_capacity() && old(self).spec_events().len() > 0 {
                old(self).spec_events().drop_first()
            } else {
                old(self).spec_events()
            }).push(event),
            final(self).spec_seen() == (if old(self).spec_seen() == u64::MAX {
                0u64
            } else {
                (old(self).spec_seen() + 1) as u64
            }),
            final(self).spec_capacity() == old(self).spec_capacity(),
    {
        self.inner.push(event);
    }

    /// The most recent `n` events, oldest of them first.
    pub fn last_n(&self, n: usize) -> (r: Vec<AgentEvent>)
        ensures
            r@.len() == if n <= self.spec_events().len() {
                n as int
            } else {
                self.spec_events().len() as int
            },
            forall|i: int|
                0 <= i < r@.len() ==> (#[trigger] r@[i])@ == self.spec_events()[self.spec_events().len()
                    - r@.len() + i]@,
    {
        let r = self.inner.last_n(n);
        proof {
            assert forall|i: int| 0 <= i < r@.len() implies (#[trigger] r@[i])@
                == self.spec_events()[self.spec_events().len() - r@.len() + i]@ by {
                assert(cloned::<AgentEvent>(
                    self.spec_events()[self.spec_events().len() - r@.len() + i],
                    r@[i],
                ));
            }
        }
        r
    }

    /// The earliest `n` events, oldest first.
    pub fn first_n(&self, n: usize) -> (r: Vec<AgentEvent>)
        ensures
            r@.len() == if n <= self.spec_events().len() {
                n as int
            } else {
                self.spec_events().len() as int
            },
            forall|i: int| 0 <= i < r@.len() ==> (#[trigger] r@[i])@ == self.spec_events()[i]@,
    {
        let r = self.inner.first_n(n);
        proof {
            assert forall|i: int| 0 <= i < r@.len() implies (#[trigger] r@[i])@
                == self.spec_events()[i]@ by {
                assert(cloned::<AgentEvent>(self.spec_events()[i], r@[i]));
            }
        }
        r
    }

    /// Current number of buffered events.
    pub fn num_events(&self) -> (r: u64)
        ensures
            r == self.spec_events().len(),
    {
        self.inner.len() as u64
    }

    /// Cumulative count of events ever pushed.
    pub fn seen_events(&self) -> (r: u64)
        ensures
            r == self.spec_seen(),
    {
        self.inner.seen()
    }

    /// Nanoseconds since creation.
    pub fn uptime_ns(&self, now_ns: u64) -> (r: u64)
        ensures
            r == if now_ns >= self.spec_start_ns() {
                (now_ns - self.spec_start_ns()) as u64
            } else {
                0u64
            },
    {
        self.inner.uptime_ns(now_ns)
    }
}

} // verus!
