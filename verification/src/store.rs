//! Fixed-capacity ring buffers for recent flows and agent events, and the
//! windowed flow-rate calculation.

use vstd::prelude::*;

verus! {

use vstd::pervasive::cloned;
use crate::flow::Flow;

/// A FIFO ring of recent items: pushing to a full ring evicts the oldest
/// item. Tracks the cumulative count of items ever pushed and its creation
/// time.
pub struct RingBuffer<T> {
    items: Vec<T>,
    capacity: usize,
    seen_items: u64,
    start_ns: u64,
}

impl<T> RingBuffer<T> {
    /// The buffered items, oldest first.
    pub closed spec fn spec_items(&self) -> Seq<T> {
        self.items@
    }

    pub closed spec fn spec_capacity(&self) -> usize {
        self.capacity
    }

    pub closed spec fn spec_seen(&self) -> u64 {
        self.seen_items
    }

    pub closed spec fn spec_start_ns(&self) -> u64 {
        self.start_ns
    }

    /// The buffer never holds more than its capacity, once any was given.
    pub open spec fn wf(&self) -> bool {
        self.spec_capacity() > 0 ==> self.spec_items().len() <= self.spec_capacity()
    }

    /// An empty buffer created at `now_ns`.
    pub fn new(capacity: usize, now_ns: u64) -> (r: Self)
        ensures
            r.wf(),
            r.spec_items() == Seq::<T>::empty(),
            r.spec_capacity() == capacity,
            r.spec_seen() == 0,
            r.spec_start_ns() == now_ns,
    {
        let r = RingBuffer { items: Vec::new(), capacity, seen_items: 0, start_ns: now_ns };
        proof {
            assert(r.spec_items() =~= Seq::<T>::empty());
        }
        r
    }

    /// Append an item, evicting the oldest when full. The cumulative count
    /// always advances by one (wrapping at the integer boundary).
    pub fn push(&mut self, item: T)
        requires
            old(self).wf(),
        ensures
            final(self).wf(),
            final(self).spec_items() == (if old(self).spec_items().len() >= old(
                self,
            ).spec_capacity() && old(self).spec_items().len() > 0 {
                old(self).spec_items().drop_first()
            } else {
                old(self).spec_items()
            }).push(item),
            final(self).spec_seen() == (if old(self).spec_seen() == u64::MAX {
                0u64
            } else {
                (old(self).spec_seen() + 1) as u64
            }),
            final(self).spec_capacity() == old(self).spec_capacity(),
            final(self).spec_start_ns() == old(self).spec_start_ns(),
    {
        self.seen_items = if self.seen_items == u64::MAX {
            0
        } else {
            self.seen_items + 1
        };
        if self.items.len() >= self.capacity && self.items.len() > 0 {
            let ghost pre = self.items@;
            self.items.remove(0);
            proof {
                assert(self.items@ =~= pre.drop_first());
            }
        }
        self.items.push(item);
    }

    /// Current number of buffered items.
    pub fn len(&self) -> (r: usize)
        ensures
            r == self.spec_items().len(),
    {
        self.items.len()
    }

    /// Cumulative count of items ever pushed.
    pub fn seen(&self) -> (r: u64)
        ensures
            r == self.spec_seen(),
    {
        self.seen_items
    }

    /// The configured capacity.
    pub fn capacity(&self) -> (r: usize)
        ensures
            r == self.spec_capacity(),
    {
        self.capacity
    }

    /// Nanoseconds between this buffer's creation and `now_ns`.
    pub fn uptime_ns(&self, now_ns: u64) -> (r: u64)
        ensures
            r == if now_ns >= self.spec_start_ns() {
                (now_ns - self.spec_start_ns()) as u64
            } else {
                0u64
            },
    {
        if now_ns >= self.start_ns {
            now_ns - self.start_ns
        } else {
            0
        }
    }
}

impl<T: Clone> RingBuffer<T> {
    /// The most recent `n` items, oldest of them first.
    pub fn last_n(&self, n: usize) -> (r: Vec<T>)
        ensures
            r@.len() == if n <= self.spec_items().len() {
                n as int
            } else {
                self.spec_items().len() as int
            },
            forall|i: int|
                0 <= i < r@.len() ==> cloned::<T>(
                    self.spec_items()[self.spec_items().len() - r@.len() + i],
                    #[trigger] r@[i],
                ),
    {
        let len = self.items.len();
        let start = if n <= len {
            len - n
        } else {
            0
        };
        let mut out: Vec<T> = Vec::new();
        let mut i: usize = start;
        while i < len
            invariant
                start <= i <= len,
                len == self.spec_items().len(),
                out@.len() == i - start,
                forall|j: int|
                    0 <= j < out@.len() ==> cloned::<T>(
                        self.spec_items()[start + j],
                        #[trigger] out@[j],
                    ),
            decreases len - i,
        {
            out.push(self.items[i].clone());
            i = i + 1;
        }
        out
    }

    /// The earliest `n` items, oldest first.
    pub fn first_n(&self, n: usize) -> (r: Vec<T>)
        ensures
            r@.len() == if n <= self.spec_items().len() {
                n as int
            } else {
                self.spec_items().len() as int
            },
            forall|i: int|
                0 <= i < r@.len() ==> cloned::<T>(self.spec_items()[i], #[trigger] r@[i]),
    {
        let len = self.items.len();
        let end = if n <= len {
            n
        } else {
            len
        };
        let mut out: Vec<T> = Vec::new();
        let mut i: usize = 0;
        while i < end
            invariant
                i <= end <= len,
                len == self.spec_items().len(),
                out@.len() == i,
                forall|j: int|
                    0 <= j < i ==> cloned::<T>(self.spec_items()[j], #[trigger] out@[j]),
            decreases end - i,
        {
            out.push(self.items[i].clone());
            i = i + 1;
        }
        out
    }

    /// Every buffered item, oldest first.
    pub fn all(&self) -> (r: Vec<T>)
        ensures
            r@.len() == self.spec_items().len(),
            forall|i: int|
                0 <= i < r@.len() ==> cloned::<T>(self.spec_items()[i], #[trigger] r@[i]),
    {
        self.first_n(self.items.len())
    }
}

/// The flow rate in thousandths of flows per second, given flows seen and
/// nanoseconds elapsed.
pub open spec fn spec_rate_milli(delta: u64, elapsed_ns: u64) -> u64
    recommends
        elapsed_ns > 0,
{
    let r = delta * 1_000_000_000_000 / (elapsed_ns as int);
    if r > u64::MAX {
        u64::MAX
    } else {
        r as u64
    }
}

/// A ring of recent flows with a windowed flow-rate estimate.
pub struct FlowStore {
    inner: RingBuffer<Flow>,
    snap_ns: u64,
    snap_seen: u64,
}

impl FlowStore {
    pub closed spec fn spec_flows(&self) -> Seq<Flow> {
        self.inner.spec_items()
    }

    pub closed spec fn spec_capacity(&self) -> usize {
        self.inner.spec_capacity()
    }

    pub closed spec fn spec_seen(&self) -> u64 {
        self.inner.spec_seen()
    }

    pub closed spec fn spec_start_ns(&self) -> u64 {
        self.inner.spec_start_ns()
    }

    pub closed spec fn spec_snap(&self) -> (u64, u64) {
        (self.snap_ns, self.snap_seen)
    }

    pub open spec fn wf(&self) -> bool {
        self.spec_capacity() > 0 ==> self.spec_flows().len() <= self.spec_capacity()
    }

    /// An empty store created at `now_ns`.
    pub fn new(capacity: usize, now_ns: u64) -> (r: Self)
        ensures
            r.wf(),
            r.spec_flows() == Seq::<Flow>::empty(),
            r.spec_capacity() == capacity,
            r.spec_seen() == 0,
            r.spec_snap() == (now_ns, 0u64),
    {
        FlowStore { inner: RingBuffer::new(capacity, now_ns), snap_ns: now_ns, snap_seen: 0 }
    }

    /// Push one flow, evicting the oldest when full.
    pub fn push(&mut self, flow: Flow)
        requires
            old(self).wf(),
        ensures
            final(self).wf(),
            final(self).spec_flows() == (if old(self).spec_flows().len() >= old(
                self,
            ).spec_capacity() && old(self).spec_flows().len() > 0 {
                old(self).spec_flows().drop_first()
            } else {
                old(self).spec_flows()
            }).push(flow),
            final(self).spec_seen() == (if old(self).spec_seen() == u64::MAX {
                0u64
            } else {
                (old(self).spec_seen() + 1) as u64
            }),
            final(self).spec_capacity() == old(self).spec_capacity(),
            final(self).spec_snap() == old(self).spec_snap(),
            final(self).spec_start_ns() == old(self).spec_start_ns(),
    {
        self.inner.push(flow);
    }

    /// The most recent `n` flows.
    pub fn last_n(&self, n: usize) -> (r: Vec<Flow>)
        ensures
            r@.len() == if n <= self.spec_flows().len() {
                n as int
            } else {
                self.spec_flows().len() as int
            },
            forall|i: int|
                0 <= i < r@.len() ==> (#[trigger] r@[i])@ == self.spec_flows()[self.spec_flows().len()
                    - r@.len() + i]@,
    {
        let r = self.inner.last_n(n);
        proof {
            assert forall|i: int| 0 <= i < r@.len() implies (#[trigger] r@[i])@
                == self.spec_flows()[self.spec_flows().len() - r@.len() + i]@ by {
                assert(cloned::<Flow>(
                    self.spec_flows()[self.spec_flows().len() - r@.len() + i],
                    r@[i],
                ));
            }
        }
        r
    }

    /// The earliest `n` flows.
    pub fn first_n(&self, n: usize) -> (r: Vec<Flow>)
        ensures
            r@.len() == if n <= self.spec_flows().len() {
                n as int
            } else {
                self.spec_flows().len() as int
            },
            forall|i: int| 0 <= i < r@.len() ==> (#[trigger] r@[i])@ == self.spec_flows()[i]@,
    {
        let r = self.inner.first_n(n);
        proof {
            assert forall|i: int| 0 <= i < r@.len() implies (#[trigger] r@[i])@
                == self.spec_flows()[i]@ by {
                assert(cloned::<Flow>(self.spec_flows()[i], r@[i]));
            }
        }
        r
    }

    /// Every buffered flow.
    pub fn all_flows(&self) -> (r: Vec<Flow>)
        ensures
            r@.len() == self.spec_flows().len(),
            forall|i: int| 0 <= i < r@.len() ==> (#[trigger] r@[i])@ == self.spec_flows()[i]@,
    {
        self.first_n(self.inner.len())
    }

    /// Current number of buffered flows.
    pub fn num_flows(&self) -> (r: u64)
        ensures
            r == self.spec_flows().len(),
    {
        self.inner.len() as u64
    }

    /// Cumulative count of flows ever pushed.
    pub fn seen_flows(&self) -> (r: u64)
        ensures
            r == self.spec_seen(),
    {
        self.inner.seen()
    }

    /// The configured capacity.
    pub fn capacity(&self) -> (r: usize)
        ensures
            r == self.spec_capacity(),
    {
        self.inner.capacity()
    }

    /// Nanoseconds since creation.
    pub fn uptime_ns(&self, now_ns: u64) -> (r: u64)
        ensures
            r == if now_ns >= self.spec_start_ns() {
                (now_ns - self.spec_start_ns()) as u64
            } else {
                0u64
            },
    {
        self.inner.uptime_ns(now_ns)
    }

    /// The flow rate over the sliding window, in thousandths of flows per
    /// second: zero under five seconds of window, and the snapshot resets
    /// once a minute.
    pub fn flows_rate(&mut self, now_ns: u64) -> (r: u64)
        ensures
            ({
                let (snap_ns, snap_seen) = old(self).spec_snap();
                let elapsed = if now_ns >= snap_ns {
                    (now_ns - snap_ns) as u64
                } else {
                    0u64
                };
                let delta = if old(self).spec_seen() >= snap_seen {
                    (old(self).spec_seen() - snap_seen) as u64
                } else {
                    0u64
                };
                if elapsed < 5_000_000_000 {
                    r == 0 && final(self).spec_snap() == old(self).spec_snap()
                } else {
                    r == spec_rate_milli(delta, elapsed) && final(self).spec_snap() == (if elapsed
                        >= 60_000_000_000 {
                        (now_ns, old(self).spec_seen())
                    } else {
                        old(self).spec_snap()
                    })
                }
            }),
            final(self).spec_flows() == old(self).spec_flows(),
            final(self).spec_seen() == old(self).spec_seen(),
            final(self).spec_capacity() == old(self).spec_capacity(),
            final(self).spec_start_ns() == old(self).spec_start_ns(),
    {
        let current_seen = self.inner.seen();
        let elapsed: u64 = if now_ns >= self.snap_ns {
            now_ns - self.snap_ns
        } else {
            0
        };
        if elapsed < 5_000_000_000 {
            return 0;
        }
        let delta: u64 = if current_seen >= self.snap_seen {
            current_seen - self.snap_seen
        } else {
            0
        };
        let wide: u128 = (delta as u128) * 1_000_000_000_000 / (elapsed as u128);
        let rate: u64 = if wide > u64::MAX as u128 {
            u64::MAX
        } else {
            wide as u64
        };
        if elapsed >= 60_000_000_000 {
            self.snap_ns = now_ns;
            self.snap_seen = current_seen;
        }
        rate
    }
}

} // verus!
