//! The pod-interface watcher's bookkeeping: which interface indexes carry
//! attached endpoint programs, and when a link event calls for an
//! attachment or a detachment.

use vstd::prelude::*;

verus! {

/// The fields of a netlink link message that the watcher reads: the
/// interface index, its name, and whether its peer lives in another
/// network namespace (the CNI-agnostic mark of a pod interface).
#[derive(Debug)]
pub struct LinkFields {
    pub ifindex: u32,
    pub ifname: String,
    pub has_peer_netns: bool,
}

/// The set of interfaces that carry attached endpoint programs.
pub struct VethTracker {
    attached: Vec<u32>,
}

impl VethTracker {
    pub closed spec fn spec_attached(&self) -> Seq<u32> {
        self.attached@
    }

    pub open spec fn wf(&self) -> bool {
        forall|i: int, j: int|
            0 <= i < j < self.spec_attached().len() ==> self.spec_attached()[i]
                != self.spec_attached()[j]
    }

    pub open spec fn spec_contains(&self, ifindex: u32) -> bool {
        self.spec_attached().contains(ifindex)
    }

    /// An empty tracker.
    pub fn new() -> (r: Self)
        ensures
            r.wf(),
            forall|ifindex: u32| !r.spec_contains(ifindex),
    {
        let r = VethTracker { attached: Vec::new() };
        proof {
            assert forall|ifindex: u32| !r.spec_contains(ifindex) by {
                assert(r.spec_attached().len() == 0);
            }
        }
        r
    }

    fn contains(&self, ifindex: u32) -> (r: bool)
        ensures
            r == self.spec_contains(ifindex),
    {
        let mut i: usize = 0;
        while i < self.attached.len()
            invariant
                i <= self.attached@.len(),
                forall|j: int| 0 <= j < i ==> self.attached@[j] != ifindex,
            decreases self.attached@.len() - i,
        {
            if self.attached[i] == ifindex {
                assert(self.spec_attached()[i as int] == ifindex);
                return true;
            }
            i = i + 1;
        }
        false
    }

    /// Decide a new-link event: programs are attached exactly to pod
    /// interfaces not yet carrying them, and the tracker records the
    /// attachment.
    pub fn handle_new_link(&mut self, link: &LinkFields) -> (attach: bool)
        requires
            old(self).wf(),
        ensures
            final(self).wf(),
            attach == (link.has_peer_netns && !old(self).spec_contains(link.ifindex)),
            attach ==> final(self).spec_contains(link.ifindex),
            !attach ==> final(self).spec_attached() == old(self).spec_attached(),
            forall|other: u32|
                other != link.ifindex ==> final(self).spec_contains(other) == old(
                    self,
                ).spec_contains(other),
    {
        if !link.has_peer_netns {
            return false;
        }
        if self.contains(link.ifindex) {
            return false;
        }
        let ghost pre = self.attached@;
        self.attached.push(link.ifindex);
        proof {
            assert(final(self).spec_attached() =~= pre.push(link.ifindex));
            assert(final(self).spec_attached()[pre.len() as int] == link.ifindex);
            assert forall|other: u32| other != link.ifindex implies final(self).spec_contains(
                other,
            ) == old(self).spec_contains(other) by {
                if final(self).spec_contains(other) {
                    let j = choose|j: int|
                        0 <= j < pre.push(link.ifindex).len() && pre.push(link.ifindex)[j]
                            == other;
                    assert(j < pre.len());
                    assert(pre[j] == other);
                }
                if old(self).spec_contains(other) {
                    let j = choose|j: int| 0 <= j < pre.len() && pre[j] == other;
                    assert(pre.push(link.ifindex)[j] == other);
                }
            }
        }
        true
    }

    /// Decide a deleted-link event: the attachment is dropped when one was
    /// recorded, and dropping the handles detaches the programs.
    pub fn handle_del_link(&mut self, ifindex: u32) -> (detach: bool)
        requires
            old(self).wf(),
        ensures
            final(self).wf(),
            detach == old(self).spec_contains(ifindex),
            !final(self).spec_contains(ifindex),
            forall|other: u32|
                other != ifindex ==> final(self).spec_contains(other) == old(self).spec_contains(
                    other,
                ),
    {
        let ghost pre = self.attached@;
        let mut i: usize = 0;
        while i < self.attached.len()
            invariant
                pre == self.attached@,
                pre == old(self).spec_attached(),
                forall|a: int, b: int| 0 <= a < b < pre.len() ==> pre[a] != pre[b],
                i <= self.attached@.len(),
                forall|j: int| 0 <= j < i ==> self.attached@[j] != ifindex,
            decreases self.attached@.len() - i,
        {
            if self.attached[i] == ifindex {
                proof {
                    assert(pre[i as int] == ifindex);
                }
                self.attached.remove(i);
                proof {
                    let post = self.attached@;
                    assert(post =~= pre.remove(i as int));
                    assert forall|a: int, b: int| 0 <= a < b < post.len() implies post[a]
                        != post[b] by {
                        let a2 = if a < i { a } else { a + 1 };
                        let b2 = if b < i { b } else { b + 1 };
                        assert(post[a] == pre[a2] && post[b] == pre[b2]);
                    }
                    assert(!final(self).spec_contains(ifindex)) by {
                        if final(self).spec_contains(ifindex) {
                            let j = choose|j: int| 0 <= j < post.len() && post[j] == ifindex;
                            let j2 = if j < i { j } else { j + 1 };
                            assert(pre[j2] == ifindex);
                            assert(j2 != i);
                        }
                    }
                    assert forall|other: u32| other != ifindex implies final(self).spec_contains(
                        other,
                    ) == old(self).spec_contains(other) by {
                        if final(self).spec_contains(other) {
                            let j = choose|j: int| 0 <= j < post.len() && post[j] == other;
                            let j2 = if j < i { j } else { j + 1 };
                            assert(pre[j2] == other);
                        }
                        if old(self).spec_contains(other) {
                            let k = choose|k: int| 0 <= k < pre.len() && pre[k] == other;
                            assert(k != i);
                            let k2 = if k < i { k } else { k - 1 };
                            assert(post[k2] == pre[k]);
                        }
                    }
                    assert(pre.contains(ifindex)) by {
                        assert(pre[i as int] == ifindex);
                    }
                }
                return true;
            }
            i = i + 1;
        }
        false
    }
}

} // verus!
