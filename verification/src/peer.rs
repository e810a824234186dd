//! The peer stream's bookkeeping: the set of known nodes, and which
//! added, updated and deleted notifications each cache event calls for.

use vstd::prelude::*;

verus! {

use crate::identity::Identity;
use crate::net::IpAddress;
use crate::text::string_eq;
use vstd::string::StrSliceExecFns;

/// Kind of a peer change.
#[derive(Clone, Copy, PartialEq, Eq, Structural, Debug)]
pub enum ChangeKind {
    PeerAdded,
    PeerUpdated,
    PeerDeleted,
}

/// One peer change notification: the node's name, and its address for
/// additions and updates.
#[derive(Debug)]
pub struct ChangeNotification {
    pub name: String,
    pub address: Option<IpAddress>,
    pub kind: ChangeKind,
}

/// The mathematical value of a change notification.
pub ghost struct ChangeNotificationView {
    pub name: Seq<char>,
    pub address: Option<IpAddress>,
    pub kind: ChangeKind,
}

impl View for ChangeNotification {
    type V = ChangeNotificationView;

    open spec fn view(&self) -> ChangeNotificationView {
        ChangeNotificationView {
            name: self.name@,
            address: self.address,
            kind: self.kind,
        }
    }
}

/// The set of nodes already reported to a subscriber, each under one name.
pub struct PeerSet {
    known: Vec<(String, IpAddress)>,
}

impl PeerSet {
    pub closed spec fn spec_known(&self) -> Seq<(String, IpAddress)> {
        self.known@
    }

    /// No node name appears twice.
    pub open spec fn wf(&self) -> bool {
        forall|i: int, j: int|
            0 <= i < j < self.spec_known().len() ==> (#[trigger] self.spec_known()[i]).0@ != (
            #[trigger] self.spec_known()[j]).0@
    }

    pub open spec fn spec_has_name(&self, name: Seq<char>) -> bool {
        exists|i: int| 0 <= i < self.spec_known().len() && (#[trigger] self.spec_known()[i]).0@
            == name
    }

    pub open spec fn spec_addr_of(&self, name: Seq<char>) -> IpAddress {
        let i = choose|i: int|
            0 <= i < self.spec_known().len() && (#[trigger] self.spec_known()[i]).0@ == name;
        self.spec_known()[i].1
    }

    /// An empty set.
    pub fn new() -> (r: Self)
        ensures
            r.wf(),
            forall|name: Seq<char>| !r.spec_has_name(name),
    {
        let r = PeerSet { known: Vec::new() };
        proof {
            assert forall|name: Seq<char>| !r.spec_has_name(name) by {
                assert(r.spec_known().len() == 0);
            }
        }
        r
    }

    fn find_name(&self, name: &String) -> (r: Option<usize>)
        ensures
            match r {
                Some(i) => i < self.spec_known().len() && self.spec_known()[i as int].0@ == name@,
                None => !self.spec_has_name(name@),
            },
    {
        let mut i: usize = 0;
        while i < self.known.len()
            invariant
                i <= self.known@.len(),
                forall|j: int| 0 <= j < i ==> (#[trigger] self.known@[j]).0@ != name@,
            decreases self.known@.len() - i,
        {
            if string_eq(&self.known[i].0, name) {
                return Some(i);
            }
            i = i + 1;
        }
        None
    }

    /// Handle a cache upsert: a non-node identity is ignored; a known node
    /// at the same address is a no-op; a known node at a new address is an
    /// update; a new node is an addition.
    pub fn handle_upsert(&mut self, ip: IpAddress, identity: &Identity) -> (r: Option<
        ChangeNotification,
    >)
        requires
            old(self).wf(),
        ensures
            final(self).wf(),
            identity.node_name@.len() == 0 ==> r is None && *final(self) == *old(self),
            identity.node_name@.len() > 0 ==> ({
                let name = identity.node_name@;
                if old(self).spec_has_name(name) && old(self).spec_addr_of(name) == ip {
                    r is None && *final(self) == *old(self)
                } else {
                    &&& final(self).spec_has_name(name)
                    &&& final(self).spec_addr_of(name) == ip
                    &&& match r {
                        Some(n) => n@.name == name && n@.address == Some(ip) && n@.kind == (if old(self).spec_has_name(name) {
                            ChangeKind::PeerUpdated
                        } else {
                            ChangeKind::PeerAdded
                        }),
                        None => false,
                    }
                    &&& (forall|other: Seq<char>|
                        other != name ==> final(self).spec_has_name(other) == old(self).spec_has_name(other))
                }
            }),
    {
        if identity.node_name.as_str().unicode_len() == 0 {
            return None;
        }
        let name = identity.node_name.clone();
        let ghost pre = self.known@;
        match self.find_name(&name) {
            Some(i) => {
                if self.known[i].1 == ip {
                    proof {
                        let j = choose|j: int|
                            0 <= j < pre.len() && (#[trigger] pre[j]).0@ == name@;
                        assert(j == i);
                    }
                    return None;
                }
                self.known.set(i, (name, ip));
                proof {
                    let post = self.known@;
                    assert(post =~= pre.update(i as int, (identity.node_name, ip)));
                    assert(post[i as int].0@ == identity.node_name@);
                    assert forall|a: int, b: int| 0 <= a < b < post.len() implies (
                    #[trigger] post[a]).0@ != (#[trigger] post[b]).0@ by {
                        assert(post[a].0@ == pre[a].0@ && post[b].0@ == pre[b].0@);
                    }
                    assert(final(self).spec_has_name(identity.node_name@));
                    let j = choose|j: int|
                        0 <= j < post.len() && (#[trigger] post[j]).0@ == identity.node_name@;
                    assert(j == i);
                    assert forall|other: Seq<char>| other != identity.node_name@ implies final(self).spec_has_name(other) == old(self).spec_has_name(other) by {
                        if final(self).spec_has_name(other) {
                            let k = choose|k: int|
                                0 <= k < post.len() && (#[trigger] post[k]).0@ == other;
                            assert(pre[k].0@ == other);
                        }
                        if old(self).spec_has_name(other) {
                            let k = choose|k: int|
                                0 <= k < pre.len() && (#[trigger] pre[k]).0@ == other;
                            assert(k != i);
                            assert(post[k].0@ == other);
                        }
                    }
                }
                Some(
                    ChangeNotification {
                        name: identity.node_name.clone(),
                        address: Some(ip),
                        kind: ChangeKind::PeerUpdated,
                    },
                )
            },
            None => {
                self.known.push((name, ip));
                proof {
                    let post = self.known@;
                    assert(post =~= pre.push((identity.node_name, ip)));
                    assert(post[post.len() - 1].0@ == identity.node_name@);
                    assert forall|a: int, b: int| 0 <= a < b < post.len() implies (
                    #[trigger] post[a]).0@ != (#[trigger] post[b]).0@ by {
                        if b == post.len() - 1 {
                            assert(post[a].0@ == pre[a].0@);
                            if pre[a].0@ == identity.node_name@ {
                                assert(old(self).spec_has_name(identity.node_name@));
                            }
                        } else {
                            assert(post[a].0@ == pre[a].0@ && post[b].0@ == pre[b].0@);
                        }
                    }
                    assert(final(self).spec_has_name(identity.node_name@));
                    let j = choose|j: int|
                        0 <= j < post.len() && (#[trigger] post[j]).0@ == identity.node_name@;
                    assert(j == post.len() - 1) by {
                        if j < post.len() - 1 {
                            assert(pre[j].0@ == identity.node_name@);
                            assert(old(self).spec_has_name(identity.node_name@));
                        }
                    }
                    assert forall|other: Seq<char>| other != identity.node_name@ implies final(self).spec_has_name(other) == old(self).spec_has_name(other) by {
                        if final(self).spec_has_name(other) {
                            let k = choose|k: int|
                                0 <= k < post.len() && (#[trigger] post[k]).0@ == other;
                            assert(k < post.len() - 1);
                            assert(pre[k].0@ == other);
                        }
                        if old(self).spec_has_name(other) {
                            let k = choose|k: int|
                                0 <= k < pre.len() && (#[trigger] pre[k]).0@ == other;
                            assert(post[k].0@ == other);
                        }
                    }
                }
                Some(
                    ChangeNotification {
                        name: identity.node_name.clone(),
                        address: Some(ip),
                        kind: ChangeKind::PeerAdded,
                    },
                )
            },
        }
    }

    /// Handle a cache delete: when the address belongs to a known node,
    /// that node is deleted.
    pub fn handle_delete(&mut self, ip: IpAddress) -> (r: Option<ChangeNotification>)
        requires
            old(self).wf(),
        ensures
            final(self).wf(),
            match r {
                Some(n) => old(self).spec_has_name(n@.name) && old(self).spec_addr_of(n@.name)
                    == ip && n@.kind == ChangeKind::PeerDeleted && !final(self).spec_has_name(
                    n@.name,
                ) && forall|other: Seq<char>|
                    other != n@.name ==> final(self).spec_has_name(other) == old(self).spec_has_name(other),
                None => final(self).spec_known() == old(self).spec_known() && forall|
                    name: Seq<char>,
                |
                    old(self).spec_has_name(name) ==> old(self).spec_addr_of(name) != ip,
            },
    {
        let ghost pre = self.known@;
        let mut i: usize = 0;
        while i < self.known.len()
            invariant
                pre == self.known@,
                pre == old(self).spec_known(),
                forall|a: int, b: int| 0 <= a < b < pre.len() ==> (#[trigger] pre[a]).0@ != (
                #[trigger] pre[b]).0@,
                i <= self.known@.len(),
                forall|j: int| 0 <= j < i ==> (#[trigger] pre[j]).1 != ip,
            decreases self.known@.len() - i,
        {
            if self.known[i].1 == ip {
                let name = self.known[i].0.clone();
                proof {
                    assert(pre[i as int].1 == ip && pre[i as int].0@ == name@);
                    assert(old(self).spec_has_name(name@));
                    let j = choose|j: int| 0 <= j < pre.len() && (#[trigger] pre[j]).0@ == name@;
                    assert(j == i);
                }
                self.known.remove(i);
                proof {
                    let post = self.known@;
                    assert(post =~= pre.remove(i as int));
                    assert forall|a: int, b: int| 0 <= a < b < post.len() implies (
                    #[trigger] post[a]).0@ != (#[trigger] post[b]).0@ by {
                        let a2 = if a < i { a } else { a + 1 };
                        let b2 = if b < i { b } else { b + 1 };
                        assert(post[a] == pre[a2] && post[b] == pre[b2]);
                    }
                    assert(!self.spec_has_name(name@)) by {
                        if self.spec_has_name(name@) {
                            let k = choose|k: int|
                                0 <= k < post.len() && (#[trigger] post[k]).0@ == name@;
                            let k2 = if k < i { k } else { k + 1 };
                            assert(pre[k2].0@ == name@);
                            assert(k2 != i);
                        }
                    }
                    assert forall|other: Seq<char>| other != name@ implies self.spec_has_name(other) == old(self).spec_has_name(other) by {
                        if self.spec_has_name(other) {
                            let k = choose|k: int|
                                0 <= k < post.len() && (#[trigger] post[k]).0@ == other;
                            let k2 = if k < i { k } else { k + 1 };
                            assert(0 <= k2 < pre.len() && pre[k2].0@ == other);
                            assert(old(self).spec_has_name(other));
                        }
                        if old(self).spec_has_name(other) {
                            let k = choose|k: int|
                                0 <= k < pre.len() && (#[trigger] pre[k]).0@ == other;
                            assert(k != i);
                            let k2 = if k < i { k } else { k - 1 };
                            assert(post[k2] == pre[k]);
                            assert(0 <= k2 < post.len() && post[k2].0@ == other);
                            assert((self.spec_known()[k2]).0@ == other);
                            assert(self.spec_has_name(other));
                        }
                    }
                }
                return Some(
                    ChangeNotification { name, address: None, kind: ChangeKind::PeerDeleted },
                );
            }
            i = i + 1;
        }
        proof {
            assert forall|name: Seq<char>| old(self).spec_has_name(name) implies old(self).spec_addr_of(name) != ip by {
                let j = choose|j: int| 0 <= j < pre.len() && (#[trigger] pre[j]).0@ == name;
                let k = choose|k: int| 0 <= k < pre.len() && (#[trigger] pre[k]).0@ == name;
                assert(k == j);
            }
        }
        None
    }

    /// Handle a cache clear: every known node is deleted and the set is
    /// emptied.
    pub fn handle_clear(&mut self) -> (r: Vec<ChangeNotification>)
        requires
            old(self).wf(),
        ensures
            final(self).wf(),
            forall|name: Seq<char>| !final(self).spec_has_name(name),
            r@.len() == old(self).spec_known().len(),
            forall|i: int|
                0 <= i < r@.len() ==> (#[trigger] r@[i])@.name == old(self).spec_known()[i].0@
                    && r@[i]@.kind == ChangeKind::PeerDeleted,
    {
        let ghost pre = self.known@;
        let mut out: Vec<ChangeNotification> = Vec::new();
        let mut i: usize = 0;
        while i < self.known.len()
            invariant
                pre == self.known@,
                i <= self.known@.len(),
                out@.len() == i,
                forall|j: int|
                    0 <= j < i ==> (#[trigger] out@[j])@.name == pre[j].0@ && out@[j]@.kind
                        == ChangeKind::PeerDeleted,
            decreases self.known@.len() - i,
        {
            out.push(
                ChangeNotification {
                    name: self.known[i].0.clone(),
                    address: None,
                    kind: ChangeKind::PeerDeleted,
                },
            );
            i = i + 1;
        }
        self.known = Vec::new();
        proof {
            assert forall|name: Seq<char>| !final(self).spec_has_name(name) by {
                assert(final(self).spec_known().len() == 0);
            }
        }
        out
    }

    /// The known nodes, as (name, address) pairs.
    pub fn known_peers(&self) -> (r: Vec<(String, IpAddress)>)
        ensures
            r@.len() == self.spec_known().len(),
            forall|i: int|
                0 <= i < r@.len() ==> (#[trigger] r@[i]).0@ == self.spec_known()[i].0@
                    && r@[i].1 == self.spec_known()[i].1,
    {
        let mut out: Vec<(String, IpAddress)> = Vec::new();
        let mut i: usize = 0;
        while i < self.known.len()
            invariant
                i <= self.known@.len(),
                out@.len() == i,
                forall|j: int|
                    0 <= j < i ==> (#[trigger] out@[j]).0@ == self.known@[j].0@ && out@[j].1
                        == self.known@[j].1,
            decreases self.known@.len() - i,
        {
            out.push((self.known[i].0.clone(), self.known[i].1));
            i = i + 1;
        }
        out
    }

    /// Reconcile after a missed stretch of events: delete every node no
    /// longer present, then add or update from the current list, which
    /// becomes the known set.
    pub fn reconcile(&mut self, current: Vec<(String, IpAddress)>) -> (r: Vec<ChangeNotification>)
        requires
            old(self).wf(),
            forall|i: int, j: int|
                0 <= i < j < current@.len() ==> (#[trigger] current@[i]).0@ != (
                #[trigger] current@[j]).0@,
        ensures
            final(self).wf(),
            final(self).spec_known().len() == current@.len(),
            forall|i: int|
                0 <= i < current@.len() ==> (#[trigger] final(self).spec_known()[i]).0@
                    == current@[i].0@ && final(self).spec_known()[i].1 == current@[i].1,
            // Every notification is warranted by the diff.
            forall|n: int|
                0 <= n < r@.len() ==> match (#[trigger] r@[n]).kind {
                    ChangeKind::PeerDeleted => old(self).spec_has_name(r@[n].name@)
                        && !listed_name(current@, r@[n].name@),
                    ChangeKind::PeerAdded => listed_name(current@, r@[n].name@) && !old(
                        self,
                    ).spec_has_name(r@[n].name@),
                    ChangeKind::PeerUpdated => old(self).spec_has_name(r@[n].name@)
                        && listed_name(current@, r@[n].name@) && r@[n].address is Some && old(
                        self,
                    ).spec_addr_of(r@[n].name@) != r@[n].address->Some_0,
                },
            // Every vanished node is announced deleted, every new one added,
            // every moved one updated.
            forall|i: int|
                0 <= i < old(self).spec_known().len() && !listed_name(
                    current@,
                    (#[trigger] old(self).spec_known()[i]).0@,
                ) ==> notified(r@, old(self).spec_known()[i].0@, ChangeKind::PeerDeleted),
            forall|k: int|
                0 <= k < current@.len() && !old(self).spec_has_name((#[trigger] current@[k]).0@)
                    ==> notified(r@, current@[k].0@, ChangeKind::PeerAdded),
            forall|k: int|
                0 <= k < current@.len() && old(self).spec_has_name((#[trigger] current@[k]).0@)
                    && old(self).spec_addr_of(current@[k].0@) != current@[k].1 ==> notified(
                    r@,
                    current@[k].0@,
                    ChangeKind::PeerUpdated,
                ),
    {
        let ghost pre = self.known@;
        let mut out: Vec<ChangeNotification> = Vec::new();

        // Deletes for nodes that vanished.
        let mut i: usize = 0;
        while i < self.known.len()
            invariant
                pre == self.known@,
                pre == old(self).spec_known(),
                i <= self.known@.len(),
                forall|n: int|
                    0 <= n < out@.len() ==> (#[trigger] out@[n]).kind == ChangeKind::PeerDeleted
                        && old(self).spec_has_name(out@[n].name@) && !listed_name(
                        current@,
                        out@[n].name@,
                    ),
                forall|j: int|
                    0 <= j < i && !listed_name(current@, (#[trigger] pre[j]).0@) ==> notified(
                        out@,
                        pre[j].0@,
                        ChangeKind::PeerDeleted,
                    ),
            decreases self.known@.len() - i,
        {
            let mut found = false;
            let mut k: usize = 0;
            while k < current.len()
                invariant
                    pre == self.known@,
                    k <= current@.len(),
                    i < self.known@.len(),
                    found == exists|b: int|
                        0 <= b < k && (#[trigger] current@[b]).0@ == pre[i as int].0@,
                decreases current@.len() - k,
            {
                if string_eq(&current[k].0, &self.known[i].0) {
                    proof {
                        assert(current@[k as int].0@ == pre[i as int].0@);
                    }
                    found = true;
                }
                k = k + 1;
            }
            if !found {
                let ghost out0 = out@;
                out.push(
                    ChangeNotification {
                        name: self.known[i].0.clone(),
                        address: None,
                        kind: ChangeKind::PeerDeleted,
                    },
                );
                proof {
                    assert(out@[out@.len() - 1].name@ == pre[i as int].0@);
                    assert(notified(out@, pre[i as int].0@, ChangeKind::PeerDeleted));
                    assert forall|j: int|
                        0 <= j < i + 1 && !listed_name(current@, (#[trigger] pre[j]).0@)
                            implies notified(out@, pre[j].0@, ChangeKind::PeerDeleted) by {
                        if j < i {
                            let n0 = choose|n0: int|
                                0 <= n0 < out0.len() && (#[trigger] out0[n0]).name@ == pre[j].0@
                                    && out0[n0].kind == ChangeKind::PeerDeleted;
                            assert(out@[n0].name@ == pre[j].0@);
                        }
                    }
                }
            } else {
                proof {
                    assert(listed_name(current@, pre[i as int].0@));
                }
            }
            i = i + 1;
        }

        // Adds and updates from the current list.
        let ghost deletes = out@;
        let mut k: usize = 0;
        while k < current.len()
            invariant
                pre == self.known@,
                pre == old(self).spec_known(),
                forall|a: int, b: int| 0 <= a < b < pre.len() ==> (#[trigger] pre[a]).0@ != (
                #[trigger] pre[b]).0@,
                k <= current@.len(),
                out@.len() >= deletes.len(),
                forall|n: int| 0 <= n < deletes.len() ==> #[trigger] out@[n] == deletes[n],
                forall|n: int|
                    0 <= n < deletes.len() ==> (#[trigger] out@[n]).kind
                        == ChangeKind::PeerDeleted && old(self).spec_has_name(out@[n].name@)
                        && !listed_name(current@, out@[n].name@),
                forall|n: int|
                    deletes.len() <= n < out@.len() ==> match (#[trigger] out@[n]).kind {
                        ChangeKind::PeerDeleted => false,
                        ChangeKind::PeerAdded => listed_name(current@, out@[n].name@) && !old(
                            self,
                        ).spec_has_name(out@[n].name@),
                        ChangeKind::PeerUpdated => old(self).spec_has_name(out@[n].name@)
                            && listed_name(current@, out@[n].name@) && out@[n].address is Some
                            && old(self).spec_addr_of(out@[n].name@) != out@[n].address->Some_0,
                    },
                forall|j: int|
                    0 <= j < pre.len() && !listed_name(current@, (#[trigger] pre[j]).0@)
                        ==> notified(out@, pre[j].0@, ChangeKind::PeerDeleted),
                forall|c: int|
                    0 <= c < k && !old(self).spec_has_name((#[trigger] current@[c]).0@)
                        ==> notified(out@, current@[c].0@, ChangeKind::PeerAdded),
                forall|c: int|
                    0 <= c < k && old(self).spec_has_name((#[trigger] current@[c]).0@) && old(
                        self,
                    ).spec_addr_of(current@[c].0@) != current@[c].1 ==> notified(
                        out@,
                        current@[c].0@,
                        ChangeKind::PeerUpdated,
                    ),
            decreases current@.len() - k,
        {
            let ghost out0 = out@;
            match self.find_name(&current[k].0) {
                Some(j) => {
                    proof {
                        assert(old(self).spec_has_name(current@[k as int].0@));
                        let w = choose|w: int|
                            0 <= w < pre.len() && (#[trigger] pre[w]).0@ == current@[k as int].0@;
                        assert(w == j);
                    }
                    if self.known[j].1 != current[k].1 {
                        out.push(
                            ChangeNotification {
                                name: current[k].0.clone(),
                                address: Some(current[k].1),
                                kind: ChangeKind::PeerUpdated,
                            },
                        );
                        proof {
                            assert(out@[out@.len() - 1].name@ == current@[k as int].0@);
                            assert(notified(out@, current@[k as int].0@, ChangeKind::PeerUpdated));
                        }
                    } else {
                        proof {
                            assert(old(self).spec_addr_of(current@[k as int].0@) == current@[k as int].1);
                        }
                    }
                },
                None => {
                    out.push(
                        ChangeNotification {
                            name: current[k].0.clone(),
                            address: Some(current[k].1),
                            kind: ChangeKind::PeerAdded,
                        },
                    );
                    proof {
                        assert(out@[out@.len() - 1].name@ == current@[k as int].0@);
                        assert(notified(out@, current@[k as int].0@, ChangeKind::PeerAdded));
                    }
                },
            }
            proof {
                lemma_notified_grows(out0, out@, current@, pre);
            }
            k = k + 1;
        }

        let mut fresh: Vec<(String, IpAddress)> = Vec::new();
        let mut m: usize = 0;
        while m < current.len()
            invariant
                m <= current@.len(),
                fresh@.len() == m,
                forall|j: int|
                    0 <= j < m ==> (#[trigger] fresh@[j]).0@ == current@[j].0@ && fresh@[j].1
                        == current@[j].1,
            decreases current@.len() - m,
        {
            fresh.push((current[m].0.clone(), current[m].1));
            m = m + 1;
        }
        self.known = fresh;
        out
    }
}

/// A name appears in a peer list.
pub open spec fn listed_name(s: Seq<(String, IpAddress)>, name: Seq<char>) -> bool {
    exists|i: int| 0 <= i < s.len() && (#[trigger] s[i]).0@ == name
}

/// A notification for this name and kind is in the list.
pub open spec fn notified(r: Seq<ChangeNotification>, name: Seq<char>, kind: ChangeKind) -> bool {
    exists|n: int|
        0 <= n < r.len() && (#[trigger] r[n]).name@ == name && r[n].kind == kind
}

/// Notifications already present survive appending more.
proof fn lemma_notified_grows(
    shorter: Seq<ChangeNotification>,
    longer: Seq<ChangeNotification>,
    current: Seq<(String, IpAddress)>,
    pre: Seq<(String, IpAddress)>,
)
    requires
        shorter.len() <= longer.len(),
        forall|n: int| 0 <= n < shorter.len() ==> #[trigger] longer[n] == shorter[n],
    ensures
        forall|name: Seq<char>, kind: ChangeKind|
            #[trigger] notified(shorter, name, kind) ==> notified(longer, name, kind),
{
    assert forall|name: Seq<char>, kind: ChangeKind|
        #[trigger] notified(shorter, name, kind) implies notified(longer, name, kind) by {
        let n = choose|n: int|
            0 <= n < shorter.len() && (#[trigger] shorter[n]).name@ == name && shorter[n].kind
                == kind;
        assert(longer[n] == shorter[n]);
        assert((longer[n]).name@ == name && longer[n].kind == kind);
    }
}

} // verus!
