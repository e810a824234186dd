//! The 5-tuple connection-tracking state machine: entry creation on first
//! packet, per-packet report decisions, FIN/RST/TIME_WAIT transitions, and
//! the periodic garbage-collection sweep.

use vstd::prelude::*;

verus! {

use crate::kvlist::{distinct_keys, contains_key, value_at, lemma_value_at_index,
    lemma_remove_entry, lemma_push_entry, lemma_update_entry};

// ── Observation points ───────────────────────────────────────────────
pub const OBS_FROM_ENDPOINT: u8 = 0;
pub const OBS_TO_ENDPOINT: u8 = 1;
pub const OBS_FROM_NETWORK: u8 = 2;
pub const OBS_TO_NETWORK: u8 = 3;

// ── Traffic direction ────────────────────────────────────────────────
pub const DIR_UNKNOWN: u8 = 0;
pub const DIR_INGRESS: u8 = 1;
pub const DIR_EGRESS: u8 = 2;

// ── TCP flags ────────────────────────────────────────────────────────
pub const TCP_FIN: u16 = 0x01;
pub const TCP_SYN: u16 = 0x02;
pub const TCP_RST: u16 = 0x04;
pub const TCP_PSH: u16 = 0x08;
pub const TCP_ACK: u16 = 0x10;
pub const TCP_URG: u16 = 0x20;
pub const TCP_ECE: u16 = 0x40;
pub const TCP_CWR: u16 = 0x80;
pub const TCP_NS: u16 = 0x100;

// ── Conntrack timeouts (seconds) ─────────────────────────────────────
pub const CT_LIFETIME_TCP: u32 = 360;
pub const CT_TIME_WAIT_TCP: u32 = 30;
pub const CT_LIFETIME_NONTCP: u32 = 60;
pub const CT_SYN_TIMEOUT: u32 = 60;
pub const CT_REPORT_INTERVAL: u32 = 30;
pub const CT_MAP_SIZE: u32 = 262144;

// ── IP protocol numbers ──────────────────────────────────────────────
pub const IPPROTO_TCP: u8 = 6;
pub const IPPROTO_UDP: u8 = 17;

/// Direction of a packet relative to its conntrack entry.
pub const CT_PACKET_DIR_TX: u8 = 0;
pub const CT_PACKET_DIR_RX: u8 = 1;

/// Per-flag counts accumulated between reports.
#[derive(Clone, Copy, PartialEq, Eq, Structural, Debug)]
pub struct TcpFlagsCount {
    pub syn: u32,
    pub ack: u32,
    pub fin: u32,
    pub rst: u32,
    pub psh: u32,
    pub urg: u32,
    pub ece: u32,
    pub cwr: u32,
    pub ns: u32,
}

/// The all-zero flag count.
pub open spec fn flags_count_zero() -> TcpFlagsCount {
    TcpFlagsCount { syn: 0, ack: 0, fin: 0, rst: 0, psh: 0, urg: 0, ece: 0, cwr: 0, ns: 0 }
}

impl TcpFlagsCount {
    /// The all-zero flag count.
    pub fn zero() -> (r: Self)
        ensures
            r == flags_count_zero(),
    {
        TcpFlagsCount { syn: 0, ack: 0, fin: 0, rst: 0, psh: 0, urg: 0, ece: 0, cwr: 0, ns: 0 }
    }
}

/// Lifetime cumulative statistics of a connection.
#[derive(Clone, Copy, PartialEq, Eq, Structural, Debug)]
pub struct ConntrackMetadata {
    pub bytes_tx: u64,
    pub bytes_rx: u64,
    pub pkts_tx: u32,
    pub pkts_rx: u32,
}

/// The all-zero metadata.
pub open spec fn metadata_zero() -> ConntrackMetadata {
    ConntrackMetadata { bytes_tx: 0, bytes_rx: 0, pkts_tx: 0, pkts_rx: 0 }
}

impl ConntrackMetadata {
    /// The all-zero metadata.
    pub fn zero() -> (r: Self)
        ensures
            r == metadata_zero(),
    {
        ConntrackMetadata { bytes_tx: 0, bytes_rx: 0, pkts_tx: 0, pkts_rx: 0 }
    }
}

/// A packet event as the kernel observer emits it.
#[derive(Clone, Copy, PartialEq, Eq, Structural, Debug)]
pub struct PacketEvent {
    pub ts_ns: u64,
    pub bytes: u32,
    pub src_ip: u32,
    pub dst_ip: u32,
    pub src_port: u16,
    pub dst_port: u16,
    pub proto: u8,
    pub observation_point: u8,
    pub traffic_direction: u8,
    pub flags: u16,
    pub is_reply: u8,
    pub previously_observed_packets: u32,
    pub previously_observed_bytes: u32,
    pub prev_flags: TcpFlagsCount,
    pub ct_metadata: ConntrackMetadata,
}

/// The 5-tuple key of a tracked connection.
#[derive(Clone, Copy, PartialEq, Eq, Structural, Debug, Hash)]
pub struct CtV4Key {
    pub src_ip: u32,
    pub dst_ip: u32,
    pub src_port: u16,
    pub dst_port: u16,
    pub proto: u8,
}

/// Per-connection tracking state.
#[derive(Clone, Copy, PartialEq, Eq, Structural, Debug)]
pub struct CtEntry {
    pub eviction_time: u32,
    pub last_report_tx_dir: u32,
    pub last_report_rx_dir: u32,
    pub bytes_since_report_tx: u32,
    pub bytes_since_report_rx: u32,
    pub pkts_since_report_tx: u32,
    pub pkts_since_report_rx: u32,
    pub flags_since_report_tx: TcpFlagsCount,
    pub flags_since_report_rx: TcpFlagsCount,
    pub traffic_direction: u8,
    pub flags_seen_tx: u8,
    pub flags_seen_rx: u8,
    pub is_direction_unknown: u8,
    pub ct_metadata: ConntrackMetadata,
}

/// The all-zero entry.
pub open spec fn entry_zero() -> CtEntry {
    CtEntry {
        eviction_time: 0,
        last_report_tx_dir: 0,
        last_report_rx_dir: 0,
        bytes_since_report_tx: 0,
        bytes_since_report_rx: 0,
        pkts_since_report_tx: 0,
        pkts_since_report_rx: 0,
        flags_since_report_tx: flags_count_zero(),
        flags_since_report_rx: flags_count_zero(),
        traffic_direction: 0,
        flags_seen_tx: 0,
        flags_seen_rx: 0,
        is_direction_unknown: 0,
        ct_metadata: metadata_zero(),
    }
}

impl Default for CtEntry {
    fn default() -> (r: Self)
        ensures
            r == entry_zero(),
    {
        CtEntry {
            eviction_time: 0,
            last_report_tx_dir: 0,
            last_report_rx_dir: 0,
            bytes_since_report_tx: 0,
            bytes_since_report_rx: 0,
            pkts_since_report_tx: 0,
            pkts_since_report_rx: 0,
            flags_since_report_tx: TcpFlagsCount::zero(),
            flags_since_report_rx: TcpFlagsCount::zero(),
            traffic_direction: 0,
            flags_seen_tx: 0,
            flags_seen_rx: 0,
            is_direction_unknown: 0,
            ct_metadata: ConntrackMetadata::zero(),
        }
    }
}

/// Result of conntrack processing for one packet.
#[derive(Clone, Copy, PartialEq, Eq, Structural, Debug)]
pub struct PacketReport {
    pub report: bool,
    pub previously_observed_packets: u32,
    pub previously_observed_bytes: u32,
    pub previously_observed_flags: TcpFlagsCount,
}

impl PacketReport {
    /// A non-report with no accumulated context.
    pub fn empty() -> (r: Self)
        ensures
            r.report == false,
            r.previously_observed_packets == 0,
            r.previously_observed_bytes == 0,
            r.previously_observed_flags == flags_count_zero(),
    {
        PacketReport {
            report: false,
            previously_observed_packets: 0,
            previously_observed_bytes: 0,
            previously_observed_flags: TcpFlagsCount::zero(),
        }
    }
}

// ── Saturating and wrapping arithmetic ───────────────────────────────

pub open spec fn sat_add_u32(a: u32, b: u32) -> u32 {
    if a + b > u32::MAX {
        u32::MAX
    } else {
        (a + b) as u32
    }
}

pub open spec fn sat_add_u64(a: u64, b: u64) -> u64 {
    if a + b > u64::MAX {
        u64::MAX
    } else {
        (a + b) as u64
    }
}

pub open spec fn wrap_sub_u32(a: u32, b: u32) -> u32 {
    if a >= b {
        (a - b) as u32
    } else {
        (a + 0x100000000 - b) as u32
    }
}

pub fn sat_add32(a: u32, b: u32) -> (r: u32)
    ensures
        r == sat_add_u32(a, b),
{
    if a > u32::MAX - b {
        u32::MAX
    } else {
        a + b
    }
}

pub fn sat_add64(a: u64, b: u64) -> (r: u64)
    ensures
        r == sat_add_u64(a, b),
{
    if a > u64::MAX - b {
        u64::MAX
    } else {
        a + b
    }
}

pub fn wrap_sub32(a: u32, b: u32) -> (r: u32)
    ensures
        r == wrap_sub_u32(a, b),
{
    if a >= b {
        a - b
    } else {
        (u32::MAX - b) + a + 1
    }
}

// ── Pure pieces of the machine ───────────────────────────────────────

/// Traffic direction implied by an observation point.
pub open spec fn spec_traffic_direction(obs_point: u8) -> u8 {
    if obs_point == OBS_FROM_ENDPOINT || obs_point == OBS_TO_NETWORK {
        DIR_EGRESS
    } else if obs_point == OBS_TO_ENDPOINT || obs_point == OBS_FROM_NETWORK {
        DIR_INGRESS
    } else {
        DIR_UNKNOWN
    }
}

/// Determine traffic direction from an observation point.
pub fn ct_get_traffic_direction(obs_point: u8) -> (r: u8)
    ensures
        r == spec_traffic_direction(obs_point),
{
    if obs_point == OBS_FROM_ENDPOINT || obs_point == OBS_TO_NETWORK {
        DIR_EGRESS
    } else if obs_point == OBS_TO_ENDPOINT || obs_point == OBS_FROM_NETWORK {
        DIR_INGRESS
    } else {
        DIR_UNKNOWN
    }
}

/// The key with source and destination swapped.
pub open spec fn spec_reverse_key(key: CtV4Key) -> CtV4Key {
    CtV4Key {
        src_ip: key.dst_ip,
        dst_ip: key.src_ip,
        src_port: key.dst_port,
        dst_port: key.src_port,
        proto: key.proto,
    }
}

/// Build a reverse key by swapping source and destination.
pub fn ct_reverse_key(key: &CtV4Key) -> (r: CtV4Key)
    ensures
        r == spec_reverse_key(*key),
{
    CtV4Key {
        src_ip: key.dst_ip,
        dst_ip: key.src_ip,
        src_port: key.dst_port,
        dst_port: key.src_port,
        proto: key.proto,
    }
}

/// Flag counts after recording one packet's flags, saturating.
pub open spec fn spec_record_flags(flags: u16, c: TcpFlagsCount) -> TcpFlagsCount {
    TcpFlagsCount {
        syn: if flags & TCP_SYN != 0 {
            sat_add_u32(c.syn, 1)
        } else {
            c.syn
        },
        ack: if flags & TCP_ACK != 0 {
            sat_add_u32(c.ack, 1)
        } else {
            c.ack
        },
        fin: if flags & TCP_FIN != 0 {
            sat_add_u32(c.fin, 1)
        } else {
            c.fin
        },
        rst: if flags & TCP_RST != 0 {
            sat_add_u32(c.rst, 1)
        } else {
            c.rst
        },
        psh: if flags & TCP_PSH != 0 {
            sat_add_u32(c.psh, 1)
        } else {
            c.psh
        },
        urg: if flags & TCP_URG != 0 {
            sat_add_u32(c.urg, 1)
        } else {
            c.urg
        },
        ece: if flags & TCP_ECE != 0 {
            sat_add_u32(c.ece, 1)
        } else {
            c.ece
        },
        cwr: if flags & TCP_CWR != 0 {
            sat_add_u32(c.cwr, 1)
        } else {
            c.cwr
        },
        ns: if flags & TCP_NS != 0 {
            sat_add_u32(c.ns, 1)
        } else {
            c.ns
        },
    }
}

/// Record one packet's flags into a count.
pub fn ct_record_tcp_flags(flags: u16, count: &mut TcpFlagsCount)
    ensures
        *final(count) == spec_record_flags(flags, *old(count)),
{
    if flags & TCP_SYN != 0 {
        count.syn = sat_add32(count.syn, 1);
    }
    if flags & TCP_ACK != 0 {
        count.ack = sat_add32(count.ack, 1);
    }
    if flags & TCP_FIN != 0 {
        count.fin = sat_add32(count.fin, 1);
    }
    if flags & TCP_RST != 0 {
        count.rst = sat_add32(count.rst, 1);
    }
    if flags & TCP_PSH != 0 {
        count.psh = sat_add32(count.psh, 1);
    }
    if flags & TCP_URG != 0 {
        count.urg = sat_add32(count.urg, 1);
    }
    if flags & TCP_ECE != 0 {
        count.ece = sat_add32(count.ece, 1);
    }
    if flags & TCP_CWR != 0 {
        count.cwr = sat_add32(count.cwr, 1);
    }
    if flags & TCP_NS != 0 {
        count.ns = sat_add32(count.ns, 1);
    }
}

// ── The per-packet step, as a mathematical function ──────────────────

/// What one packet does to an existing entry: the entry's next state
/// (`None` when the connection is deleted) and whether to report.
pub ghost struct CtStep {
    pub entry: Option<CtEntry>,
    pub report: bool,
}

/// Per-direction accessors.
pub open spec fn seen_flags_of(e: CtEntry, tx: bool) -> u8 {
    if tx {
        e.flags_seen_tx
    } else {
        e.flags_seen_rx
    }
}

pub open spec fn last_report_of(e: CtEntry, tx: bool) -> u32 {
    if tx {
        e.last_report_tx_dir
    } else {
        e.last_report_rx_dir
    }
}

pub open spec fn bytes_since_of(e: CtEntry, tx: bool) -> u32 {
    if tx {
        e.bytes_since_report_tx
    } else {
        e.bytes_since_report_rx
    }
}

pub open spec fn pkts_since_of(e: CtEntry, tx: bool) -> u32 {
    if tx {
        e.pkts_since_report_tx
    } else {
        e.pkts_since_report_rx
    }
}

pub open spec fn flags_since_of(e: CtEntry, tx: bool) -> TcpFlagsCount {
    if tx {
        e.flags_since_report_tx
    } else {
        e.flags_since_report_rx
    }
}

/// Both sides have seen a FIN, counting this packet's flags for its own
/// direction.
pub open spec fn both_fins_seen(e: CtEntry, combined: u8, tx: bool) -> bool {
    if tx {
        combined & (TCP_FIN as u8) != 0 && e.flags_seen_rx & (TCP_FIN as u8) != 0
    } else {
        e.flags_seen_tx & (TCP_FIN as u8) != 0 && combined & (TCP_FIN as u8) != 0
    }
}

/// The entry as it stands after this packet, when the connection survives.
pub open spec fn ct_surviving_entry(
    e: CtEntry,
    proto: u8,
    flags: u8,
    tx: bool,
    bytes: u32,
    now: u32,
    report: bool,
) -> CtEntry {
    let combined = flags | seen_flags_of(e, tx);
    let eviction = if proto == IPPROTO_TCP {
        if both_fins_seen(e, combined, tx) {
            sat_add_u32(now, CT_TIME_WAIT_TCP)
        } else {
            sat_add_u32(now, CT_LIFETIME_TCP)
        }
    } else if proto == IPPROTO_UDP {
        sat_add_u32(now, CT_LIFETIME_NONTCP)
    } else {
        e.eviction_time
    };
    let seen_tx = if tx {
        combined
    } else {
        e.flags_seen_tx
    };
    let seen_rx = if tx {
        e.flags_seen_rx
    } else {
        combined
    };
    if report {
        CtEntry {
            eviction_time: eviction,
            flags_seen_tx: seen_tx,
            flags_seen_rx: seen_rx,
            last_report_tx_dir: if tx {
                now
            } else {
                e.last_report_tx_dir
            },
            last_report_rx_dir: if tx {
                e.last_report_rx_dir
            } else {
                now
            },
            bytes_since_report_tx: if tx {
                0
            } else {
                e.bytes_since_report_tx
            },
            bytes_since_report_rx: if tx {
                e.bytes_since_report_rx
            } else {
                0
            },
            pkts_since_report_tx: if tx {
                0
            } else {
                e.pkts_since_report_tx
            },
            pkts_since_report_rx: if tx {
                e.pkts_since_report_rx
            } else {
                0
            },
            flags_since_report_tx: if tx {
                flags_count_zero()
            } else {
                e.flags_since_report_tx
            },
            flags_since_report_rx: if tx {
                e.flags_since_report_rx
            } else {
                flags_count_zero()
            },
            ..e
        }
    } else {
        CtEntry {
            eviction_time: eviction,
            flags_seen_tx: seen_tx,
            flags_seen_rx: seen_rx,
            bytes_since_report_tx: if tx {
                sat_add_u32(e.bytes_since_report_tx, bytes)
            } else {
                e.bytes_since_report_tx
            },
            bytes_since_report_rx: if tx {
                e.bytes_since_report_rx
            } else {
                sat_add_u32(e.bytes_since_report_rx, bytes)
            },
            pkts_since_report_tx: if tx {
                sat_add_u32(e.pkts_since_report_tx, 1)
            } else {
                e.pkts_since_report_tx
            },
            pkts_since_report_rx: if tx {
                e.pkts_since_report_rx
            } else {
                sat_add_u32(e.pkts_since_report_rx, 1)
            },
            flags_since_report_tx: if tx {
                spec_record_flags(flags as u16, e.flags_since_report_tx)
            } else {
                e.flags_since_report_tx
            },
            flags_since_report_rx: if tx {
                e.flags_since_report_rx
            } else {
                spec_record_flags(flags as u16, e.flags_since_report_rx)
            },
            ..e
        }
    }
}

/// The report decision for a surviving connection: control flags, a FIN,
/// a completed FIN exchange, a sampled new flag combination, or interval
/// expiry.
pub open spec fn ct_report_decision(
    e: CtEntry,
    flags: u8,
    tx: bool,
    now: u32,
    sampled: bool,
) -> bool {
    let seen = seen_flags_of(e, tx);
    let combined = flags | seen;
    let control = flags & ((TCP_SYN as u8) | (TCP_URG as u8) | (TCP_ECE as u8) | (TCP_CWR as u8))
        != 0;
    let fin = flags & (TCP_FIN as u8) != 0;
    (fin || control || both_fins_seen(e, combined, tx)) || (sampled && combined != seen)
        || wrap_sub_u32(now, last_report_of(e, tx)) >= CT_REPORT_INTERVAL
}

/// One packet against an existing entry: expiry, the final ACK of a FIN
/// exchange, and RST delete the entry and report; otherwise the entry is
/// updated in place per `ct_surviving_entry`.
pub open spec fn ct_step(
    e: CtEntry,
    proto: u8,
    flags: u8,
    tx: bool,
    bytes: u32,
    now: u32,
    sampled: bool,
) -> CtStep {
    let seen = seen_flags_of(e, tx);
    let combined = flags | seen;
    if now >= e.eviction_time {
        CtStep { entry: None, report: true }
    } else if proto == IPPROTO_TCP && combined & (TCP_ACK as u8) != 0 && combined & ((TCP_FIN
        as u8) | (TCP_SYN as u8) | (TCP_RST as u8)) == 0 && e.flags_seen_tx & (TCP_FIN as u8) != 0
        && e.flags_seen_rx & (TCP_FIN as u8) != 0 {
        CtStep { entry: None, report: true }
    } else if proto == IPPROTO_TCP && combined & (TCP_RST as u8) != 0 {
        CtStep { entry: None, report: true }
    } else {
        let report = if proto == IPPROTO_TCP {
            ct_report_decision(e, flags, tx, now, sampled)
        } else {
            (sampled && combined != seen) || wrap_sub_u32(now, last_report_of(e, tx))
                >= CT_REPORT_INTERVAL
        };
        CtStep { entry: Some(ct_surviving_entry(e, proto, flags, tx, bytes, now, report)), report }
    }
}

// ── The tracked-connection table ─────────────────────────────────────

/// The connection table, one entry per 5-tuple.
pub struct Conntrack {
    entries: Vec<(CtV4Key, CtEntry)>,
}

impl Conntrack {
    /// The entry list, as a mathematical value.
    pub closed spec fn spec_entries(&self) -> Seq<(CtV4Key, CtEntry)> {
        self.entries@
    }

    /// No key appears twice.
    pub open spec fn wf(&self) -> bool {
        distinct_keys(self.spec_entries())
    }

    pub open spec fn spec_contains(&self, key: CtV4Key) -> bool {
        contains_key(self.spec_entries(), key)
    }

    pub open spec fn spec_at(&self, key: CtV4Key) -> CtEntry {
        value_at(self.spec_entries(), key)
    }

    pub open spec fn spec_len(&self) -> nat {
        self.spec_entries().len()
    }

    /// Everything but `key` is unchanged between `pre` and `post`.
    pub open spec fn others_unchanged(pre: Self, post: Self, key: CtV4Key) -> bool {
        &&& forall|other: CtV4Key|
            other != key ==> post.spec_contains(other) == pre.spec_contains(other)
        &&& forall|other: CtV4Key|
            other != key && pre.spec_contains(other) ==> #[trigger] post.spec_at(other)
                == pre.spec_at(other)
    }

    /// An empty table.
    pub fn new() -> (r: Self)
        ensures
            r.wf(),
            r.spec_len() == 0,
            forall|key: CtV4Key| !r.spec_contains(key),
    {
        Conntrack { entries: Vec::new() }
    }

    /// Number of tracked connections.
    pub fn len(&self) -> (r: usize)
        ensures
            r == self.spec_len(),
    {
        self.entries.len()
    }

    fn find(&self, key: &CtV4Key) -> (r: Option<usize>)
        ensures
            match r {
                Some(i) => i < self.spec_entries().len() && self.spec_entries()[i as int].0
                    == *key,
                None => !self.spec_contains(*key),
            },
    {
        let mut i: usize = 0;
        while i < self.entries.len()
            invariant
                i <= self.entries@.len(),
                forall|j: int| 0 <= j < i ==> (#[trigger] self.entries@[j]).0 != *key,
            decreases self.entries@.len() - i,
        {
            if self.entries[i].0 == *key {
                return Some(i);
            }
            i = i + 1;
        }
        None
    }

    /// Look up an entry.
    pub fn get(&self, key: &CtV4Key) -> (r: Option<CtEntry>)
        requires
            self.wf(),
        ensures
            match r {
                Some(e) => self.spec_contains(*key) && e == self.spec_at(*key),
                None => !self.spec_contains(*key),
            },
    {
        match self.find(key) {
            Some(i) => {
                proof {
                    lemma_value_at_index(self.spec_entries(), i as int);
                }
                Some(self.entries[i].1)
            },
            None => None,
        }
    }

    /// Insert a fresh entry.
    fn insert_new(&mut self, key: CtV4Key, entry: CtEntry)
        requires
            old(self).wf(),
            !old(self).spec_contains(key),
        ensures
            final(self).wf(),
            final(self).spec_contains(key),
            final(self).spec_at(key) == entry,
            Self::others_unchanged(*old(self), *final(self), key),
            final(self).spec_len() == old(self).spec_len() + 1,
    {
        proof {
            lemma_push_entry(self.entries@, key, entry);
        }
        self.entries.push((key, entry));
    }

    /// Remove an entry by key.
    fn remove_key(&mut self, key: CtV4Key)
        requires
            old(self).wf(),
        ensures
            final(self).wf(),
            !final(self).spec_contains(key),
            Self::others_unchanged(*old(self), *final(self), key),
            final(self).spec_len() == if old(self).spec_contains(key) {
                old(self).spec_len() - 1
            } else {
                old(self).spec_len() as int
            },
    {
        let ghost pre = self.entries@;
        match self.find(&key) {
            Some(i) => {
                proof {
                    lemma_remove_entry(pre, i as int);
                    assert(contains_key(pre, key)) by {
                        assert(pre[i as int].0 == key);
                    }
                }
                self.entries.remove(i);
                proof {
                    assert(self.entries@ =~= pre.remove(i as int));
                }
            },
            None => {
            },
        }
    }

    /// Replace the entry at a known key.
    fn set_entry(&mut self, key: CtV4Key, entry: CtEntry)
        requires
            old(self).wf(),
            old(self).spec_contains(key),
        ensures
            final(self).wf(),
            final(self).spec_contains(key),
            final(self).spec_at(key) == entry,
            Self::others_unchanged(*old(self), *final(self), key),
            final(self).spec_len() == old(self).spec_len(),
    {
        let ghost pre = self.entries@;
        match self.find(&key) {
            Some(i) => {
                proof {
                    lemma_update_entry(pre, i as int, entry);
                }
                self.entries.set(i, (key, entry));
                proof {
                    assert(self.entries@ =~= pre.update(i as int, (pre[i as int].0, entry)));
                }
            },
            None => {
                proof {
                    assert(false);
                }
            },
        }
    }

    /// Apply one packet to an existing connection: decide whether to
    /// report, update or delete the entry, and return the accumulated
    /// context since the last report for this direction.
    pub fn ct_should_report_packet(
        &mut self,
        key: &CtV4Key,
        flags: u8,
        direction: u8,
        bytes: u32,
        now: u32,
        sampled: bool,
    ) -> (r: PacketReport)
        requires
            old(self).wf(),
            old(self).spec_contains(*key),
        ensures
            final(self).wf(),
            Self::others_unchanged(*old(self), *final(self), *key),
            ({
                let e = old(self).spec_at(*key);
                let tx = direction == CT_PACKET_DIR_TX;
                let step = ct_step(e, key.proto, flags, tx, bytes, now, sampled);
                &&& r.report == step.report
                &&& r.previously_observed_bytes == bytes_since_of(e, tx)
                &&& r.previously_observed_packets == pkts_since_of(e, tx)
                &&& r.previously_observed_flags == flags_since_of(e, tx)
                &&& match step.entry {
                    Some(ne) => final(self).spec_contains(*key) && final(self).spec_at(*key)
                        == ne,
                    None => !final(self).spec_contains(*key),
                }
            }),
    {
        let e = match self.get(key) {
            Some(e) => e,
            None => {
                proof {
                    assert(false);
                }
                CtEntry::default()
            },
        };
        let tx = direction == CT_PACKET_DIR_TX;

        let mut report = PacketReport::empty();
        let seen_flags: u8 = if tx {
            e.flags_seen_tx
        } else {
            e.flags_seen_rx
        };
        let last_report: u32 = if tx {
            e.last_report_tx_dir
        } else {
            e.last_report_rx_dir
        };
        report.previously_observed_bytes = if tx {
            e.bytes_since_report_tx
        } else {
            e.bytes_since_report_rx
        };
        report.previously_observed_packets = if tx {
            e.pkts_since_report_tx
        } else {
            e.pkts_since_report_rx
        };
        report.previously_observed_flags = if tx {
            e.flags_since_report_tx
        } else {
            e.flags_since_report_rx
        };

        // Connection timed out.
        if now >= e.eviction_time {
            self.remove_key(*key);
            report.report = true;
            return report;
        }

        let combined: u8 = flags | seen_flags;
        let proto = key.proto;

        if proto == IPPROTO_TCP {
            // Final ACK after both FINs seen.
            if combined & (TCP_ACK as u8) != 0 && combined & ((TCP_FIN as u8) | (TCP_SYN as u8) | (
            TCP_RST as u8)) == 0 && e.flags_seen_tx & (TCP_FIN as u8) != 0 && e.flags_seen_rx & (
            TCP_FIN as u8) != 0 {
                self.remove_key(*key);
                report.report = true;
                return report;
            }
            // RST: delete immediately.
            if combined & (TCP_RST as u8) != 0 {
                self.remove_key(*key);
                report.report = true;
                return report;
            }
        }

        // Decide whether to report.
        let fin = flags & (TCP_FIN as u8) != 0;
        let control = flags & ((TCP_SYN as u8) | (TCP_URG as u8) | (TCP_ECE as u8) | (TCP_CWR
            as u8)) != 0;
        let both_fins = if tx {
            combined & (TCP_FIN as u8) != 0 && e.flags_seen_rx & (TCP_FIN as u8) != 0
        } else {
            e.flags_seen_tx & (TCP_FIN as u8) != 0 && combined & (TCP_FIN as u8) != 0
        };
        let tcp_should = proto == IPPROTO_TCP && (fin || control || both_fins);
        let do_report = tcp_should || (sampled && combined != seen_flags) || wrap_sub32(
            now,
            last_report,
        ) >= CT_REPORT_INTERVAL;

        // Build the next entry state.
        let mut ne = e;
        if proto == IPPROTO_TCP {
            ne.eviction_time = if both_fins {
                sat_add32(now, CT_TIME_WAIT_TCP)
            } else {
                sat_add32(now, CT_LIFETIME_TCP)
            };
        } else if proto == IPPROTO_UDP {
            ne.eviction_time = sat_add32(now, CT_LIFETIME_NONTCP);
        }
        if tx {
            ne.flags_seen_tx = combined;
        } else {
            ne.flags_seen_rx = combined;
        }
        if do_report {
            if tx {
                ne.last_report_tx_dir = now;
                ne.bytes_since_report_tx = 0;
                ne.pkts_since_report_tx = 0;
                ne.flags_since_report_tx = TcpFlagsCount::zero();
            } else {
                ne.last_report_rx_dir = now;
                ne.bytes_since_report_rx = 0;
                ne.pkts_since_report_rx = 0;
                ne.flags_since_report_rx = TcpFlagsCount::zero();
            }
        } else {
            if tx {
                ne.bytes_since_report_tx = sat_add32(ne.bytes_since_report_tx, bytes);
                ne.pkts_since_report_tx = sat_add32(ne.pkts_since_report_tx, 1);
                ct_record_tcp_flags(flags as u16, &mut ne.flags_since_report_tx);
            } else {
                ne.bytes_since_report_rx = sat_add32(ne.bytes_since_report_rx, bytes);
                ne.pkts_since_report_rx = sat_add32(ne.pkts_since_report_rx, 1);
                ct_record_tcp_flags(flags as u16, &mut ne.flags_since_report_rx);
            }
        }
        self.set_entry(*key, ne);
        report.report = do_report;
        report
    }
}

/// Lifetime metadata after counting one more packet for a direction.
pub open spec fn bump_metadata(m: ConntrackMetadata, bytes: u32, tx: bool) -> ConntrackMetadata {
    if tx {
        ConntrackMetadata {
            pkts_tx: sat_add_u32(m.pkts_tx, 1),
            bytes_tx: sat_add_u64(m.bytes_tx, bytes as u64),
            ..m
        }
    } else {
        ConntrackMetadata {
            pkts_rx: sat_add_u32(m.pkts_rx, 1),
            bytes_rx: sat_add_u64(m.bytes_rx, bytes as u64),
            ..m
        }
    }
}

/// The entry created for a connection's first observed packet.
pub open spec fn new_conn_entry(
    eviction: u32,
    obs_point: u8,
    unknown_direction: bool,
    is_reply: bool,
    flags: u16,
    bytes: u32,
    now: u32,
    sampled: bool,
) -> CtEntry {
    let base = CtEntry {
        eviction_time: eviction,
        traffic_direction: spec_traffic_direction(obs_point),
        is_direction_unknown: if unknown_direction {
            1
        } else {
            0
        },
        ..entry_zero()
    };
    if is_reply {
        CtEntry {
            flags_seen_rx: flags as u8,
            last_report_rx_dir: if sampled {
                now
            } else {
                0
            },
            ct_metadata: ConntrackMetadata { pkts_rx: 1, bytes_rx: bytes as u64, ..metadata_zero() },
            bytes_since_report_rx: if sampled {
                0
            } else {
                bytes
            },
            pkts_since_report_rx: if sampled {
                0
            } else {
                1
            },
            flags_since_report_rx: if sampled {
                flags_count_zero()
            } else {
                spec_record_flags(flags, flags_count_zero())
            },
            ..base
        }
    } else {
        CtEntry {
            flags_seen_tx: flags as u8,
            last_report_tx_dir: if sampled {
                now
            } else {
                0
            },
            ct_metadata: ConntrackMetadata { pkts_tx: 1, bytes_tx: bytes as u64, ..metadata_zero() },
            bytes_since_report_tx: if sampled {
                0
            } else {
                bytes
            },
            pkts_since_report_tx: if sampled {
                0
            } else {
                1
            },
            flags_since_report_tx: if sampled {
                flags_count_zero()
            } else {
                spec_record_flags(flags, flags_count_zero())
            },
            ..base
        }
    }
}

/// Timeout granted to a new TCP connection: a bare SYN gets the handshake
/// timeout, anything else the established lifetime.
pub open spec fn new_tcp_timeout(flags: u16) -> u32 {
    if flags & TCP_SYN != 0 && flags & TCP_ACK == 0 {
        CT_SYN_TIMEOUT
    } else {
        CT_LIFETIME_TCP
    }
}

impl Conntrack {
    /// Create a new TCP connection entry, stamping the packet with its
    /// direction and lifetime statistics.
    fn ct_create_new_tcp_connection(
        &mut self,
        pkt: &mut PacketEvent,
        key: &CtV4Key,
        obs_point: u8,
        is_reply: bool,
        now: u32,
        sampled: bool,
    ) -> (r: PacketReport)
        requires
            old(self).wf(),
            !old(self).spec_contains(*key),
        ensures
            final(self).wf(),
            Self::others_unchanged(*old(self), *final(self), *key),
            r.previously_observed_packets == 0,
            r.previously_observed_bytes == 0,
            r.previously_observed_flags == flags_count_zero(),
            ({
                let timeout = new_tcp_timeout(old(pkt).flags);
                if now + timeout > u32::MAX {
                    &&& !final(self).spec_contains(*key)
                    &&& r.report == false
                    &&& *final(pkt) == *old(pkt)
                } else {
                    let entry = new_conn_entry(
                        (now + timeout) as u32,
                        obs_point,
                        false,
                        is_reply,
                        old(pkt).flags,
                        old(pkt).bytes,
                        now,
                        sampled,
                    );
                    &&& final(self).spec_contains(*key)
                    &&& final(self).spec_at(*key) == entry
                    &&& r.report == sampled
                    &&& *final(pkt) == (PacketEvent {
                        is_reply: if is_reply {
                            1
                        } else {
                            0
                        },
                        traffic_direction: spec_traffic_direction(obs_point),
                        ct_metadata: entry.ct_metadata,
                        ..*old(pkt)
                    })
                }
            }),
    {
        let timeout = if pkt.flags & TCP_SYN != 0 && pkt.flags & TCP_ACK == 0 {
            CT_SYN_TIMEOUT
        } else {
            CT_LIFETIME_TCP
        };
        if now > u32::MAX - timeout {
            return PacketReport::empty();
        }
        let eviction_time = now + timeout;

        let mut entry = CtEntry::default();
        entry.eviction_time = eviction_time;
        entry.is_direction_unknown = 0;
        entry.traffic_direction = ct_get_traffic_direction(obs_point);

        if is_reply {
            entry.flags_seen_rx = pkt.flags as u8;
            entry.last_report_rx_dir = if sampled {
                now
            } else {
                0
            };
            entry.ct_metadata.pkts_rx = 1;
            entry.ct_metadata.bytes_rx = pkt.bytes as u64;
            if !sampled {
                entry.bytes_since_report_rx = pkt.bytes;
                entry.pkts_since_report_rx = 1;
                ct_record_tcp_flags(pkt.flags, &mut entry.flags_since_report_rx);
            }
        } else {
            entry.flags_seen_tx = pkt.flags as u8;
            entry.last_report_tx_dir = if sampled {
                now
            } else {
                0
            };
            entry.ct_metadata.pkts_tx = 1;
            entry.ct_metadata.bytes_tx = pkt.bytes as u64;
            if !sampled {
                entry.bytes_since_report_tx = pkt.bytes;
                entry.pkts_since_report_tx = 1;
                ct_record_tcp_flags(pkt.flags, &mut entry.flags_since_report_tx);
            }
        }

        pkt.is_reply = if is_reply {
            1
        } else {
            0
        };
        pkt.traffic_direction = entry.traffic_direction;
        pkt.ct_metadata = entry.ct_metadata;

        self.insert_new(*key, entry);

        PacketReport {
            report: sampled,
            previously_observed_packets: 0,
            previously_observed_bytes: 0,
            previously_observed_flags: TcpFlagsCount::zero(),
        }
    }

    /// Handle the first packet of a TCP connection: a SYN creates the
    /// forward entry, a SYN-ACK the reverse entry, and a mid-stream packet
    /// an entry of unknown direction chosen by its ACK bit.
    fn ct_handle_tcp_connection(
        &mut self,
        pkt: &mut PacketEvent,
        key: &CtV4Key,
        reverse_key: &CtV4Key,
        obs_point: u8,
        now: u32,
        sampled: bool,
    ) -> (r: PacketReport)
        requires
            old(self).wf(),
            !old(self).spec_contains(*key),
            !old(self).spec_contains(*reverse_key),
            *reverse_key == spec_reverse_key(*key),
        ensures
            final(self).wf(),
            r.previously_observed_packets == 0,
            r.previously_observed_bytes == 0,
            r.previously_observed_flags == flags_count_zero(),
            forall|other: CtV4Key|
                other != *key && other != *reverse_key ==> final(self).spec_contains(other) == old(
                    self,
                ).spec_contains(other),
            forall|other: CtV4Key|
                other != *key && other != *reverse_key && old(self).spec_contains(other)
                    ==> #[trigger] final(self).spec_at(other) == old(self).spec_at(other),
            ({
                let handshake = old(pkt).flags & (TCP_SYN | TCP_ACK);
                if handshake == TCP_SYN {
                    tcp_created_at(
                        *old(self),
                        *final(self),
                        *old(pkt),
                        *final(pkt),
                        r,
                        *key,
                        obs_point,
                        false,
                        false,
                        now,
                        sampled,
                    )
                } else if handshake == (TCP_SYN | TCP_ACK) {
                    tcp_created_at(
                        *old(self),
                        *final(self),
                        *old(pkt),
                        *final(pkt),
                        r,
                        *reverse_key,
                        obs_point,
                        true,
                        false,
                        now,
                        sampled,
                    )
                } else if old(pkt).flags & TCP_ACK != 0 {
                    tcp_created_at(
                        *old(self),
                        *final(self),
                        *old(pkt),
                        *final(pkt),
                        r,
                        *reverse_key,
                        obs_point,
                        true,
                        true,
                        now,
                        sampled,
                    )
                } else {
                    tcp_created_at(
                        *old(self),
                        *final(self),
                        *old(pkt),
                        *final(pkt),
                        r,
                        *key,
                        obs_point,
                        false,
                        true,
                        now,
                        sampled,
                    )
                }
            }),
    {
        let handshake = pkt.flags & (TCP_SYN | TCP_ACK);

        if handshake == TCP_SYN {
            let r = self.ct_create_new_tcp_connection(pkt, key, obs_point, false, now, sampled);
            return r;
        }
        if handshake == TCP_SYN | TCP_ACK {
            let r = self.ct_create_new_tcp_connection(
                pkt,
                reverse_key,
                obs_point,
                true,
                now,
                sampled,
            );
            return r;
        }

        // Mid-stream: the handshake was missed; direction is unknown and
        // chosen by the ACK bit.
        if now > u32::MAX - CT_LIFETIME_TCP {
            return PacketReport::empty();
        }
        let eviction_time = now + CT_LIFETIME_TCP;

        let mut entry = CtEntry::default();
        entry.eviction_time = eviction_time;
        entry.is_direction_unknown = 1;
        entry.traffic_direction = ct_get_traffic_direction(obs_point);
        pkt.traffic_direction = entry.traffic_direction;

        if pkt.flags & TCP_ACK != 0 {
            pkt.is_reply = 1;
            entry.flags_seen_rx = pkt.flags as u8;
            entry.last_report_rx_dir = if sampled {
                now
            } else {
                0
            };
            entry.ct_metadata.bytes_rx = pkt.bytes as u64;
            entry.ct_metadata.pkts_rx = 1;
            if !sampled {
                entry.bytes_since_report_rx = pkt.bytes;
                entry.pkts_since_report_rx = 1;
                ct_record_tcp_flags(pkt.flags, &mut entry.flags_since_report_rx);
            }
            pkt.ct_metadata = entry.ct_metadata;
            self.insert_new(*reverse_key, entry);
        } else {
            pkt.is_reply = 0;
            entry.flags_seen_tx = pkt.flags as u8;
            entry.last_report_tx_dir = if sampled {
                now
            } else {
                0
            };
            entry.ct_metadata.bytes_tx = pkt.bytes as u64;
            entry.ct_metadata.pkts_tx = 1;
            if !sampled {
                entry.bytes_since_report_tx = pkt.bytes;
                entry.pkts_since_report_tx = 1;
                ct_record_tcp_flags(pkt.flags, &mut entry.flags_since_report_tx);
            }
            pkt.ct_metadata = entry.ct_metadata;
            self.insert_new(*key, entry);
        }

        PacketReport {
            report: sampled,
            previously_observed_packets: 0,
            previously_observed_bytes: 0,
            previously_observed_flags: TcpFlagsCount::zero(),
        }
    }

    /// Handle the first packet of a UDP connection.
    fn ct_handle_udp_connection(
        &mut self,
        pkt: &mut PacketEvent,
        key: &CtV4Key,
        obs_point: u8,
        now: u32,
        sampled: bool,
    ) -> (r: PacketReport)
        requires
            old(self).wf(),
            !old(self).spec_contains(*key),
        ensures
            final(self).wf(),
            Self::others_unchanged(*old(self), *final(self), *key),
            r.previously_observed_packets == 0,
            r.previously_observed_bytes == 0,
            r.previously_observed_flags == flags_count_zero(),
            ({
                if now + CT_LIFETIME_NONTCP > u32::MAX {
                    &&& !final(self).spec_contains(*key)
                    &&& r.report == false
                    &&& *final(pkt) == *old(pkt)
                } else {
                    let entry = udp_conn_entry(
                        (now + CT_LIFETIME_NONTCP) as u32,
                        obs_point,
                        old(pkt).flags,
                        old(pkt).bytes,
                        now,
                        sampled,
                    );
                    &&& final(self).spec_contains(*key)
                    &&& final(self).spec_at(*key) == entry
                    &&& r.report == sampled
                    &&& *final(pkt) == (PacketEvent {
                        is_reply: 0,
                        traffic_direction: spec_traffic_direction(obs_point),
                        ct_metadata: entry.ct_metadata,
                        ..*old(pkt)
                    })
                }
            }),
    {
        if now > u32::MAX - CT_LIFETIME_NONTCP {
            return PacketReport::empty();
        }
        let eviction_time = now + CT_LIFETIME_NONTCP;

        let mut entry = CtEntry::default();
        entry.eviction_time = eviction_time;
        entry.traffic_direction = ct_get_traffic_direction(obs_point);
        entry.flags_seen_tx = pkt.flags as u8;
        entry.last_report_tx_dir = if sampled {
            now
        } else {
            0
        };
        entry.ct_metadata.pkts_tx = 1;
        entry.ct_metadata.bytes_tx = pkt.bytes as u64;

        if !sampled {
            entry.bytes_since_report_tx = pkt.bytes;
            entry.pkts_since_report_tx = 1;
        }

        pkt.is_reply = 0;
        pkt.traffic_direction = entry.traffic_direction;
        pkt.ct_metadata = entry.ct_metadata;

        self.insert_new(*key, entry);

        PacketReport {
            report: sampled,
            previously_observed_packets: 0,
            previously_observed_bytes: 0,
            previously_observed_flags: TcpFlagsCount::zero(),
        }
    }

    /// Process one packet: probe the forward key, then the reverse key,
    /// and create a new connection when neither matches.
    pub fn ct_process_packet(
        &mut self,
        pkt: &mut PacketEvent,
        obs_point: u8,
        now: u32,
        sampled: bool,
    ) -> (r: PacketReport)
        requires
            old(self).wf(),
        ensures
            final(self).wf(),
            ({
                let key = key_of(*old(pkt));
                let reverse_key = spec_reverse_key(key);
                if old(self).spec_contains(key) {
                    let e0 = old(self).spec_at(key);
                    let e1 = CtEntry { ct_metadata: bump_metadata(e0.ct_metadata, old(pkt).bytes, true), ..e0 };
                    let step = ct_step(e1, key.proto, old(pkt).flags as u8, true, old(pkt).bytes, now, sampled);
                    &&& Self::others_unchanged(*old(self), *final(self), key)
                    &&& r.report == step.report
                    &&& r.previously_observed_bytes == bytes_since_of(e0, true)
                    &&& r.previously_observed_packets == pkts_since_of(e0, true)
                    &&& r.previously_observed_flags == flags_since_of(e0, true)
                    &&& match step.entry {
                        Some(ne) => final(self).spec_contains(key) && final(self).spec_at(key) == ne,
                        None => !final(self).spec_contains(key),
                    }
                    &&& *final(pkt) == (PacketEvent {
                        is_reply: 0,
                        traffic_direction: e0.traffic_direction,
                        ct_metadata: e1.ct_metadata,
                        ..*old(pkt)
                    })
                } else if old(self).spec_contains(reverse_key) {
                    let e0 = old(self).spec_at(reverse_key);
                    let e1 = CtEntry { ct_metadata: bump_metadata(e0.ct_metadata, old(pkt).bytes, false), ..e0 };
                    let step = ct_step(e1, reverse_key.proto, old(pkt).flags as u8, false, old(pkt).bytes, now, sampled);
                    &&& Self::others_unchanged(*old(self), *final(self), reverse_key)
                    &&& r.report == step.report
                    &&& r.previously_observed_bytes == bytes_since_of(e0, false)
                    &&& r.previously_observed_packets == pkts_since_of(e0, false)
                    &&& r.previously_observed_flags == flags_since_of(e0, false)
                    &&& match step.entry {
                        Some(ne) => final(self).spec_contains(reverse_key) && final(self).spec_at(reverse_key) == ne,
                        None => !final(self).spec_contains(reverse_key),
                    }
                    &&& *final(pkt) == (PacketEvent {
                        is_reply: 1,
                        traffic_direction: e0.traffic_direction,
                        ct_metadata: e1.ct_metadata,
                        ..*old(pkt)
                    })
                } else if key.proto == IPPROTO_TCP {
                    &&& r.previously_observed_packets == 0
                    &&& r.previously_observed_bytes == 0
                    &&& r.previously_observed_flags == flags_count_zero()
                    &&& (forall|other: CtV4Key|
                        other != key && other != reverse_key ==> final(self).spec_contains(other)
                            == old(self).spec_contains(other))
                    &&& (forall|other: CtV4Key|
                        other != key && other != reverse_key && old(self).spec_contains(other)
                            ==> #[trigger] final(self).spec_at(other) == old(self).spec_at(other))
                    &&& ({
                        let handshake = old(pkt).flags & (TCP_SYN | TCP_ACK);
                        if handshake == TCP_SYN {
                            tcp_created_at(*old(self), *final(self), *old(pkt), *final(pkt), r,
                            key, obs_point, false, false, now, sampled)
                        } else if handshake == (TCP_SYN | TCP_ACK) {
                            tcp_created_at(*old(self), *final(self), *old(pkt), *final(pkt), r,
                            reverse_key, obs_point, true, false, now, sampled)
                        } else if old(pkt).flags & TCP_ACK != 0 {
                            tcp_created_at(*old(self), *final(self), *old(pkt), *final(pkt), r,
                            reverse_key, obs_point, true, true, now, sampled)
                        } else {
                            tcp_created_at(*old(self), *final(self), *old(pkt), *final(pkt), r,
                            key, obs_point, false, true, now, sampled)
                        }
                    })
                } else if key.proto == IPPROTO_UDP {
                    &&& r.previously_observed_packets == 0
                    &&& r.previously_observed_bytes == 0
                    &&& r.previously_observed_flags == flags_count_zero()
                    &&& Self::others_unchanged(*old(self), *final(self), key)
                    &&& (if now + CT_LIFETIME_NONTCP > u32::MAX {
                        !final(self).spec_contains(key) && r.report == false && *final(pkt)
                            == *old(pkt)
                    } else {
                        let entry = udp_conn_entry(
                            (now + CT_LIFETIME_NONTCP) as u32,
                            obs_point,
                            old(pkt).flags,
                            old(pkt).bytes,
                            now,
                            sampled,
                        );
                        final(self).spec_contains(key) && final(self).spec_at(key) == entry
                            && r.report == sampled && *final(pkt) == (PacketEvent {
                            is_reply: 0,
                            traffic_direction: spec_traffic_direction(obs_point),
                            ct_metadata: entry.ct_metadata,
                            ..*old(pkt)
                        })
                    })
                } else {
                    &&& *final(self) == *old(self)
                    &&& *final(pkt) == *old(pkt)
                    &&& r.report == false
                    &&& r.previously_observed_packets == 0
                    &&& r.previously_observed_bytes == 0
                    &&& r.previously_observed_flags == flags_count_zero()
                }
            }),
    {
        let key = CtV4Key {
            src_ip: pkt.src_ip,
            dst_ip: pkt.dst_ip,
            src_port: pkt.src_port,
            dst_port: pkt.dst_port,
            proto: pkt.proto,
        };

        // Forward direction.
        match self.get(&key) {
            Some(e) => {
                pkt.is_reply = 0;
                pkt.traffic_direction = e.traffic_direction;
                let mut e1 = e;
                e1.ct_metadata.pkts_tx = sat_add32(e1.ct_metadata.pkts_tx, 1);
                e1.ct_metadata.bytes_tx = sat_add64(e1.ct_metadata.bytes_tx, pkt.bytes as u64);
                pkt.ct_metadata = e1.ct_metadata;
                self.set_entry(key, e1);
                let flags8 = pkt.flags as u8;
                let r = self.ct_should_report_packet(
                    &key,
                    flags8,
                    CT_PACKET_DIR_TX,
                    pkt.bytes,
                    now,
                    sampled,
                );
                return r;
            },
            None => {
            },
        }

        // Reverse direction.
        let reverse_key = ct_reverse_key(&key);
        match self.get(&reverse_key) {
            Some(e) => {
                pkt.is_reply = 1;
                pkt.traffic_direction = e.traffic_direction;
                let mut e1 = e;
                e1.ct_metadata.pkts_rx = sat_add32(e1.ct_metadata.pkts_rx, 1);
                e1.ct_metadata.bytes_rx = sat_add64(e1.ct_metadata.bytes_rx, pkt.bytes as u64);
                pkt.ct_metadata = e1.ct_metadata;
                self.set_entry(reverse_key, e1);
                let flags8 = pkt.flags as u8;
                let r = self.ct_should_report_packet(
                    &reverse_key,
                    flags8,
                    CT_PACKET_DIR_RX,
                    pkt.bytes,
                    now,
                    sampled,
                );
                return r;
            },
            None => {
            },
        }

        // New connection.
        if key.proto == IPPROTO_TCP {
            self.ct_handle_tcp_connection(pkt, &key, &reverse_key, obs_point, now, sampled)
        } else if key.proto == IPPROTO_UDP {
            self.ct_handle_udp_connection(pkt, &key, obs_point, now, sampled)
        } else {
            PacketReport::empty()
        }
    }
}

/// The 5-tuple key a packet probes first.
pub open spec fn key_of(pkt: PacketEvent) -> CtV4Key {
    CtV4Key {
        src_ip: pkt.src_ip,
        dst_ip: pkt.dst_ip,
        src_port: pkt.src_port,
        dst_port: pkt.dst_port,
        proto: pkt.proto,
    }
}

/// The entry of a new UDP connection.
pub open spec fn udp_conn_entry(
    eviction: u32,
    obs_point: u8,
    flags: u16,
    bytes: u32,
    now: u32,
    sampled: bool,
) -> CtEntry {
    CtEntry {
        eviction_time: eviction,
        traffic_direction: spec_traffic_direction(obs_point),
        flags_seen_tx: flags as u8,
        last_report_tx_dir: if sampled {
            now
        } else {
            0
        },
        ct_metadata: ConntrackMetadata { pkts_tx: 1, bytes_tx: bytes as u64, ..metadata_zero() },
        bytes_since_report_tx: if sampled {
            0
        } else {
            bytes
        },
        pkts_since_report_tx: if sampled {
            0
        } else {
            1
        },
        ..entry_zero()
    }
}

/// A new TCP entry stands at `at`, with the given reply and unknown-direction
/// marks, unless its eviction horizon would overflow.
pub open spec fn tcp_created_at(
    pre: Conntrack,
    post: Conntrack,
    pkt_pre: PacketEvent,
    pkt_post: PacketEvent,
    r: PacketReport,
    at: CtV4Key,
    obs_point: u8,
    is_reply: bool,
    unknown_direction: bool,
    now: u32,
    sampled: bool,
) -> bool {
    let timeout = if unknown_direction {
        CT_LIFETIME_TCP
    } else {
        new_tcp_timeout(pkt_pre.flags)
    };
    if now + timeout > u32::MAX {
        &&& !post.spec_contains(at)
        &&& r.report == false
        &&& pkt_post == pkt_pre
    } else {
        let entry = new_conn_entry(
            (now + timeout) as u32,
            obs_point,
            unknown_direction,
            is_reply,
            pkt_pre.flags,
            pkt_pre.bytes,
            now,
            sampled,
        );
        &&& post.spec_contains(at)
        &&& post.spec_at(at) == entry
        &&& r.report == sampled
        &&& pkt_post == (PacketEvent {
            is_reply: if is_reply {
                1
            } else {
                0
            },
            traffic_direction: spec_traffic_direction(obs_point),
            ct_metadata: entry.ct_metadata,
            ..pkt_pre
        })
    }
}

// ── Garbage collection ───────────────────────────────────────────────

/// Per-direction totals accumulated by a sweep, saturating.
pub ghost struct GcSums {
    pub pkts_tx: u64,
    pub pkts_rx: u64,
    pub bytes_tx: u64,
    pub bytes_rx: u64,
}

/// Sum of the since-last-report accumulators over an entry list.
pub open spec fn sum_since_report(s: Seq<(CtV4Key, CtEntry)>) -> GcSums
    decreases s.len(),
{
    if s.len() == 0 {
        GcSums { pkts_tx: 0, pkts_rx: 0, bytes_tx: 0, bytes_rx: 0 }
    } else {
        let rest = sum_since_report(s.drop_last());
        let e = s.last().1;
        GcSums {
            pkts_tx: sat_add_u64(rest.pkts_tx, e.pkts_since_report_tx as u64),
            pkts_rx: sat_add_u64(rest.pkts_rx, e.pkts_since_report_rx as u64),
            bytes_tx: sat_add_u64(rest.bytes_tx, e.bytes_since_report_tx as u64),
            bytes_rx: sat_add_u64(rest.bytes_rx, e.bytes_since_report_rx as u64),
        }
    }
}

/// Result of one garbage-collection sweep.
#[derive(Clone, Copy, PartialEq, Eq, Structural, Debug)]
pub struct GcStats {
    pub total: u64,
    pub evicted: u64,
    pub pkts_tx: u64,
    pub pkts_rx: u64,
    pub bytes_tx: u64,
    pub bytes_rx: u64,
}

impl Conntrack {
    /// Sweep the table: remove every entry whose eviction time has passed,
    /// and report totals over the table as it stood before the sweep.
    pub fn gc_sweep(&mut self, now: u32) -> (r: GcStats)
        requires
            old(self).wf(),
        ensures
            final(self).wf(),
            forall|key: CtV4Key|
                #[trigger] final(self).spec_contains(key) == (old(self).spec_contains(key) && old(
                    self,
                ).spec_at(key).eviction_time > now),
            forall|key: CtV4Key|
                final(self).spec_contains(key) ==> #[trigger] final(self).spec_at(key) == old(
                    self,
                ).spec_at(key),
            r.total == old(self).spec_len(),
            r.evicted == old(self).spec_len() - final(self).spec_len(),
            ({
                let sums = sum_since_report(old(self).spec_entries());
                r.pkts_tx == sums.pkts_tx && r.pkts_rx == sums.pkts_rx && r.bytes_tx
                    == sums.bytes_tx && r.bytes_rx == sums.bytes_rx
            }),
    {
        let ghost pre = self.entries@;
        let mut kept: Vec<(CtV4Key, CtEntry)> = Vec::new();
        let mut pkts_tx: u64 = 0;
        let mut pkts_rx: u64 = 0;
        let mut bytes_tx: u64 = 0;
        let mut bytes_rx: u64 = 0;
        let mut i: usize = 0;
        let n = self.entries.len();
        while i < n
            invariant
                n == pre.len(),
                pre == self.entries@,
                distinct_keys(pre),
                i <= n,
                kept@.len() <= i,
                distinct_keys(kept@),
                forall|key: CtV4Key|
                    #[trigger] contains_key(kept@, key) == (exists|j: int|
                        0 <= j < i && (#[trigger] pre[j]).0 == key && pre[j].1.eviction_time
                            > now),
                forall|m: int|
                    0 <= m < kept@.len() ==> exists|j: int|
                        0 <= j < i && #[trigger] kept@[m] == pre[j],
                ({
                    let sums = sum_since_report(pre.take(i as int));
                    pkts_tx == sums.pkts_tx && pkts_rx == sums.pkts_rx && bytes_tx == sums.bytes_tx
                        && bytes_rx == sums.bytes_rx
                }),
            decreases n - i,
        {
            proof {
                assert(pre.take(i as int + 1).drop_last() =~= pre.take(i as int));
                assert(pre.take(i as int + 1).last() == pre[i as int]);
            }
            let e = self.entries[i].1;
            pkts_tx = sat_add64(pkts_tx, e.pkts_since_report_tx as u64);
            pkts_rx = sat_add64(pkts_rx, e.pkts_since_report_rx as u64);
            bytes_tx = sat_add64(bytes_tx, e.bytes_since_report_tx as u64);
            bytes_rx = sat_add64(bytes_rx, e.bytes_since_report_rx as u64);
            if e.eviction_time > now {
                let key = self.entries[i].0;
                let ghost kept0 = kept@;
                proof {
                    assert(!contains_key(kept0, key)) by {
                        if contains_key(kept0, key) {
                            let j = choose|j: int|
                                0 <= j < i && (#[trigger] pre[j]).0 == key && pre[j].1.eviction_time
                                    > now;
                            assert(pre[j].0 == pre[i as int].0);
                        }
                    }
                    lemma_push_entry(kept0, key, e);
                }
                kept.push((key, e));
                proof {
                    assert(kept@ =~= kept0.push((key, e)));
                    assert forall|k: CtV4Key| #[trigger] contains_key(kept@, k) == (exists|j: int|
                        0 <= j < i + 1 && (#[trigger] pre[j]).0 == k && pre[j].1.eviction_time
                            > now) by {
                        if k == key {
                            assert(pre[i as int].0 == k && pre[i as int].1.eviction_time > now);
                            assert(contains_key(kept@, k));
                        } else {
                            if contains_key(kept@, k) {
                                assert(contains_key(kept0, k));
                                let j = choose|j: int|
                                    0 <= j < i && (#[trigger] pre[j]).0 == k
                                        && pre[j].1.eviction_time > now;
                                assert(0 <= j < i + 1 && pre[j].0 == k && pre[j].1.eviction_time
                                    > now);
                            }
                            if exists|j: int|
                                0 <= j < i + 1 && (#[trigger] pre[j]).0 == k
                                    && pre[j].1.eviction_time > now {
                                let j = choose|j: int|
                                    0 <= j < i + 1 && (#[trigger] pre[j]).0 == k
                                        && pre[j].1.eviction_time > now;
                                assert(j < i);
                                assert(contains_key(kept0, k));
                                assert(contains_key(kept@, k));
                            }
                        }
                    }
                }
            } else {
                proof {
                    assert(e == pre[i as int].1);
                    assert forall|k: CtV4Key| #[trigger] contains_key(kept@, k) == (exists|j: int|
                        0 <= j < i + 1 && (#[trigger] pre[j]).0 == k && pre[j].1.eviction_time
                            > now) by {
                        if contains_key(kept@, k) {
                            let j = choose|j: int|
                                0 <= j < i && (#[trigger] pre[j]).0 == k && pre[j].1.eviction_time
                                    > now;
                            assert(0 <= j < i + 1 && pre[j].0 == k && pre[j].1.eviction_time
                                > now);
                        }
                        if exists|j: int|
                            0 <= j < i + 1 && (#[trigger] pre[j]).0 == k && pre[j].1.eviction_time
                                > now {
                            let j = choose|j: int|
                                0 <= j < i + 1 && (#[trigger] pre[j]).0 == k
                                    && pre[j].1.eviction_time > now;
                            assert(j != i);
                            assert(contains_key(kept@, k));
                        }
                    }
                }
            }
            i = i + 1;
        }
        proof {
            assert(pre.take(n as int) =~= pre);
        }
        let evicted = n - kept.len();
        let total = n;
        let ghost keptv = kept@;
        self.entries = kept;
        proof {
            assert forall|key: CtV4Key| #[trigger] final(self).spec_contains(key) == (contains_key(
                pre,
                key,
            ) && value_at(pre, key).eviction_time > now) by {
                if contains_key(keptv, key) {
                    let j = choose|j: int|
                        0 <= j < n && (#[trigger] pre[j]).0 == key && pre[j].1.eviction_time > now;
                    lemma_value_at_index(pre, j);
                }
                if contains_key(pre, key) && value_at(pre, key).eviction_time > now {
                    let j = choose|j: int| 0 <= j < pre.len() && (#[trigger] pre[j]).0 == key;
                    lemma_value_at_index(pre, j);
                }
            }
            assert forall|key: CtV4Key| final(self).spec_contains(key) implies #[trigger] final(self).spec_at(key) == value_at(pre, key) by {
                let m = choose|m: int| 0 <= m < keptv.len() && (#[trigger] keptv[m]).0 == key;
                lemma_value_at_index(keptv, m);
                let j = choose|j: int| 0 <= j < n && #[trigger] keptv[m] == pre[j];
                lemma_value_at_index(pre, j);
            }
        }
        GcStats {
            total: total as u64,
            evicted: evicted as u64,
            pkts_tx,
            pkts_rx,
            bytes_tx,
            bytes_rx,
        }
    }
}

// ── Laws of the per-packet step ──────────────────────────────────────

/// An RST on a live TCP connection deletes the entry and reports.
pub proof fn lemma_rst_deletes(
    e: CtEntry,
    flags: u8,
    tx: bool,
    bytes: u32,
    now: u32,
    sampled: bool,
)
    requires
        (flags | seen_flags_of(e, tx)) & (TCP_RST as u8) != 0,
    ensures
        ct_step(e, IPPROTO_TCP, flags, tx, bytes, now, sampled).entry is None,
        ct_step(e, IPPROTO_TCP, flags, tx, bytes, now, sampled).report,
{
    let combined = flags | seen_flags_of(e, tx);
    assert(combined & ((TCP_FIN as u8) | (TCP_SYN as u8) | (TCP_RST as u8)) != 0) by (bit_vector)
        requires
            combined & (TCP_RST as u8) != 0,
    ;
}

/// A FIN on a live TCP connection that stays up sets the FIN bit for its
/// direction and reports.
pub proof fn lemma_fin_sets_bit(
    e: CtEntry,
    flags: u8,
    tx: bool,
    bytes: u32,
    now: u32,
    sampled: bool,
)
    requires
        now < e.eviction_time,
        flags & (TCP_FIN as u8) != 0,
        ct_step(e, IPPROTO_TCP, flags, tx, bytes, now, sampled).entry is Some,
    ensures
        ({
            let ne = ct_step(e, IPPROTO_TCP, flags, tx, bytes, now, sampled).entry->Some_0;
            seen_flags_of(ne, tx) & (TCP_FIN as u8) != 0
        }),
        ct_step(e, IPPROTO_TCP, flags, tx, bytes, now, sampled).report,
{
    let seen = seen_flags_of(e, tx);
    let combined = flags | seen;
    assert(combined & (TCP_FIN as u8) != 0) by (bit_vector)
        requires
            flags & (TCP_FIN as u8) != 0,
            combined == flags | seen,
    ;
    let step = ct_step(e, IPPROTO_TCP, flags, tx, bytes, now, sampled);
    let ne = step.entry->Some_0;
    assert(seen_flags_of(ne, tx) == combined);
}

/// Once both directions have seen a FIN, a surviving TCP entry moves to
/// the TIME_WAIT eviction horizon and reports.
pub proof fn lemma_both_fins_time_wait(
    e: CtEntry,
    flags: u8,
    tx: bool,
    bytes: u32,
    now: u32,
    sampled: bool,
)
    requires
        both_fins_seen(e, flags | seen_flags_of(e, tx), tx),
        ct_step(e, IPPROTO_TCP, flags, tx, bytes, now, sampled).entry is Some,
    ensures
        ({
            let ne = ct_step(e, IPPROTO_TCP, flags, tx, bytes, now, sampled).entry->Some_0;
            ne.eviction_time == sat_add_u32(now, CT_TIME_WAIT_TCP)
        }),
        ct_step(e, IPPROTO_TCP, flags, tx, bytes, now, sampled).report,
{
}

} // verus!
