//! Packet-drop events: reason codes, direction mappings, errno names, the
//! conversion into dropped flows, and the parse of a process's local
//! addresses used to patch a missing source address.

use vstd::prelude::*;

verus! {

use crate::conntrack::{DIR_UNKNOWN, DIR_INGRESS, DIR_EGRESS};
use crate::flow::{Flow, FlowIp, Layer4, EventType, Extensions, Verdict, TraceObservationPoint,
    MESSAGE_TYPE_DROP, spec_flow_direction};
use crate::kvlist::{distinct_keys, contains_key, value_at, lemma_value_at_index,
    lemma_push_entry};
use crate::net::{IpAddress, parse_ipv4, parse_ipv4_spec};
use crate::text::{dec_str, u64_to_dec, trim, trim_spec, is_prefix_of, match_at, contains_str,
    substring, string_eq};
use vstd::string::StrSliceExecFns;
use vstd::string::StringExecFns;

// ── Netfilter hook constants ─────────────────────────────────────────

pub const NF_INET_PRE_ROUTING: u32 = 0;
pub const NF_INET_LOCAL_IN: u32 = 1;
pub const NF_INET_FORWARD: u32 = 2;
pub const NF_INET_LOCAL_OUT: u32 = 3;
pub const NF_INET_POST_ROUTING: u32 = 4;

pub const NF_DROP: u32 = 0;

/// Non-blocking accept with an empty queue returns this errno.
pub const EAGAIN: i32 = 11;

// ── Packet type constants ────────────────────────────────────────────

pub const PACKET_HOST: u8 = 0;
pub const PACKET_BROADCAST: u8 = 1;
pub const PACKET_MULTICAST: u8 = 2;
pub const PACKET_OUTGOING: u8 = 4;

/// The direction a packet type implies.
pub open spec fn spec_pkt_type_direction(pkt_type: u8) -> u8 {
    if pkt_type == PACKET_HOST || pkt_type == PACKET_BROADCAST || pkt_type == PACKET_MULTICAST {
        DIR_INGRESS
    } else if pkt_type == PACKET_OUTGOING {
        DIR_EGRESS
    } else {
        DIR_UNKNOWN
    }
}

/// Map a packet type to a traffic direction.
pub fn pkt_type_to_direction(pkt_type: u8) -> (r: u8)
    ensures
        r == spec_pkt_type_direction(pkt_type),
{
    if pkt_type == PACKET_HOST || pkt_type == PACKET_BROADCAST || pkt_type == PACKET_MULTICAST {
        DIR_INGRESS
    } else if pkt_type == PACKET_OUTGOING {
        DIR_EGRESS
    } else {
        DIR_UNKNOWN
    }
}

/// The direction a netfilter hook implies: hooks up to FORWARD are
/// ingress, LOCAL_OUT and POST_ROUTING egress.
pub open spec fn spec_nf_hook_direction(hook: u32) -> u8 {
    if hook == NF_INET_PRE_ROUTING || hook == NF_INET_LOCAL_IN || hook == NF_INET_FORWARD {
        DIR_INGRESS
    } else if hook == NF_INET_LOCAL_OUT || hook == NF_INET_POST_ROUTING {
        DIR_EGRESS
    } else {
        DIR_UNKNOWN
    }
}

/// Map a netfilter hook number to a traffic direction.
pub fn nf_hook_to_direction(hook: u32) -> (r: u8)
    ensures
        r == spec_nf_hook_direction(hook),
{
    if hook == NF_INET_PRE_ROUTING || hook == NF_INET_LOCAL_IN || hook == NF_INET_FORWARD {
        DIR_INGRESS
    } else if hook == NF_INET_LOCAL_OUT || hook == NF_INET_POST_ROUTING {
        DIR_EGRESS
    } else {
        DIR_UNKNOWN
    }
}

// ── Drop reasons ─────────────────────────────────────────────────────

/// Why a packet was dropped.
#[derive(Clone, Copy, PartialEq, Eq, Structural, Debug)]
pub enum DropReason {
    IptableRuleDrop,
    IptableNatDrop,
    TcpConnectDrop,
    TcpAcceptDrop,
    ConntrackDrop,
    KernelDrop,
    TcpRetransmit,
    TcpSendReset,
    TcpReceiveReset,
    Unknown,
}

/// The wire code of each reason.
pub open spec fn spec_reason_code(r: DropReason) -> u8 {
    match r {
        DropReason::IptableRuleDrop => 0,
        DropReason::IptableNatDrop => 1,
        DropReason::TcpConnectDrop => 2,
        DropReason::TcpAcceptDrop => 3,
        DropReason::ConntrackDrop => 4,
        DropReason::KernelDrop => 5,
        DropReason::TcpRetransmit => 6,
        DropReason::TcpSendReset => 7,
        DropReason::TcpReceiveReset => 8,
        DropReason::Unknown => 255,
    }
}

/// The reason a wire code denotes; unassigned codes read as Unknown.
pub open spec fn spec_reason_of(v: u8) -> DropReason {
    if v == 0 {
        DropReason::IptableRuleDrop
    } else if v == 1 {
        DropReason::IptableNatDrop
    } else if v == 2 {
        DropReason::TcpConnectDrop
    } else if v == 3 {
        DropReason::TcpAcceptDrop
    } else if v == 4 {
        DropReason::ConntrackDrop
    } else if v == 5 {
        DropReason::KernelDrop
    } else if v == 6 {
        DropReason::TcpRetransmit
    } else if v == 7 {
        DropReason::TcpSendReset
    } else if v == 8 {
        DropReason::TcpReceiveReset
    } else {
        DropReason::Unknown
    }
}

/// The display name of each reason.
pub open spec fn spec_reason_name(r: DropReason) -> Seq<char> {
    match r {
        DropReason::IptableRuleDrop => "IPTABLE_RULE_DROP"@,
        DropReason::IptableNatDrop => "IPTABLE_NAT_DROP"@,
        DropReason::TcpConnectDrop => "TCP_CONNECT_DROP"@,
        DropReason::TcpAcceptDrop => "TCP_ACCEPT_DROP"@,
        DropReason::ConntrackDrop => "CONNTRACK_DROP"@,
        DropReason::KernelDrop => "KERNEL_DROP"@,
        DropReason::TcpRetransmit => "TCP_RETRANSMIT"@,
        DropReason::TcpSendReset => "TCP_SEND_RESET"@,
        DropReason::TcpReceiveReset => "TCP_RECEIVE_RESET"@,
        DropReason::Unknown => "UNKNOWN"@,
    }
}

impl DropReason {
    /// The display name of this reason.
    pub fn as_str(self) -> (r: &'static str)
        ensures
            r@ == spec_reason_name(self),
    {
        match self {
            DropReason::IptableRuleDrop => "IPTABLE_RULE_DROP",
            DropReason::IptableNatDrop => "IPTABLE_NAT_DROP",
            DropReason::TcpConnectDrop => "TCP_CONNECT_DROP",
            DropReason::TcpAcceptDrop => "TCP_ACCEPT_DROP",
            DropReason::ConntrackDrop => "CONNTRACK_DROP",
            DropReason::KernelDrop => "KERNEL_DROP",
            DropReason::TcpRetransmit => "TCP_RETRANSMIT",
            DropReason::TcpSendReset => "TCP_SEND_RESET",
            DropReason::TcpReceiveReset => "TCP_RECEIVE_RESET",
            DropReason::Unknown => "UNKNOWN",
        }
    }

    /// The reason a wire code denotes.
    pub fn from_u8(v: u8) -> (r: Self)
        ensures
            r == spec_reason_of(v),
    {
        if v == 0 {
            DropReason::IptableRuleDrop
        } else if v == 1 {
            DropReason::IptableNatDrop
        } else if v == 2 {
            DropReason::TcpConnectDrop
        } else if v == 3 {
            DropReason::TcpAcceptDrop
        } else if v == 4 {
            DropReason::ConntrackDrop
        } else if v == 5 {
            DropReason::KernelDrop
        } else if v == 6 {
            DropReason::TcpRetransmit
        } else if v == 7 {
            DropReason::TcpSendReset
        } else if v == 8 {
            DropReason::TcpReceiveReset
        } else {
            DropReason::Unknown
        }
    }

    /// A reason handled by a kernel-function exit hook, whose summary
    /// carries the return code.
    pub open spec fn spec_is_fexit(self) -> bool {
        self == DropReason::IptableRuleDrop || self == DropReason::IptableNatDrop || self
            == DropReason::TcpConnectDrop || self == DropReason::TcpAcceptDrop || self
            == DropReason::ConntrackDrop
    }

    /// Decide whether this reason comes from a kernel-function exit hook.
    pub fn is_fexit(self) -> (r: bool)
        ensures
            r == self.spec_is_fexit(),
    {
        match self {
            DropReason::IptableRuleDrop => true,
            DropReason::IptableNatDrop => true,
            DropReason::TcpConnectDrop => true,
            DropReason::TcpAcceptDrop => true,
            DropReason::ConntrackDrop => true,
            _ => false,
        }
    }
}

// ── Drop events ──────────────────────────────────────────────────────

/// A drop event as the kernel observer emits it.
#[derive(Clone, Copy, PartialEq, Eq, Structural, Debug)]
pub struct DropEvent {
    pub ts_ns: u64,
    pub src_ip: u32,
    pub dst_ip: u32,
    pub src_port: u16,
    pub dst_port: u16,
    pub bytes: u32,
    pub proto: u8,
    pub drop_reason: u8,
    pub direction: u8,
    pub return_val: i8,
    pub pid: u32,
    pub kernel_drop_reason: u32,
}

/// Key of the per-CPU drop metrics map.
#[derive(Clone, Copy, PartialEq, Eq, Structural, Debug, Hash)]
pub struct DropMetricsKey {
    pub drop_reason: u8,
    pub direction: u8,
    pub return_val: i32,
}

/// Value of the per-CPU drop metrics map.
#[derive(Clone, Copy, PartialEq, Eq, Structural, Debug)]
pub struct DropMetricsValue {
    pub count: u64,
    pub bytes: u64,
}

// ── Number and errno rendering ───────────────────────────────────────

/// Decimal text of a signed number.
pub open spec fn spec_i64_str(n: int) -> Seq<char> {
    if n < 0 {
        "-"@ + dec_str((-n) as nat)
    } else {
        dec_str(n as nat)
    }
}

/// Render a signed number in decimal.
pub fn i64_to_dec(n: i64) -> (r: String)
    ensures
        r@ == spec_i64_str(n as int),
{
    if n < 0 {
        let mag: u64 = if n == i64::MIN {
            9223372036854775808u64
        } else {
            (-n) as u64
        };
        let mut s = String::new();
        s.append("-");
        let digits = u64_to_dec(mag);
        s.append(digits.as_str());
        s
    } else {
        u64_to_dec(n as u64)
    }
}

/// The errno name of a kernel return code, covering the codes the drop
/// hooks report; other codes render as `ret=<value>`.
pub open spec fn spec_errno_label(ret: int) -> Seq<char> {
    let neg = -ret;
    if neg == 0 {
        "NF_DROP"@
    } else if neg == 1 {
        "EPERM"@
    } else if neg == 11 {
        "EAGAIN"@
    } else if neg == 13 {
        "EACCES"@
    } else if neg == 22 {
        "EINVAL"@
    } else if neg == 99 {
        "EADDRNOTAVAIL"@
    } else if neg == 101 {
        "ENETUNREACH"@
    } else if neg == 110 {
        "ETIMEDOUT"@
    } else if neg == 111 {
        "ECONNREFUSED"@
    } else if neg == 112 {
        "EHOSTDOWN"@
    } else if neg == 113 {
        "EHOSTUNREACH"@
    } else if neg == 125 {
        "ECANCELED"@
    } else {
        Seq::empty()
    }
}

/// The rendered errno: `NAME (ret)` for the known codes, `ret=<value>` for
/// the rest.
pub open spec fn spec_errno_name(ret: int) -> Seq<char> {
    if spec_errno_label(ret).len() > 0 {
        spec_errno_label(ret) + " ("@ + spec_i64_str(ret) + ")"@
    } else {
        "ret="@ + spec_i64_str(ret)
    }
}

/// Map a kernel return code to a human-readable errno name.
pub fn errno_name(ret: i32) -> (r: String)
    ensures
        r@ == spec_errno_name(ret as int),
{
    let neg: i64 = -(ret as i64);
    proof {
        reveal_strlit("");
        assert(""@ =~= Seq::<char>::empty());
    }
    let name: &str = if neg == 0 {
        "NF_DROP"
    } else if neg == 1 {
        "EPERM"
    } else if neg == 11 {
        "EAGAIN"
    } else if neg == 13 {
        "EACCES"
    } else if neg == 22 {
        "EINVAL"
    } else if neg == 99 {
        "EADDRNOTAVAIL"
    } else if neg == 101 {
        "ENETUNREACH"
    } else if neg == 110 {
        "ETIMEDOUT"
    } else if neg == 111 {
        "ECONNREFUSED"
    } else if neg == 112 {
        "EHOSTDOWN"
    } else if neg == 113 {
        "EHOSTUNREACH"
    } else if neg == 125 {
        "ECANCELED"
    } else {
        ""
    };
    let num = i64_to_dec(ret as i64);
    if name.unicode_len() > 0 {
        proof {
            assert(name@ == spec_errno_label(ret as int));
        }
        let mut s = String::new();
        s.append(name);
        s.append(" (");
        s.append(num.as_str());
        s.append(")");
        proof {
            assert(s@ =~= spec_errno_name(ret as int));
        }
        s
    } else {
        proof {
            assert(spec_errno_label(ret as int).len() == 0);
        }
        let mut s = String::new();
        s.append("ret=");
        s.append(num.as_str());
        proof {
            assert(s@ =~= spec_errno_name(ret as int));
        }
        s
    }
}

// ── Kernel drop reason names ─────────────────────────────────────────

/// The table of kernel drop-reason names, resolved once at startup.
pub struct ReasonTable {
    entries: Vec<(u32, String)>,
}

impl ReasonTable {
    pub closed spec fn spec_entries(&self) -> Seq<(u32, String)> {
        self.entries@
    }

    pub open spec fn wf(&self) -> bool {
        distinct_keys(self.spec_entries())
    }

    pub open spec fn spec_contains(&self, code: u32) -> bool {
        contains_key(self.spec_entries(), code)
    }

    pub open spec fn spec_at(&self, code: u32) -> Seq<char> {
        value_at(self.spec_entries(), code)@
    }

    /// An empty table.
    pub fn new() -> (r: Self)
        ensures
            r.wf(),
            forall|code: u32| !r.spec_contains(code),
    {
        ReasonTable { entries: Vec::new() }
    }

    /// Record one name, first writer wins.
    pub fn insert(&mut self, code: u32, name: String)
        requires
            old(self).wf(),
        ensures
            final(self).wf(),
            final(self).spec_contains(code),
            final(self).spec_at(code) == if old(self).spec_contains(code) {
                old(self).spec_at(code)
            } else {
                name@
            },
            forall|other: u32|
                other != code ==> final(self).spec_contains(other) == old(self).spec_contains(
                    other,
                ),
            forall|other: u32|
                other != code && old(self).spec_contains(other) ==> #[trigger] final(self).spec_at(
                    other,
                ) == old(self).spec_at(other),
    {
        let ghost pre = self.entries@;
        let mut i: usize = 0;
        while i < self.entries.len()
            invariant
                i <= self.entries@.len(),
                pre == self.entries@,
                distinct_keys(pre),
                forall|j: int| 0 <= j < i ==> (#[trigger] self.entries@[j]).0 != code,
            decreases self.entries@.len() - i,
        {
            if self.entries[i].0 == code {
                proof {
                    lemma_value_at_index(pre, i as int);
                }
                return ;
            }
            i = i + 1;
        }
        proof {
            lemma_push_entry(pre, code, name);
        }
        self.entries.push((code, name));
    }

    /// Look one name up.
    pub fn get(&self, code: u32) -> (r: Option<String>)
        requires
            self.wf(),
        ensures
            match r {
                Some(name) => self.spec_contains(code) && name@ == self.spec_at(code),
                None => !self.spec_contains(code),
            },
    {
        let mut i: usize = 0;
        while i < self.entries.len()
            invariant
                i <= self.entries@.len(),
                self.wf(),
                forall|j: int| 0 <= j < i ==> (#[trigger] self.entries@[j]).0 != code,
            decreases self.entries@.len() - i,
        {
            if self.entries[i].0 == code {
                proof {
                    lemma_value_at_index(self.entries@, i as int);
                }
                return Some(self.entries[i].1.clone());
            }
            i = i + 1;
        }
        None
    }
}

// ── Conversion into dropped flows ────────────────────────────────────

/// The summary of a dropped flow: the kernel's own drop-reason name for
/// kernel drops, the errno for exit-hook drops, the reason name alone
/// otherwise.
pub open spec fn spec_drop_summary(event: DropEvent, known: bool, kernel_name: Seq<char>) -> Seq<
    char,
> {
    let reason = spec_reason_of(event.drop_reason);
    if reason == DropReason::KernelDrop {
        "Drop: "@ + (if known {
            kernel_name
        } else {
            "UNKNOWN"@
        })
    } else if reason.spec_is_fexit() {
        "Drop: "@ + spec_reason_name(reason) + " ("@ + spec_errno_name(event.return_val as int)
            + ")"@
    } else {
        "Drop: "@ + spec_reason_name(reason)
    }
}

/// Convert a drop event into a flow with a dropped verdict.
pub fn drop_event_to_flow(event: &DropEvent, boot_offset_ns: i64, kernel_drop_reasons: &ReasonTable)
    -> (r: Flow)
    requires
        kernel_drop_reasons.wf(),
        event.ts_ns <= i64::MAX,
        0 <= event.ts_ns + boot_offset_ns <= i64::MAX,
    ensures
        ({
            let wall_ns = event.ts_ns + boot_offset_ns;
            let reason = spec_reason_of(event.drop_reason);
            let known = kernel_drop_reasons.spec_contains(event.kernel_drop_reason);
            &&& r@.time_s == wall_ns / 1_000_000_000
            &&& r@.time_ns == wall_ns % 1_000_000_000
            &&& r@.verdict == Verdict::Dropped
            &&& r@.ip == Some(
                FlowIp {
                    source: IpAddress::V4(event.src_ip),
                    destination: IpAddress::V4(event.dst_ip),
                },
            )
            &&& r@.l4 == (if event.proto == 6 {
                Some(
                    Layer4::Tcp {
                        source_port: event.src_port as u32,
                        destination_port: event.dst_port as u32,
                        flags: None,
                    },
                )
            } else if event.proto == 17 {
                Some(
                    Layer4::Udp {
                        source_port: event.src_port as u32,
                        destination_port: event.dst_port as u32,
                    },
                )
            } else {
                None
            })
            &&& r@.summary == spec_drop_summary(
                *event,
                known,
                if known {
                    kernel_drop_reasons.spec_at(event.kernel_drop_reason)
                } else {
                    Seq::empty()
                },
            )
            &&& r@.event_type == Some(EventType { event_type: MESSAGE_TYPE_DROP, sub_type: 0 })
            &&& r@.trace_observation_point == TraceObservationPoint::FromNetwork
            &&& r@.traffic_direction == spec_flow_direction(event.direction)
            &&& r@.is_reply == Some(false)
            &&& match r@.extensions {
                Some(e) => {
                    &&& e.drop_reason == Some(spec_reason_name(reason))
                    &&& e.kernel_drop_reason == (if reason == DropReason::KernelDrop
                        && event.kernel_drop_reason > 0 && known {
                        Some(kernel_drop_reasons.spec_at(event.kernel_drop_reason))
                    } else if reason == DropReason::KernelDrop && event.kernel_drop_reason > 0 {
                        Some("UNKNOWN_"@ + dec_str(event.kernel_drop_reason as nat))
                    } else {
                        None
                    })
                    &&& e.return_code == (if reason != DropReason::KernelDrop
                        && reason.spec_is_fexit() {
                        Some(spec_errno_name(event.return_val as int))
                    } else {
                        None
                    })
                    &&& e.bytes == (if event.bytes > 0 {
                        Some(event.bytes as u64)
                    } else {
                        None
                    })
                    &&& e.pid == (if event.pid > 0 {
                        Some(event.pid)
                    } else {
                        None
                    })
                },
                None => false,
            }
            &&& r@.source is None
            &&& r@.destination is None
            &&& r@.node_name == Seq::<char>::empty()
        }),
{
    let wall_ns: i64 = event.ts_ns as i64 + boot_offset_ns;
    let secs = wall_ns / 1_000_000_000;
    let nanos = (wall_ns % 1_000_000_000) as i32;

    let reason = DropReason::from_u8(event.drop_reason);

    let ip = Some(
        FlowIp {
            source: IpAddress::V4(event.src_ip),
            destination: IpAddress::V4(event.dst_ip),
        },
    );

    let l4 = if event.proto == 6 {
        Some(
            Layer4::Tcp {
                source_port: event.src_port as u32,
                destination_port: event.dst_port as u32,
                flags: None,
            },
        )
    } else if event.proto == 17 {
        Some(
            Layer4::Udp {
                source_port: event.src_port as u32,
                destination_port: event.dst_port as u32,
            },
        )
    } else {
        None
    };

    let kernel_name = kernel_drop_reasons.get(event.kernel_drop_reason);

    // Summary line.
    let mut summary = String::new();
    summary.append("Drop: ");
    if reason == DropReason::KernelDrop {
        match &kernel_name {
            Some(name) => {
                summary.append(name.as_str());
            },
            None => {
                summary.append("UNKNOWN");
            },
        }
    } else if reason.is_fexit() {
        summary.append(reason.as_str());
        summary.append(" (");
        let errno = errno_name(event.return_val as i32);
        summary.append(errno.as_str());
        summary.append(")");
    } else {
        summary.append(reason.as_str());
    }
    proof {
        let known = kernel_drop_reasons.spec_contains(event.kernel_drop_reason);
        assert(summary@ =~= spec_drop_summary(
            *event,
            known,
            if known {
                kernel_drop_reasons.spec_at(event.kernel_drop_reason)
            } else {
                Seq::empty()
            },
        ));
    }

    // Extensions.
    let drop_reason_str = crate::identity::string_lit(reason.as_str());
    let kernel_reason_ext: Option<String> = if event.kernel_drop_reason > 0 && reason
        == DropReason::KernelDrop {
        match &kernel_name {
            Some(name) => Some(name.clone()),
            None => {
                let mut s = String::new();
                s.append("UNKNOWN_");
                let num = u64_to_dec(event.kernel_drop_reason as u64);
                s.append(num.as_str());
                proof {
                    assert(s@ =~= "UNKNOWN_"@ + dec_str(event.kernel_drop_reason as nat));
                }
                Some(s)
            },
        }
    } else {
        None
    };
    let return_code_ext: Option<String> = if reason != DropReason::KernelDrop && reason.is_fexit() {
        Some(errno_name(event.return_val as i32))
    } else {
        None
    };
    let extensions = Some(
        Extensions {
            bytes: if event.bytes > 0 {
                Some(event.bytes as u64)
            } else {
                None
            },
            drop_reason: Some(drop_reason_str),
            return_code: return_code_ext,
            kernel_drop_reason: kernel_reason_ext,
            pid: if event.pid > 0 {
                Some(event.pid)
            } else {
                None
            },
        },
    );

    let traffic_direction = if event.direction == DIR_INGRESS {
        crate::flow::TrafficDirection::Ingress
    } else if event.direction == DIR_EGRESS {
        crate::flow::TrafficDirection::Egress
    } else {
        crate::flow::TrafficDirection::Unknown
    };

    Flow {
        time_s: secs,
        time_ns: nanos,
        verdict: Verdict::Dropped,
        ip,
        l4,
        source: None,
        destination: None,
        source_names: Vec::new(),
        destination_names: Vec::new(),
        traffic_direction,
        is_reply: Some(false),
        event_type: Some(EventType { event_type: MESSAGE_TYPE_DROP, sub_type: 0 }),
        trace_observation_point: TraceObservationPoint::FromNetwork,
        extensions,
        summary,
        node_name: String::new(),
    }
}

// ── Local address discovery ──────────────────────────────────────────

/// The scan of a process's route-trie text: remember the address on each
/// `|-- a.b.c.d` line, and when a `/32 host LOCAL` line follows, the
/// first remembered non-loopback address is the answer. Other lines
/// forget the remembered address.
pub open spec fn spec_fib_scan(lines: Seq<Seq<char>>, last: Option<u32>) -> Option<u32>
    decreases lines.len(),
{
    if lines.len() == 0 {
        None
    } else {
        let l = trim_spec(lines[0]);
        if is_prefix_of("|-- "@, l) {
            spec_fib_scan(
                lines.drop_first(),
                parse_ipv4_spec(trim_spec(l.skip(4))),
            )
        } else if exists|i: int| match_at(l, "/32 host LOCAL"@, i) {
            match last {
                Some(ip) => if ip / 0x1000000 != 127 {
                    Some(ip)
                } else {
                    spec_fib_scan(lines.drop_first(), last)
                },
                None => spec_fib_scan(lines.drop_first(), last),
            }
        } else {
            spec_fib_scan(lines.drop_first(), None)
        }
    }
}

/// The first local, non-loopback IPv4 address in route-trie text.
pub open spec fn spec_first_local_ipv4(content: Seq<char>) -> Option<u32> {
    spec_fib_scan(crate::text::split_spec(content, '\n'), None)
}

/// Find the first local, non-loopback IPv4 address in the text of a
/// process's route trie.
pub fn first_local_ipv4(content: &str) -> (r: Option<u32>)
    ensures
        r == spec_first_local_ipv4(content@),
{
    let lines = crate::text::split_char(content, '\n');
    let n = lines.len();
    let mut last: Option<u32> = None;
    let mut i: usize = 0;
    let ghost lv = lines.deep_view();
    proof {
        assert(lv.skip(0) =~= lv);
    }
    while i < n
        invariant
            i <= n,
            n == lines@.len(),
            lv == lines.deep_view(),
            lv == crate::text::split_spec(content@, '\n'),
            spec_fib_scan(lv, None) == spec_fib_scan(lv.skip(i as int), last),
        decreases n - i,
    {
        let ghost rest = lv.skip(i as int);
        let ghost last0 = last;
        proof {
            assert(rest.len() > 0);
            assert(rest[0] == lv[i as int]);
            assert(lv[i as int] == lines@[i as int]@);
            assert(rest.drop_first() =~= lv.skip(i as int + 1));
        }
        let trimmed = trim(lines[i].as_str());
        let tlen = trimmed.as_str().unicode_len();
        if crate::text::starts_with(trimmed.as_str(), "|-- ") {
            proof {
                reveal_strlit("|-- ");
                assert(trimmed@.subrange(4, tlen as int) =~= trimmed@.skip(4));
            }
            let ip_text = substring(trimmed.as_str(), 4, tlen);
            let tail = trim(ip_text.as_str());
            last = parse_ipv4(tail.as_str());
            proof {
                assert(spec_fib_scan(rest, last0) == spec_fib_scan(
                    lv.skip(i as int + 1),
                    last,
                ));
            }
        } else if contains_str(trimmed.as_str(), "/32 host LOCAL") {
            proof {
                assert(!is_prefix_of("|-- "@, trim_spec(rest[0])));
                assert(exists|k: int| match_at(trim_spec(rest[0]), "/32 host LOCAL"@, k));
            }
            match last {
                Some(ip) => {
                    if ip / 0x1000000 != 127 {
                        proof {
                            assert(spec_fib_scan(rest, last0) == Some(ip));
                        }
                        return Some(ip);
                    }
                },
                None => {
                },
            }
            proof {
                assert(spec_fib_scan(rest, last0) == spec_fib_scan(
                    lv.skip(i as int + 1),
                    last,
                ));
            }
        } else {
            last = None;
            proof {
                assert(spec_fib_scan(rest, last0) == spec_fib_scan(
                    lv.skip(i as int + 1),
                    last,
                ));
            }
        }
        i = i + 1;
    }
    proof {
        assert(lv.skip(n as int).len() == 0);
    }
    None
}

/// One drop event's whole userspace handling, short of enrichment: the
/// suppress filter is applied, a missing source address is patched from
/// the resolved local address, and the event becomes a dropped flow.
pub fn process_drop_event(
    event: &DropEvent,
    boot_offset_ns: i64,
    kernel_drop_reasons: &ReasonTable,
    suppressed_reasons: &Vec<String>,
    resolved_src: Option<u32>,
) -> (r: Option<Flow>)
    requires
        kernel_drop_reasons.wf(),
        event.ts_ns <= i64::MAX,
        0 <= event.ts_ns + boot_offset_ns <= i64::MAX,
    ensures
        ({
            let reason = spec_reason_of(event.drop_reason);
            let known = kernel_drop_reasons.spec_contains(event.kernel_drop_reason);
            let name = if reason == DropReason::KernelDrop {
                if known {
                    kernel_drop_reasons.spec_at(event.kernel_drop_reason)
                } else {
                    Seq::empty()
                }
            } else {
                spec_reason_name(reason)
            };
            if suppressed_reasons.deep_view().contains(name) {
                r is None
            } else {
                r is Some
            }
        }),
        match r {
            Some(flow) => ({
                let patched_src = if event.src_ip == 0 && event.pid > 0 && resolved_src is Some {
                    resolved_src->Some_0
                } else {
                    event.src_ip
                };
                flow@.verdict == Verdict::Dropped && flow@.ip == Some(
                    FlowIp {
                        source: IpAddress::V4(patched_src),
                        destination: IpAddress::V4(event.dst_ip),
                    },
                )
            }),
            None => true,
        },
{
    let reason = DropReason::from_u8(event.drop_reason);
    let kernel_name = kernel_drop_reasons.get(event.kernel_drop_reason);
    let reason_name: String = if reason == DropReason::KernelDrop {
        match &kernel_name {
            Some(name) => name.clone(),
            None => String::new(),
        }
    } else {
        crate::identity::string_lit(reason.as_str())
    };
    let ghost spec_name = if spec_reason_of(event.drop_reason) == DropReason::KernelDrop {
        if kernel_drop_reasons.spec_contains(event.kernel_drop_reason) {
            kernel_drop_reasons.spec_at(event.kernel_drop_reason)
        } else {
            Seq::<char>::empty()
        }
    } else {
        spec_reason_name(spec_reason_of(event.drop_reason))
    };
    proof {
        assert(reason_name@ == spec_name);
    }
    let mut i: usize = 0;
    while i < suppressed_reasons.len()
        invariant
            i <= suppressed_reasons@.len(),
            reason_name@ == spec_name,
            spec_name == (if spec_reason_of(event.drop_reason) == DropReason::KernelDrop {
                if kernel_drop_reasons.spec_contains(event.kernel_drop_reason) {
                    kernel_drop_reasons.spec_at(event.kernel_drop_reason)
                } else {
                    Seq::<char>::empty()
                }
            } else {
                spec_reason_name(spec_reason_of(event.drop_reason))
            }),
            forall|j: int|
                0 <= j < i ==> #[trigger] suppressed_reasons.deep_view()[j] != reason_name@,
        decreases suppressed_reasons@.len() - i,
    {
        proof {
            assert(suppressed_reasons.deep_view()[i as int] == suppressed_reasons@[i as int]@);
        }
        if string_eq(&suppressed_reasons[i], &reason_name) {
            proof {
                assert(suppressed_reasons.deep_view().contains(spec_name)) by {
                    assert(suppressed_reasons.deep_view()[i as int] == spec_name);
                }
            }
            return None;
        }
        i = i + 1;
    }
    proof {
        assert(!suppressed_reasons.deep_view().contains(spec_name));
    }

    let mut patched = *event;
    if patched.src_ip == 0 && patched.pid > 0 {
        match resolved_src {
            Some(ip) => {
                patched.src_ip = ip;
            },
            None => {
            },
        }
    }

    Some(drop_event_to_flow(&patched, boot_offset_ns, kernel_drop_reasons))
}

} // verus!
