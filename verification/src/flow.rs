//! The enriched flow record and the conversion from kernel packet events:
//! timestamps, layer-4 variants, decoded TCP flags, the summary line, and
//! the trace event type.

use vstd::prelude::*;

verus! {

use crate::conntrack::{PacketEvent, TCP_FIN, TCP_SYN, TCP_RST, TCP_PSH, TCP_ACK, TCP_URG,
    TCP_ECE, TCP_CWR, TCP_NS, IPPROTO_TCP, IPPROTO_UDP, OBS_FROM_ENDPOINT, OBS_TO_ENDPOINT,
    OBS_FROM_NETWORK, OBS_TO_NETWORK, DIR_INGRESS, DIR_EGRESS};
use crate::identity::{Workload, WorkloadView, clone_labels, clone_workloads};
use crate::net::IpAddress;
use vstd::string::StrSliceExecFns;
use vstd::string::StringExecFns;

// Monitor-API message types.
pub const MESSAGE_TYPE_DROP: i32 = 1;
pub const MESSAGE_TYPE_TRACE: i32 = 4;

// Trace observation sub-types.
pub const TRACE_TO_LXC: i32 = 0;
pub const TRACE_FROM_LXC: i32 = 5;
pub const TRACE_FROM_NETWORK: i32 = 10;
pub const TRACE_TO_NETWORK: i32 = 11;

/// Decoded TCP flags.
#[derive(Clone, Copy, PartialEq, Eq, Structural, Debug)]
pub struct TcpFlags {
    pub fin: bool,
    pub syn: bool,
    pub rst: bool,
    pub psh: bool,
    pub ack: bool,
    pub urg: bool,
    pub ece: bool,
    pub cwr: bool,
    pub ns: bool,
}

/// The all-clear flag set.
pub open spec fn tcp_flags_none() -> TcpFlags {
    TcpFlags {
        fin: false,
        syn: false,
        rst: false,
        psh: false,
        ack: false,
        urg: false,
        ece: false,
        cwr: false,
        ns: false,
    }
}

impl TcpFlags {
    /// The all-clear flag set.
    pub fn none() -> (r: Self)
        ensures
            r == tcp_flags_none(),
    {
        TcpFlags {
            fin: false,
            syn: false,
            rst: false,
            psh: false,
            ack: false,
            urg: false,
            ece: false,
            cwr: false,
            ns: false,
        }
    }
}

/// Verdict of a flow.
#[derive(Clone, Copy, PartialEq, Eq, Structural, Debug)]
pub enum Verdict {
    Forwarded,
    Dropped,
}

/// Direction of a flow relative to the local node.
#[derive(Clone, Copy, PartialEq, Eq, Structural, Debug)]
pub enum TrafficDirection {
    Unknown,
    Ingress,
    Egress,
}

/// Where in the kernel path a packet was observed.
#[derive(Clone, Copy, PartialEq, Eq, Structural, Debug)]
pub enum TraceObservationPoint {
    Unknown,
    FromEndpoint,
    ToEndpoint,
    FromNetwork,
    ToNetwork,
}

/// The IP header of a flow.
#[derive(Clone, Copy, PartialEq, Eq, Structural, Debug)]
pub struct FlowIp {
    pub source: IpAddress,
    pub destination: IpAddress,
}

/// The layer-4 variant of a flow.
#[derive(Clone, Copy, PartialEq, Eq, Structural, Debug)]
pub enum Layer4 {
    Tcp { source_port: u32, destination_port: u32, flags: Option<TcpFlags> },
    Udp { source_port: u32, destination_port: u32 },
    Sctp { source_port: u32, destination_port: u32 },
    Icmpv4,
    Icmpv6,
    Igmp,
    Vrrp,
}

/// The type and sub-type of the monitor event a flow was built from.
#[derive(Clone, Copy, PartialEq, Eq, Structural, Debug)]
pub struct EventType {
    pub event_type: i32,
    pub sub_type: i32,
}

/// The identity side of a flow.
#[derive(Debug)]
pub struct Endpoint {
    pub identity: u32,
    pub namespace: String,
    pub pod_name: String,
    pub labels: Vec<String>,
    pub workloads: Vec<Workload>,
}

/// The mathematical value of an endpoint.
pub ghost struct EndpointView {
    pub identity: u32,
    pub namespace: Seq<char>,
    pub pod_name: Seq<char>,
    pub labels: Seq<Seq<char>>,
    pub workloads: Seq<WorkloadView>,
}

impl View for Endpoint {
    type V = EndpointView;

    open spec fn view(&self) -> EndpointView {
        EndpointView {
            identity: self.identity,
            namespace: self.namespace@,
            pod_name: self.pod_name@,
            labels: self.labels.deep_view(),
            workloads: Seq::new(self.workloads@.len(), |i: int| self.workloads@[i]@),
        }
    }
}

impl Clone for Endpoint {
    fn clone(&self) -> (r: Self)
        ensures
            r@ == self@,
    {
        let r = Endpoint {
            identity: self.identity,
            namespace: self.namespace.clone(),
            pod_name: self.pod_name.clone(),
            labels: clone_labels(&self.labels),
            workloads: clone_workloads(&self.workloads),
        };
        proof {
            assert(Seq::new(r.workloads@.len(), |i: int| r.workloads@[i]@) =~= Seq::new(
                self.workloads@.len(),
                |i: int| self.workloads@[i]@,
            ));
        }
        r
    }
}

/// Free-form extensions attached to a flow.
#[derive(Debug)]
pub struct Extensions {
    pub bytes: Option<u64>,
    pub drop_reason: Option<String>,
    pub return_code: Option<String>,
    pub kernel_drop_reason: Option<String>,
    pub pid: Option<u32>,
}

/// The mathematical value of the extensions.
pub ghost struct ExtensionsView {
    pub bytes: Option<u64>,
    pub drop_reason: Option<Seq<char>>,
    pub return_code: Option<Seq<char>>,
    pub kernel_drop_reason: Option<Seq<char>>,
    pub pid: Option<u32>,
}

impl View for Extensions {
    type V = ExtensionsView;

    open spec fn view(&self) -> ExtensionsView {
        ExtensionsView {
            bytes: self.bytes,
            drop_reason: match self.drop_reason {
                Some(ref s) => Some(s@),
                None => None,
            },
            return_code: match self.return_code {
                Some(ref s) => Some(s@),
                None => None,
            },
            kernel_drop_reason: match self.kernel_drop_reason {
                Some(ref s) => Some(s@),
                None => None,
            },
            pid: self.pid,
        }
    }
}

/// Clone an optional string, keeping its value.
pub fn clone_opt_string(s: &Option<String>) -> (r: Option<String>)
    ensures
        match (s, &r) {
            (Some(a), Some(b)) => a@ == b@,
            (None, None) => true,
            _ => false,
        },
{
    match s {
        Some(v) => Some(v.clone()),
        None => None,
    }
}

impl Clone for Extensions {
    fn clone(&self) -> (r: Self)
        ensures
            r@ == self@,
    {
        Extensions {
            bytes: self.bytes,
            drop_reason: clone_opt_string(&self.drop_reason),
            return_code: clone_opt_string(&self.return_code),
            kernel_drop_reason: clone_opt_string(&self.kernel_drop_reason),
            pid: self.pid,
        }
    }
}

/// An enriched flow event.
#[derive(Debug)]
pub struct Flow {
    pub time_s: i64,
    pub time_ns: i32,
    pub verdict: Verdict,
    pub ip: Option<FlowIp>,
    pub l4: Option<Layer4>,
    pub source: Option<Endpoint>,
    pub destination: Option<Endpoint>,
    pub source_names: Vec<String>,
    pub destination_names: Vec<String>,
    pub traffic_direction: TrafficDirection,
    pub is_reply: Option<bool>,
    pub event_type: Option<EventType>,
    pub trace_observation_point: TraceObservationPoint,
    pub extensions: Option<Extensions>,
    pub summary: String,
    pub node_name: String,
}

/// The mathematical value of a flow.
pub ghost struct FlowView {
    pub time_s: i64,
    pub time_ns: i32,
    pub verdict: Verdict,
    pub ip: Option<FlowIp>,
    pub l4: Option<Layer4>,
    pub source: Option<EndpointView>,
    pub destination: Option<EndpointView>,
    pub source_names: Seq<Seq<char>>,
    pub destination_names: Seq<Seq<char>>,
    pub traffic_direction: TrafficDirection,
    pub is_reply: Option<bool>,
    pub event_type: Option<EventType>,
    pub trace_observation_point: TraceObservationPoint,
    pub extensions: Option<ExtensionsView>,
    pub summary: Seq<char>,
    pub node_name: Seq<char>,
}

impl View for Flow {
    type V = FlowView;

    open spec fn view(&self) -> FlowView {
        FlowView {
            time_s: self.time_s,
            time_ns: self.time_ns,
            verdict: self.verdict,
            ip: self.ip,
            l4: self.l4,
            source: match self.source {
                Some(ref e) => Some(e@),
                None => None,
            },
            destination: match self.destination {
                Some(ref e) => Some(e@),
                None => None,
            },
            source_names: self.source_names.deep_view(),
            destination_names: self.destination_names.deep_view(),
            traffic_direction: self.traffic_direction,
            is_reply: self.is_reply,
            event_type: self.event_type,
            trace_observation_point: self.trace_observation_point,
            extensions: match self.extensions {
                Some(ref e) => Some(e@),
                None => None,
            },
            summary: self.summary@,
            node_name: self.node_name@,
        }
    }
}

/// Clone an optional endpoint, keeping its value.
pub fn clone_opt_endpoint(e: &Option<Endpoint>) -> (r: Option<Endpoint>)
    ensures
        match (e, &r) {
            (Some(a), Some(b)) => a@ == b@,
            (None, None) => true,
            _ => false,
        },
{
    match e {
        Some(v) => Some(v.clone()),
        None => None,
    }
}

impl Clone for Flow {
    fn clone(&self) -> (r: Self)
        ensures
            r@ == self@,
    {
        Flow {
            time_s: self.time_s,
            time_ns: self.time_ns,
            verdict: self.verdict,
            ip: self.ip,
            l4: self.l4,
            source: clone_opt_endpoint(&self.source),
            destination: clone_opt_endpoint(&self.destination),
            source_names: clone_labels(&self.source_names),
            destination_names: clone_labels(&self.destination_names),
            traffic_direction: self.traffic_direction,
            is_reply: self.is_reply,
            event_type: self.event_type,
            trace_observation_point: self.trace_observation_point,
            extensions: match &self.extensions {
                Some(e) => Some(e.clone()),
                None => None,
            },
            summary: self.summary.clone(),
            node_name: self.node_name.clone(),
        }
    }
}

// ── TCP flag decoding ────────────────────────────────────────────────

/// The decoded form of a flag bitmask.
pub open spec fn spec_tcp_flags(flags: u16) -> TcpFlags {
    TcpFlags {
        fin: flags & TCP_FIN != 0,
        syn: flags & TCP_SYN != 0,
        rst: flags & TCP_RST != 0,
        psh: flags & TCP_PSH != 0,
        ack: flags & TCP_ACK != 0,
        urg: flags & TCP_URG != 0,
        ece: flags & TCP_ECE != 0,
        cwr: flags & TCP_CWR != 0,
        ns: flags & TCP_NS != 0,
    }
}

/// Decode a TCP flag bitmask.
pub fn tcp_flags_to_proto(flags: u16) -> (r: TcpFlags)
    ensures
        r == spec_tcp_flags(flags),
{
    TcpFlags {
        fin: flags & TCP_FIN != 0,
        syn: flags & TCP_SYN != 0,
        rst: flags & TCP_RST != 0,
        psh: flags & TCP_PSH != 0,
        ack: flags & TCP_ACK != 0,
        urg: flags & TCP_URG != 0,
        ece: flags & TCP_ECE != 0,
        cwr: flags & TCP_CWR != 0,
        ns: flags & TCP_NS != 0,
    }
}

// ── The TCP summary line ─────────────────────────────────────────────

/// The flag tokens of a summary, in display order. SYN and ACK merge into
/// one token when both are set.
pub open spec fn summary_tokens(f: TcpFlags) -> Seq<Seq<char>> {
    let head: Seq<Seq<char>> = if f.syn && f.ack {
        seq!["SYN-ACK"@]
    } else {
        (if f.syn {
            seq!["SYN"@]
        } else {
            Seq::empty()
        }) + (if f.ack {
            seq!["ACK"@]
        } else {
            Seq::empty()
        })
    };
    head + (if f.fin {
        seq!["FIN"@]
    } else {
        Seq::empty()
    }) + (if f.rst {
        seq!["RST"@]
    } else {
        Seq::empty()
    }) + (if f.psh {
        seq!["PSH"@]
    } else {
        Seq::empty()
    }) + (if f.urg {
        seq!["URG"@]
    } else {
        Seq::empty()
    }) + (if f.ece {
        seq!["ECE"@]
    } else {
        Seq::empty()
    }) + (if f.cwr {
        seq!["CWR"@]
    } else {
        Seq::empty()
    }) + (if f.ns {
        seq!["NS"@]
    } else {
        Seq::empty()
    })
}

/// Tokens joined with a comma and a space.
pub open spec fn join_tokens(ts: Seq<Seq<char>>) -> Seq<char>
    decreases ts.len(),
{
    if ts.len() == 0 {
        Seq::empty()
    } else if ts.len() == 1 {
        ts[0]
    } else {
        join_tokens(ts.drop_last()) + ", "@ + ts.last()
    }
}

/// The summary line of a TCP flow: `TCP` with no flags set, else
/// `TCP Flags: ` and the tokens.
pub open spec fn spec_tcp_summary(f: TcpFlags) -> Seq<char> {
    if summary_tokens(f).len() == 0 {
        "TCP"@
    } else {
        "TCP Flags: "@ + join_tokens(summary_tokens(f))
    }
}

/// Append a token when its flag is set.
fn push_token(out: &mut Vec<&'static str>, cond: bool, tok: &'static str)
    ensures
        final(out).deep_view() == old(out).deep_view() + (if cond {
            seq![tok@]
        } else {
            Seq::<Seq<char>>::empty()
        }),
{
    if cond {
        out.push(tok);
        proof {
            assert(final(out).deep_view() =~= old(out).deep_view() + seq![tok@]);
        }
    } else {
        proof {
            assert(final(out).deep_view() =~= old(out).deep_view() + Seq::<Seq<char>>::empty());
        }
    }
}

/// Collect the flag tokens of a summary.
fn collect_tokens(f: &TcpFlags) -> (r: Vec<&'static str>)
    ensures
        r.deep_view() == summary_tokens(*f),
{
    let ghost head: Seq<Seq<char>> = if f.syn && f.ack {
        seq!["SYN-ACK"@]
    } else {
        (if f.syn {
            seq!["SYN"@]
        } else {
            Seq::empty()
        }) + (if f.ack {
            seq!["ACK"@]
        } else {
            Seq::empty()
        })
    };
    let mut out: Vec<&'static str> = Vec::new();
    if f.syn && f.ack {
        out.push("SYN-ACK");
    } else {
        if f.syn {
            out.push("SYN");
        }
        if f.ack {
            out.push("ACK");
        }
    }
    proof {
        assert(out.deep_view() =~= head);
    }
    push_token(&mut out, f.fin, "FIN");
    push_token(&mut out, f.rst, "RST");
    push_token(&mut out, f.psh, "PSH");
    push_token(&mut out, f.urg, "URG");
    push_token(&mut out, f.ece, "ECE");
    push_token(&mut out, f.cwr, "CWR");
    push_token(&mut out, f.ns, "NS");
    out
}

/// Build the human-readable summary line from TCP flags.
pub fn tcp_flags_summary(flags: &TcpFlags) -> (r: String)
    ensures
        r@ == spec_tcp_summary(*flags),
{
    let tokens = collect_tokens(flags);
    if tokens.len() == 0 {
        let mut s = String::new();
        s.append("TCP");
        return s;
    }
    let mut s = String::new();
    s.append("TCP Flags: ");
    let mut i: usize = 0;
    let n = tokens.len();
    while i < n
        invariant
            i <= n,
            n == tokens@.len(),
            n >= 1,
            tokens.deep_view() == summary_tokens(*flags),
            i == 0 ==> s@ == "TCP Flags: "@,
            i > 0 ==> s@ == "TCP Flags: "@ + join_tokens(tokens.deep_view().take(i as int)),
        decreases n - i,
    {
        proof {
            assert(tokens.deep_view()[i as int] == tokens@[i as int]@);
            assert(tokens.deep_view().take(i as int + 1).drop_last() =~= tokens.deep_view().take(
                i as int,
            ));
            assert(tokens.deep_view().take(i as int + 1).last() == tokens.deep_view()[i as int]);
        }
        if i > 0 {
            s.append(", ");
        }
        s.append(tokens[i]);
        proof {
            if i > 0 {
                assert(s@ == "TCP Flags: "@ + join_tokens(tokens.deep_view().take(i as int)) + ", "@
                    + tokens.deep_view()[i as int]);
                assert(s@ =~= "TCP Flags: "@ + (join_tokens(tokens.deep_view().take(i as int))
                    + ", "@ + tokens.deep_view()[i as int]));
            } else {
                assert(tokens.deep_view().take(1).len() == 1);
                assert(join_tokens(tokens.deep_view().take(1)) == tokens.deep_view()[0]);
            }
        }
        i = i + 1;
    }
    proof {
        assert(tokens.deep_view().take(n as int) =~= tokens.deep_view());
    }
    s
}

// ── Event type and direction mappings ────────────────────────────────

/// The trace observation point of a kernel observation-point code.
pub open spec fn spec_observation_point(code: u8) -> TraceObservationPoint {
    if code == OBS_FROM_ENDPOINT {
        TraceObservationPoint::FromEndpoint
    } else if code == OBS_TO_ENDPOINT {
        TraceObservationPoint::ToEndpoint
    } else if code == OBS_FROM_NETWORK {
        TraceObservationPoint::FromNetwork
    } else if code == OBS_TO_NETWORK {
        TraceObservationPoint::ToNetwork
    } else {
        TraceObservationPoint::Unknown
    }
}

/// The trace sub-type of a kernel observation-point code.
pub open spec fn spec_trace_sub_type(code: u8) -> i32 {
    if code == OBS_FROM_ENDPOINT {
        TRACE_FROM_LXC
    } else if code == OBS_TO_ENDPOINT {
        TRACE_TO_LXC
    } else if code == OBS_FROM_NETWORK {
        TRACE_FROM_NETWORK
    } else if code == OBS_TO_NETWORK {
        TRACE_TO_NETWORK
    } else {
        0
    }
}

/// The flow direction of a kernel direction code.
pub open spec fn spec_flow_direction(code: u8) -> TrafficDirection {
    if code == DIR_INGRESS {
        TrafficDirection::Ingress
    } else if code == DIR_EGRESS {
        TrafficDirection::Egress
    } else {
        TrafficDirection::Unknown
    }
}

// ── Extensions ───────────────────────────────────────────────────────

/// Build the extensions carrying the packet byte count; zero bytes carry
/// no extensions at all.
pub fn make_extensions(bytes: u32) -> (r: Option<Extensions>)
    ensures
        match r {
            Some(e) => bytes > 0 && e@.bytes == Some(bytes as u64) && e@.drop_reason is None
                && e@.return_code is None && e@.kernel_drop_reason is None && e@.pid is None,
            None => bytes == 0,
        },
{
    if bytes == 0 {
        return None;
    }
    Some(
        Extensions {
            bytes: Some(bytes as u64),
            drop_reason: None,
            return_code: None,
            kernel_drop_reason: None,
            pid: None,
        },
    )
}

// ── The conversion itself ────────────────────────────────────────────

/// Convert a packet event into a flow, shifting the kernel timestamp by the
/// boot-to-wall-clock offset.
pub fn packet_event_to_flow(pkt: &PacketEvent, boot_offset_ns: i64) -> (r: Flow)
    requires
        pkt.ts_ns <= i64::MAX,
        0 <= pkt.ts_ns + boot_offset_ns <= i64::MAX,
    ensures
        ({
            let wall_ns = pkt.ts_ns + boot_offset_ns;
            &&& r@.time_s == wall_ns / 1_000_000_000
            &&& r@.time_ns == wall_ns % 1_000_000_000
            &&& r@.verdict == Verdict::Forwarded
            &&& r@.ip == Some(
                FlowIp {
                    source: IpAddress::V4(pkt.src_ip),
                    destination: IpAddress::V4(pkt.dst_ip),
                },
            )
            &&& r@.l4 == (if pkt.proto == IPPROTO_TCP {
                Some(
                    Layer4::Tcp {
                        source_port: pkt.src_port as u32,
                        destination_port: pkt.dst_port as u32,
                        flags: Some(spec_tcp_flags(pkt.flags)),
                    },
                )
            } else if pkt.proto == IPPROTO_UDP {
                Some(
                    Layer4::Udp {
                        source_port: pkt.src_port as u32,
                        destination_port: pkt.dst_port as u32,
                    },
                )
            } else {
                None
            })
            &&& r@.summary == (if pkt.proto == IPPROTO_TCP {
                spec_tcp_summary(spec_tcp_flags(pkt.flags))
            } else if pkt.proto == IPPROTO_UDP {
                "UDP"@
            } else {
                Seq::<char>::empty()
            })
            &&& r@.event_type == Some(
                EventType {
                    event_type: MESSAGE_TYPE_TRACE,
                    sub_type: spec_trace_sub_type(pkt.observation_point),
                },
            )
            &&& r@.trace_observation_point == spec_observation_point(pkt.observation_point)
            &&& r@.traffic_direction == spec_flow_direction(pkt.traffic_direction)
            &&& r@.is_reply == Some(pkt.is_reply != 0)
            &&& match r@.extensions {
                Some(e) => pkt.bytes > 0 && e.bytes == Some(pkt.bytes as u64),
                None => pkt.bytes == 0,
            }
            &&& r@.source is None
            &&& r@.destination is None
            &&& r@.source_names == Seq::<Seq<char>>::empty()
            &&& r@.destination_names == Seq::<Seq<char>>::empty()
            &&& r@.node_name == Seq::<char>::empty()
        }),
{
    let wall_ns: i64 = pkt.ts_ns as i64 + boot_offset_ns;
    let secs = wall_ns / 1_000_000_000;
    let nanos = (wall_ns % 1_000_000_000) as i32;

    let ip = Some(
        FlowIp { source: IpAddress::V4(pkt.src_ip), destination: IpAddress::V4(pkt.dst_ip) },
    );

    let tcp_flags = tcp_flags_to_proto(pkt.flags);

    let mut summary = String::new();
    let l4 = if pkt.proto == IPPROTO_TCP {
        summary = tcp_flags_summary(&tcp_flags);
        Some(
            Layer4::Tcp {
                source_port: pkt.src_port as u32,
                destination_port: pkt.dst_port as u32,
                flags: Some(tcp_flags),
            },
        )
    } else if pkt.proto == IPPROTO_UDP {
        summary.append("UDP");
        Some(
            Layer4::Udp {
                source_port: pkt.src_port as u32,
                destination_port: pkt.dst_port as u32,
            },
        )
    } else {
        None
    };

    let trace_observation_point = if pkt.observation_point == OBS_FROM_ENDPOINT {
        TraceObservationPoint::FromEndpoint
    } else if pkt.observation_point == OBS_TO_ENDPOINT {
        TraceObservationPoint::ToEndpoint
    } else if pkt.observation_point == OBS_FROM_NETWORK {
        TraceObservationPoint::FromNetwork
    } else if pkt.observation_point == OBS_TO_NETWORK {
        TraceObservationPoint::ToNetwork
    } else {
        TraceObservationPoint::Unknown
    };
    let trace_sub_type = if pkt.observation_point == OBS_FROM_ENDPOINT {
        TRACE_FROM_LXC
    } else if pkt.observation_point == OBS_TO_ENDPOINT {
        TRACE_TO_LXC
    } else if pkt.observation_point == OBS_FROM_NETWORK {
        TRACE_FROM_NETWORK
    } else if pkt.observation_point == OBS_TO_NETWORK {
        TRACE_TO_NETWORK
    } else {
        0
    };

    let traffic_direction = if pkt.traffic_direction == DIR_INGRESS {
        TrafficDirection::Ingress
    } else if pkt.traffic_direction == DIR_EGRESS {
        TrafficDirection::Egress
    } else {
        TrafficDirection::Unknown
    };

    Flow {
        time_s: secs,
        time_ns: nanos,
        verdict: Verdict::Forwarded,
        ip,
        l4,
        source: None,
        destination: None,
        source_names: Vec::new(),
        destination_names: Vec::new(),
        traffic_direction,
        is_reply: Some(pkt.is_reply != 0),
        event_type: Some(EventType { event_type: MESSAGE_TYPE_TRACE, sub_type: trace_sub_type }),
        trace_observation_point,
        extensions: make_extensions(pkt.bytes),
        summary,
        node_name: String::new(),
    }
}

} // verus!
