//! The flow filter language: per-field matchers compiled from filter
//! records, whitelist/blacklist evaluation with AND across fields and OR
//! across elements, glob node-name patterns and CIDR address matching.

use vstd::prelude::*;

verus! {

use crate::flow::{Flow, FlowView, Layer4, TcpFlags, Verdict, TrafficDirection};
use crate::net::{IpMatcher, IpVersion, parse_ip_matcher, spec_parse_ip_matcher,
    matcher_matches, ip_matches, spec_version_of, version_of};
use crate::text::{is_prefix_of, find_char, substring, starts_with, str_eq, to_ascii_lower,
    ascii_lower, parse_u32, all_digits, dec_val, string_eq};
use vstd::string::StrSliceExecFns;
use vstd::string::StringExecFns;

// ── Glob matching ────────────────────────────────────────────────────

/// `*` matches any sequence of characters, including the empty one; any
/// other character matches itself.
pub open spec fn glob_matches(p: Seq<char>, t: Seq<char>) -> bool
    decreases p.len(), t.len(),
{
    if p.len() == 0 {
        t.len() == 0
    } else if p[0] == '*' {
        glob_matches(p.drop_first(), t) || (t.len() > 0 && glob_matches(p, t.drop_first()))
    } else {
        t.len() > 0 && p[0] == t[0] && glob_matches(p.drop_first(), t.drop_first())
    }
}

/// Decide a glob match.
pub fn glob_match(pattern: &str, text: &str) -> (r: bool)
    ensures
        r == glob_matches(pattern@, text@),
    decreases pattern@.len() + text@.len(),
{
    let plen = pattern.unicode_len();
    let tlen = text.unicode_len();
    if plen == 0 {
        return tlen == 0;
    }
    let c = pattern.get_char(0);
    proof {
        assert(pattern@.drop_first() =~= pattern@.subrange(1, plen as int));
    }
    if c == '*' {
        let rest = pattern.substring_char(1, plen);
        if glob_match(rest, text) {
            return true;
        }
        if tlen > 0 {
            proof {
                assert(text@.drop_first() =~= text@.subrange(1, tlen as int));
            }
            let ttail = text.substring_char(1, tlen);
            return glob_match(pattern, ttail);
        }
        false
    } else {
        if tlen == 0 {
            return false;
        }
        if text.get_char(0) != c {
            return false;
        }
        proof {
            assert(text@.drop_first() =~= text@.subrange(1, tlen as int));
        }
        let prest = pattern.substring_char(1, plen);
        let trest = text.substring_char(1, tlen);
        glob_match(prest, trest)
    }
}

/// A lone `*` matches every string, the empty one included.
pub proof fn lemma_glob_star_matches_all(t: Seq<char>)
    ensures
        glob_matches("*"@, t),
    decreases t.len(),
{
    reveal_strlit("*");
    let p = "*"@;
    assert(p.len() == 1);
    assert(p[0] == '*');
    if t.len() == 0 {
        assert(p.drop_first().len() == 0);
        assert(glob_matches(p.drop_first(), t));
        assert(glob_matches(p, t));
    } else {
        lemma_glob_star_matches_all(t.drop_first());
        assert(glob_matches(p, t.drop_first()));
        assert(glob_matches(p, t));
    }
}

/// `*` followed by one character matches exactly the strings ending in it.
proof fn lemma_glob_star_char(p: Seq<char>, c: char, t: Seq<char>)
    requires
        p.len() == 2,
        p[0] == '*',
        p[1] == c,
        c != '*',
    ensures
        glob_matches(p, t) == (t.len() > 0 && t.last() == c),
    decreases t.len(),
{
    let pc = p.drop_first();
    assert(pc.len() == 1 && pc[0] == c);
    if t.len() == 0 {
        assert(!glob_matches(pc, t));
        assert(!glob_matches(p, t));
    } else {
        lemma_glob_star_char(p, c, t.drop_first());
        if t.len() == 1 {
            assert(pc.drop_first().len() == 0);
            assert(t.drop_first().len() == 0);
            assert(glob_matches(pc.drop_first(), t.drop_first()));
            assert(glob_matches(pc, t) == (t[0] == c));
            assert(glob_matches(p, t) == (glob_matches(pc, t) || glob_matches(p, t.drop_first())));
            assert(!glob_matches(p, t.drop_first()));
        } else {
            assert(t.drop_first().len() > 0);
            assert(pc.drop_first().len() == 0);
            assert(!glob_matches(pc.drop_first(), t.drop_first()));
            assert(glob_matches(pc, t) == (t[0] == c && glob_matches(
                pc.drop_first(),
                t.drop_first(),
            )));
            assert(!glob_matches(pc, t));
            assert(glob_matches(p, t) == (glob_matches(pc, t) || glob_matches(p, t.drop_first())));
            assert(t.drop_first().last() == t.last());
        }
    }
}

/// The pattern `a*b` matches exactly the strings of length at least two
/// that start with `a` and end with `b`.
pub proof fn lemma_glob_bracket(t: Seq<char>)
    ensures
        glob_matches("a*b"@, t) == (t.len() >= 2 && t[0] == 'a' && t.last() == 'b'),
{
    reveal_strlit("a*b");
    let p = "a*b"@;
    assert(p.len() == 3 && p[0] == 'a' && p[1] == '*' && p[2] == 'b');
    if t.len() == 0 {
        assert(!glob_matches(p, t));
    } else if t[0] != 'a' {
        assert(!glob_matches(p, t));
    } else {
        let star = p.drop_first();
        assert(star.len() == 2 && star[0] == '*' && star[1] == 'b');
        assert(glob_matches(p, t) == glob_matches(star, t.drop_first()));
        lemma_glob_star_char(star, 'b', t.drop_first());
        if t.len() >= 2 {
            assert(t.drop_first().last() == t.last());
        }
    }
}

// ── Pod matchers ─────────────────────────────────────────────────────

/// A compiled pod pattern: an optional exact namespace and an optional pod
/// name prefix.
#[derive(Debug)]
pub struct PodMatcher {
    pub namespace: Option<String>,
    pub name_prefix: Option<String>,
}

/// The mathematical value of a pod matcher.
pub ghost struct PodMatcherView {
    pub namespace: Option<Seq<char>>,
    pub name_prefix: Option<Seq<char>>,
}

impl View for PodMatcher {
    type V = PodMatcherView;

    open spec fn view(&self) -> PodMatcherView {
        PodMatcherView {
            namespace: match self.namespace {
                Some(ref s) => Some(s@),
                None => None,
            },
            name_prefix: match self.name_prefix {
                Some(ref s) => Some(s@),
                None => None,
            },
        }
    }
}

impl Clone for PodMatcher {
    fn clone(&self) -> (r: Self)
        ensures
            r@ == self@,
    {
        PodMatcher {
            namespace: crate::flow::clone_opt_string(&self.namespace),
            name_prefix: crate::flow::clone_opt_string(&self.name_prefix),
        }
    }
}

/// The reading of `ns/prefix`, `/prefix`, `ns/` and bare `prefix` forms:
/// the part before the first slash constrains the namespace when non-empty,
/// the part after it the pod name prefix when non-empty; without a slash
/// the whole string is a name prefix.
pub open spec fn spec_parse_pod_matcher(s: Seq<char>) -> PodMatcherView {
    if exists|i: int| 0 <= i < s.len() && s[i] == '/' {
        let i = first_slash(s);
        let ns = s.subrange(0, i);
        let name = s.subrange(i + 1, s.len() as int);
        PodMatcherView {
            namespace: if ns.len() == 0 {
                None
            } else {
                Some(ns)
            },
            name_prefix: if name.len() == 0 {
                None
            } else {
                Some(name)
            },
        }
    } else {
        PodMatcherView { namespace: None, name_prefix: Some(s) }
    }
}

/// Index of the first slash.
pub open spec fn first_slash(s: Seq<char>) -> int
    decreases s.len(),
{
    if s.len() == 0 {
        0
    } else if s[0] == '/' {
        0
    } else {
        1 + first_slash(s.drop_first())
    }
}

proof fn lemma_first_slash_at(s: Seq<char>, i: int)
    requires
        0 <= i <= s.len(),
        forall|j: int| 0 <= j < i ==> s[j] != '/',
        i < s.len() ==> s[i] == '/',
    ensures
        first_slash(s) == i,
    decreases i,
{
    if i == 0 {
    } else {
        assert(s[0] != '/');
        lemma_first_slash_at(s.drop_first(), i - 1);
        assert(forall|j: int| 0 <= j < i - 1 ==> s.drop_first()[j] == s[j + 1]);
    }
}

impl PodMatcher {
    /// Parse a pod pattern.
    pub fn parse(s: &str) -> (r: Self)
        ensures
            r@ == spec_parse_pod_matcher(s@),
    {
        let slen = s.unicode_len();
        match find_char(s, '/') {
            Some(i) => {
                proof {
                    lemma_first_slash_at(s@, i as int);
                }
                let ns = substring(s, 0, i);
                let name = substring(s, i + 1, slen);
                PodMatcher {
                    namespace: if ns.as_str().unicode_len() == 0 {
                        None
                    } else {
                        Some(ns)
                    },
                    name_prefix: if name.as_str().unicode_len() == 0 {
                        None
                    } else {
                        Some(name)
                    },
                }
            },
            None => {
                let mut p = String::new();
                p.append(s);
                PodMatcher { namespace: None, name_prefix: Some(p) }
            },
        }
    }
}

/// A pod matcher accepts a namespace and pod name.
pub open spec fn pod_matches(m: PodMatcherView, ns: Seq<char>, pod: Seq<char>) -> bool {
    (match m.namespace {
        Some(want) => ns == want,
        None => true,
    }) && (match m.name_prefix {
        Some(prefix) => is_prefix_of(prefix, pod),
        None => true,
    })
}

impl PodMatcher {
    /// Decide whether a namespace and pod name match.
    pub fn matches(&self, namespace: &str, pod_name: &str) -> (r: bool)
        ensures
            r == pod_matches(self@, namespace@, pod_name@),
    {
        let ns_ok = match &self.namespace {
            Some(want) => str_eq(namespace, want.as_str()),
            None => true,
        };
        if !ns_ok {
            return false;
        }
        match &self.name_prefix {
            Some(prefix) => starts_with(pod_name, prefix.as_str()),
            None => true,
        }
    }
}

// ── Node name matchers ───────────────────────────────────────────────

/// A compiled node-name pattern: a glob with `*` wildcards.
#[derive(Debug)]
pub struct NodeNameMatcher {
    pub pattern: String,
}

impl View for NodeNameMatcher {
    type V = Seq<char>;

    open spec fn view(&self) -> Seq<char> {
        self.pattern@
    }
}

impl Clone for NodeNameMatcher {
    fn clone(&self) -> (r: Self)
        ensures
            r@ == self@,
    {
        NodeNameMatcher { pattern: self.pattern.clone() }
    }
}

impl NodeNameMatcher {
    /// Keep the pattern as given.
    pub fn parse(s: &str) -> (r: Self)
        ensures
            r@ == s@,
    {
        let mut p = String::new();
        p.append(s);
        NodeNameMatcher { pattern: p }
    }

    /// Decide a glob match on a node name.
    pub fn matches(&self, name: &str) -> (r: bool)
        ensures
            r == glob_matches(self@, name@),
    {
        glob_match(self.pattern.as_str(), name)
    }
}

// ── TCP flag subsets ─────────────────────────────────────────────────

/// Every flag set in `filter` is set in `flow_flags`.
pub open spec fn spec_flags_subset(filter: TcpFlags, flow_flags: TcpFlags) -> bool {
    &&& (filter.fin ==> flow_flags.fin)
    &&& (filter.syn ==> flow_flags.syn)
    &&& (filter.rst ==> flow_flags.rst)
    &&& (filter.psh ==> flow_flags.psh)
    &&& (filter.ack ==> flow_flags.ack)
    &&& (filter.urg ==> flow_flags.urg)
    &&& (filter.ece ==> flow_flags.ece)
    &&& (filter.cwr ==> flow_flags.cwr)
    &&& (filter.ns ==> flow_flags.ns)
}

/// Decide whether all flags of `filter` are present in `flow_flags`.
pub fn tcp_flags_subset(filter: &TcpFlags, flow_flags: &TcpFlags) -> (r: bool)
    ensures
        r == spec_flags_subset(*filter, *flow_flags),
{
    (!filter.fin || flow_flags.fin) && (!filter.syn || flow_flags.syn) && (!filter.rst
        || flow_flags.rst) && (!filter.psh || flow_flags.psh) && (!filter.ack || flow_flags.ack)
        && (!filter.urg || flow_flags.urg) && (!filter.ece || flow_flags.ece) && (!filter.cwr
        || flow_flags.cwr) && (!filter.ns || flow_flags.ns)
}

/// A filter asking only for SYN matches exactly the flag sets with SYN,
/// whatever else they carry.
pub proof fn lemma_syn_filter_matches(flow_flags: TcpFlags)
    ensures
        spec_flags_subset(
            TcpFlags { syn: true, ..crate::flow::tcp_flags_none() },
            flow_flags,
        ) == flow_flags.syn,
{
}


// ── Filter records ───────────────────────────────────────────────────

/// A flow filter as a subscriber supplies it: every field is a list, an
/// empty list places no constraint.
#[derive(Debug, Default)]
pub struct FlowFilter {
    pub source_ip: Vec<String>,
    pub destination_ip: Vec<String>,
    pub source_pod: Vec<String>,
    pub destination_pod: Vec<String>,
    pub source_label: Vec<String>,
    pub destination_label: Vec<String>,
    pub verdict: Vec<Verdict>,
    pub traffic_direction: Vec<TrafficDirection>,
    pub protocol: Vec<String>,
    pub source_port: Vec<String>,
    pub destination_port: Vec<String>,
    pub tcp_flags: Vec<TcpFlags>,
    pub reply: Vec<bool>,
    pub ip_version: Vec<IpVersion>,
    pub node_name: Vec<String>,
    pub source_identity: Vec<u32>,
    pub destination_identity: Vec<u32>,
}

/// The mathematical value of a filter record.
pub ghost struct FlowFilterView {
    pub source_ip: Seq<Seq<char>>,
    pub destination_ip: Seq<Seq<char>>,
    pub source_pod: Seq<Seq<char>>,
    pub destination_pod: Seq<Seq<char>>,
    pub source_label: Seq<Seq<char>>,
    pub destination_label: Seq<Seq<char>>,
    pub verdict: Seq<Verdict>,
    pub traffic_direction: Seq<TrafficDirection>,
    pub protocol: Seq<Seq<char>>,
    pub source_port: Seq<Seq<char>>,
    pub destination_port: Seq<Seq<char>>,
    pub tcp_flags: Seq<TcpFlags>,
    pub reply: Seq<bool>,
    pub ip_version: Seq<IpVersion>,
    pub node_name: Seq<Seq<char>>,
    pub source_identity: Seq<u32>,
    pub destination_identity: Seq<u32>,
}

impl View for FlowFilter {
    type V = FlowFilterView;

    open spec fn view(&self) -> FlowFilterView {
        FlowFilterView {
            source_ip: self.source_ip.deep_view(),
            destination_ip: self.destination_ip.deep_view(),
            source_pod: self.source_pod.deep_view(),
            destination_pod: self.destination_pod.deep_view(),
            source_label: self.source_label.deep_view(),
            destination_label: self.destination_label.deep_view(),
            verdict: self.verdict@,
            traffic_direction: self.traffic_direction@,
            protocol: self.protocol.deep_view(),
            source_port: self.source_port.deep_view(),
            destination_port: self.destination_port.deep_view(),
            tcp_flags: self.tcp_flags@,
            reply: self.reply@,
            ip_version: self.ip_version@,
            node_name: self.node_name.deep_view(),
            source_identity: self.source_identity@,
            destination_identity: self.destination_identity@,
        }
    }
}

/// A compiled filter: the parsed form of one filter record.
#[derive(Debug)]
pub struct CompiledFilter {
    pub source_ip: Vec<IpMatcher>,
    pub destination_ip: Vec<IpMatcher>,
    pub source_pod: Vec<PodMatcher>,
    pub destination_pod: Vec<PodMatcher>,
    pub source_label: Vec<String>,
    pub destination_label: Vec<String>,
    pub verdict: Vec<Verdict>,
    pub traffic_direction: Vec<TrafficDirection>,
    pub protocol: Vec<String>,
    pub source_port: Vec<u32>,
    pub destination_port: Vec<u32>,
    pub tcp_flags: Vec<TcpFlags>,
    pub reply: Vec<bool>,
    pub ip_version: Vec<IpVersion>,
    pub node_name: Vec<NodeNameMatcher>,
    pub source_identity: Vec<u32>,
    pub destination_identity: Vec<u32>,
}

/// The mathematical value of a compiled filter.
pub ghost struct CompiledFilterView {
    pub source_ip: Seq<IpMatcher>,
    pub destination_ip: Seq<IpMatcher>,
    pub source_pod: Seq<PodMatcherView>,
    pub destination_pod: Seq<PodMatcherView>,
    pub source_label: Seq<Seq<char>>,
    pub destination_label: Seq<Seq<char>>,
    pub verdict: Seq<Verdict>,
    pub traffic_direction: Seq<TrafficDirection>,
    pub protocol: Seq<Seq<char>>,
    pub source_port: Seq<u32>,
    pub destination_port: Seq<u32>,
    pub tcp_flags: Seq<TcpFlags>,
    pub reply: Seq<bool>,
    pub ip_version: Seq<IpVersion>,
    pub node_name: Seq<Seq<char>>,
    pub source_identity: Seq<u32>,
    pub destination_identity: Seq<u32>,
}

impl View for CompiledFilter {
    type V = CompiledFilterView;

    open spec fn view(&self) -> CompiledFilterView {
        CompiledFilterView {
            source_ip: self.source_ip@,
            destination_ip: self.destination_ip@,
            source_pod: Seq::new(self.source_pod@.len(), |i: int| self.source_pod@[i]@),
            destination_pod: Seq::new(
                self.destination_pod@.len(),
                |i: int| self.destination_pod@[i]@,
            ),
            source_label: self.source_label.deep_view(),
            destination_label: self.destination_label.deep_view(),
            verdict: self.verdict@,
            traffic_direction: self.traffic_direction@,
            protocol: self.protocol.deep_view(),
            source_port: self.source_port@,
            destination_port: self.destination_port@,
            tcp_flags: self.tcp_flags@,
            reply: self.reply@,
            ip_version: self.ip_version@,
            node_name: Seq::new(self.node_name@.len(), |i: int| self.node_name@[i]@),
            source_identity: self.source_identity@,
            destination_identity: self.destination_identity@,
        }
    }
}

// ── Compilation of the list fields ───────────────────────────────────

/// Address patterns that parse, in order; unreadable ones are dropped.
pub open spec fn compile_ip_list(ss: Seq<Seq<char>>) -> Seq<IpMatcher>
    decreases ss.len(),
{
    if ss.len() == 0 {
        Seq::empty()
    } else {
        compile_ip_list(ss.drop_last()) + (match spec_parse_ip_matcher(ss.last()) {
            Some(m) => seq![m],
            None => Seq::empty(),
        })
    }
}

/// Ports that parse as decimal numbers, in order; unreadable ones are
/// dropped.
pub open spec fn compile_port_list(ss: Seq<Seq<char>>) -> Seq<u32>
    decreases ss.len(),
{
    if ss.len() == 0 {
        Seq::empty()
    } else {
        compile_port_list(ss.drop_last()) + (if ss.last().len() > 0 && all_digits(ss.last())
            && dec_val(ss.last()) <= u32::MAX {
            seq![dec_val(ss.last()) as u32]
        } else {
            Seq::empty()
        })
    }
}

/// The compiled form of one filter record.
pub open spec fn spec_compile(f: FlowFilterView) -> CompiledFilterView {
    CompiledFilterView {
        source_ip: compile_ip_list(f.source_ip),
        destination_ip: compile_ip_list(f.destination_ip),
        source_pod: Seq::new(f.source_pod.len(), |i: int| spec_parse_pod_matcher(f.source_pod[i])),
        destination_pod: Seq::new(
            f.destination_pod.len(),
            |i: int| spec_parse_pod_matcher(f.destination_pod[i]),
        ),
        source_label: f.source_label,
        destination_label: f.destination_label,
        verdict: f.verdict,
        traffic_direction: f.traffic_direction,
        protocol: Seq::new(f.protocol.len(), |i: int| ascii_lower(f.protocol[i])),
        source_port: compile_port_list(f.source_port),
        destination_port: compile_port_list(f.destination_port),
        tcp_flags: f.tcp_flags,
        reply: f.reply,
        ip_version: f.ip_version,
        node_name: f.node_name,
        source_identity: f.source_identity,
        destination_identity: f.destination_identity,
    }
}

fn compile_ips(ss: &Vec<String>) -> (r: Vec<IpMatcher>)
    ensures
        r@ == compile_ip_list(ss.deep_view()),
{
    let ghost all = ss.deep_view();
    let mut out: Vec<IpMatcher> = Vec::new();
    let mut i: usize = 0;
    proof {
        assert(all.take(0) =~= Seq::<Seq<char>>::empty());
    }
    while i < ss.len()
        invariant
            i <= ss@.len(),
            all == ss.deep_view(),
            all.len() == ss@.len(),
            out@ == compile_ip_list(all.take(i as int)),
        decreases ss@.len() - i,
    {
        proof {
            assert(all.take(i as int + 1).drop_last() =~= all.take(i as int));
            assert(all.take(i as int + 1).last() == all[i as int]);
            assert(all[i as int] == ss@[i as int]@);
        }
        match parse_ip_matcher(ss[i].as_str()) {
            Some(m) => {
                out.push(m);
                proof {
                    assert(out@ =~= compile_ip_list(all.take(i as int + 1)));
                }
            },
            None => {
                proof {
                    assert(out@ =~= compile_ip_list(all.take(i as int + 1)));
                }
            },
        }
        i = i + 1;
    }
    proof {
        assert(all.take(ss@.len() as int) =~= all);
    }
    out
}

fn compile_ports(ss: &Vec<String>) -> (r: Vec<u32>)
    ensures
        r@ == compile_port_list(ss.deep_view()),
{
    let ghost all = ss.deep_view();
    let mut out: Vec<u32> = Vec::new();
    let mut i: usize = 0;
    proof {
        assert(all.take(0) =~= Seq::<Seq<char>>::empty());
    }
    while i < ss.len()
        invariant
            i <= ss@.len(),
            all == ss.deep_view(),
            all.len() == ss@.len(),
            out@ == compile_port_list(all.take(i as int)),
        decreases ss@.len() - i,
    {
        proof {
            assert(all.take(i as int + 1).drop_last() =~= all.take(i as int));
            assert(all.take(i as int + 1).last() == all[i as int]);
            assert(all[i as int] == ss@[i as int]@);
        }
        match parse_u32(ss[i].as_str()) {
            Some(p) => {
                out.push(p);
                proof {
                    assert(out@ =~= compile_port_list(all.take(i as int + 1)));
                }
            },
            None => {
                proof {
                    assert(out@ =~= compile_port_list(all.take(i as int + 1)));
                }
            },
        }
        i = i + 1;
    }
    proof {
        assert(all.take(ss@.len() as int) =~= all);
    }
    out
}

fn compile_pods(ss: &Vec<String>) -> (r: Vec<PodMatcher>)
    ensures
        Seq::new(r@.len(), |i: int| r@[i]@) == Seq::new(
            ss.deep_view().len(),
            |i: int| spec_parse_pod_matcher(ss.deep_view()[i]),
        ),
{
    let mut out: Vec<PodMatcher> = Vec::new();
    let mut i: usize = 0;
    while i < ss.len()
        invariant
            i <= ss@.len(),
            out@.len() == i,
            forall|j: int|
                0 <= j < i ==> #[trigger] out@[j]@ == spec_parse_pod_matcher(ss@[j]@),
        decreases ss@.len() - i,
    {
        out.push(PodMatcher::parse(ss[i].as_str()));
        i = i + 1;
    }
    proof {
        assert(Seq::new(out@.len(), |i: int| out@[i]@) =~= Seq::new(
            ss.deep_view().len(),
            |i: int| spec_parse_pod_matcher(ss.deep_view()[i]),
        ));
    }
    out
}

fn compile_protocols(ss: &Vec<String>) -> (r: Vec<String>)
    ensures
        r.deep_view() == Seq::new(ss.deep_view().len(), |i: int| ascii_lower(ss.deep_view()[i])),
{
    let mut out: Vec<String> = Vec::new();
    let mut i: usize = 0;
    while i < ss.len()
        invariant
            i <= ss@.len(),
            out@.len() == i,
            forall|j: int| 0 <= j < i ==> #[trigger] out@[j]@ == ascii_lower(ss@[j]@),
        decreases ss@.len() - i,
    {
        out.push(to_ascii_lower(ss[i].as_str()));
        i = i + 1;
    }
    proof {
        assert(out.deep_view() =~= Seq::new(
            ss.deep_view().len(),
            |i: int| ascii_lower(ss.deep_view()[i]),
        ));
    }
    out
}

fn compile_node_names(ss: &Vec<String>) -> (r: Vec<NodeNameMatcher>)
    ensures
        Seq::new(r@.len(), |i: int| r@[i]@) == ss.deep_view(),
{
    let mut out: Vec<NodeNameMatcher> = Vec::new();
    let mut i: usize = 0;
    while i < ss.len()
        invariant
            i <= ss@.len(),
            out@.len() == i,
            forall|j: int| 0 <= j < i ==> #[trigger] out@[j]@ == ss@[j]@,
        decreases ss@.len() - i,
    {
        out.push(NodeNameMatcher::parse(ss[i].as_str()));
        i = i + 1;
    }
    proof {
        assert(Seq::new(out@.len(), |i: int| out@[i]@) =~= ss.deep_view());
    }
    out
}

fn copy_u32s(v: &Vec<u32>) -> (r: Vec<u32>)
    ensures
        r@ == v@,
{
    let mut out: Vec<u32> = Vec::new();
    let mut i: usize = 0;
    while i < v.len()
        invariant
            i <= v@.len(),
            out@ == v@.take(i as int),
        decreases v@.len() - i,
    {
        out.push(v[i]);
        proof {
            assert(out@ =~= v@.take(i as int + 1));
        }
        i = i + 1;
    }
    proof {
        assert(v@.take(v@.len() as int) =~= v@);
    }
    out
}

impl CompiledFilter {
    /// Compile one filter record.
    pub fn from_proto(f: &FlowFilter) -> (r: Self)
        ensures
            r@ == spec_compile(f@),
    {
        let r = CompiledFilter {
            source_ip: compile_ips(&f.source_ip),
            destination_ip: compile_ips(&f.destination_ip),
            source_pod: compile_pods(&f.source_pod),
            destination_pod: compile_pods(&f.destination_pod),
            source_label: crate::identity::clone_labels(&f.source_label),
            destination_label: crate::identity::clone_labels(&f.destination_label),
            verdict: {
                let mut v: Vec<Verdict> = Vec::new();
                let mut i: usize = 0;
                while i < f.verdict.len()
                    invariant
                        i <= f.verdict@.len(),
                        v@ == f.verdict@.take(i as int),
                    decreases f.verdict@.len() - i,
                {
                    v.push(f.verdict[i]);
                    proof {
                        assert(v@ =~= f.verdict@.take(i as int + 1));
                    }
                    i = i + 1;
                }
                proof {
                    assert(f.verdict@.take(f.verdict@.len() as int) =~= f.verdict@);
                }
                v
            },
            traffic_direction: {
                let mut v: Vec<TrafficDirection> = Vec::new();
                let mut i: usize = 0;
                while i < f.traffic_direction.len()
                    invariant
                        i <= f.traffic_direction@.len(),
                        v@ == f.traffic_direction@.take(i as int),
                    decreases f.traffic_direction@.len() - i,
                {
                    v.push(f.traffic_direction[i]);
                    proof {
                        assert(v@ =~= f.traffic_direction@.take(i as int + 1));
                    }
                    i = i + 1;
                }
                proof {
                    assert(f.traffic_direction@.take(f.traffic_direction@.len() as int)
                        =~= f.traffic_direction@);
                }
                v
            },
            protocol: compile_protocols(&f.protocol),
            source_port: compile_ports(&f.source_port),
            destination_port: compile_ports(&f.destination_port),
            tcp_flags: {
                let mut v: Vec<TcpFlags> = Vec::new();
                let mut i: usize = 0;
                while i < f.tcp_flags.len()
                    invariant
                        i <= f.tcp_flags@.len(),
                        v@ == f.tcp_flags@.take(i as int),
                    decreases f.tcp_flags@.len() - i,
                {
                    v.push(f.tcp_flags[i]);
                    proof {
                        assert(v@ =~= f.tcp_flags@.take(i as int + 1));
                    }
                    i = i + 1;
                }
                proof {
                    assert(f.tcp_flags@.take(f.tcp_flags@.len() as int) =~= f.tcp_flags@);
                }
                v
            },
            reply: {
                let mut v: Vec<bool> = Vec::new();
                let mut i: usize = 0;
                while i < f.reply.len()
                    invariant
                        i <= f.reply@.len(),
                        v@ == f.reply@.take(i as int),
                    decreases f.reply@.len() - i,
                {
                    v.push(f.reply[i]);
                    proof {
                        assert(v@ =~= f.reply@.take(i as int + 1));
                    }
                    i = i + 1;
                }
                proof {
                    assert(f.reply@.take(f.reply@.len() as int) =~= f.reply@);
                }
                v
            },
            ip_version: {
                let mut v: Vec<IpVersion> = Vec::new();
                let mut i: usize = 0;
                while i < f.ip_version.len()
                    invariant
                        i <= f.ip_version@.len(),
                        v@ == f.ip_version@.take(i as int),
                    decreases f.ip_version@.len() - i,
                {
                    v.push(f.ip_version[i]);
                    proof {
                        assert(v@ =~= f.ip_version@.take(i as int + 1));
                    }
                    i = i + 1;
                }
                proof {
                    assert(f.ip_version@.take(f.ip_version@.len() as int) =~= f.ip_version@);
                }
                v
            },
            node_name: compile_node_names(&f.node_name),
            source_identity: copy_u32s(&f.source_identity),
            destination_identity: copy_u32s(&f.destination_identity),
        };
        r
    }
}


// ── Match semantics ──────────────────────────────────────────────────

/// The source port of a flow, when its protocol carries ports.
pub open spec fn spec_source_port(l4: Option<Layer4>) -> Option<u32> {
    match l4 {
        Some(Layer4::Tcp { source_port, .. }) => Some(source_port),
        Some(Layer4::Udp { source_port, .. }) => Some(source_port),
        Some(Layer4::Sctp { source_port, .. }) => Some(source_port),
        _ => None,
    }
}

/// The destination port of a flow, when its protocol carries ports.
pub open spec fn spec_destination_port(l4: Option<Layer4>) -> Option<u32> {
    match l4 {
        Some(Layer4::Tcp { destination_port, .. }) => Some(destination_port),
        Some(Layer4::Udp { destination_port, .. }) => Some(destination_port),
        Some(Layer4::Sctp { destination_port, .. }) => Some(destination_port),
        _ => None,
    }
}

/// The lowercase protocol name of a layer-4 variant.
pub open spec fn spec_protocol_name(l4: Layer4) -> Seq<char> {
    match l4 {
        Layer4::Tcp { .. } => "tcp"@,
        Layer4::Udp { .. } => "udp"@,
        Layer4::Icmpv4 => "icmpv4"@,
        Layer4::Icmpv6 => "icmpv6"@,
        Layer4::Sctp { .. } => "sctp"@,
        Layer4::Vrrp => "vrrp"@,
        Layer4::Igmp => "igmp"@,
    }
}

/// The TCP flags of a flow, when present.
pub open spec fn spec_flow_tcp_flags(l4: Option<Layer4>) -> Option<TcpFlags> {
    match l4 {
        Some(Layer4::Tcp { flags, .. }) => flags,
        _ => None,
    }
}

/// A label list carries this exact label.
pub open spec fn has_label(labels: Seq<Seq<char>>, label: Seq<char>) -> bool {
    exists|j: int| 0 <= j < labels.len() && labels[j] == label
}

pub open spec fn m_source_ip(f: CompiledFilterView, w: FlowView) -> bool {
    f.source_ip.len() == 0 || (w.ip is Some && exists|i: int|
        0 <= i < f.source_ip.len() && matcher_matches(
            #[trigger] f.source_ip[i],
            w.ip->Some_0.source,
        ))
}

pub open spec fn m_destination_ip(f: CompiledFilterView, w: FlowView) -> bool {
    f.destination_ip.len() == 0 || (w.ip is Some && exists|i: int|
        0 <= i < f.destination_ip.len() && matcher_matches(
            #[trigger] f.destination_ip[i],
            w.ip->Some_0.destination,
        ))
}

pub open spec fn m_source_pod(f: CompiledFilterView, w: FlowView) -> bool {
    f.source_pod.len() == 0 || (w.source is Some && exists|i: int|
        0 <= i < f.source_pod.len() && pod_matches(
            #[trigger] f.source_pod[i],
            w.source->Some_0.namespace,
            w.source->Some_0.pod_name,
        ))
}

pub open spec fn m_destination_pod(f: CompiledFilterView, w: FlowView) -> bool {
    f.destination_pod.len() == 0 || (w.destination is Some && exists|i: int|
        0 <= i < f.destination_pod.len() && pod_matches(
            #[trigger] f.destination_pod[i],
            w.destination->Some_0.namespace,
            w.destination->Some_0.pod_name,
        ))
}

/// All listed labels must be present: the one field where elements combine
/// with AND.
pub open spec fn m_source_label(f: CompiledFilterView, w: FlowView) -> bool {
    f.source_label.len() == 0 || (w.source is Some && forall|i: int|
        0 <= i < f.source_label.len() ==> has_label(
            w.source->Some_0.labels,
            #[trigger] f.source_label[i],
        ))
}

pub open spec fn m_destination_label(f: CompiledFilterView, w: FlowView) -> bool {
    f.destination_label.len() == 0 || (w.destination is Some && forall|i: int|
        0 <= i < f.destination_label.len() ==> has_label(
            w.destination->Some_0.labels,
            #[trigger] f.destination_label[i],
        ))
}

pub open spec fn m_verdict(f: CompiledFilterView, w: FlowView) -> bool {
    f.verdict.len() == 0 || f.verdict.contains(w.verdict)
}

pub open spec fn m_traffic_direction(f: CompiledFilterView, w: FlowView) -> bool {
    f.traffic_direction.len() == 0 || f.traffic_direction.contains(w.traffic_direction)
}

pub open spec fn m_protocol(f: CompiledFilterView, w: FlowView) -> bool {
    f.protocol.len() == 0 || (w.l4 is Some && f.protocol.contains(
        spec_protocol_name(w.l4->Some_0),
    ))
}

pub open spec fn m_source_port(f: CompiledFilterView, w: FlowView) -> bool {
    f.source_port.len() == 0 || (spec_source_port(w.l4) is Some && f.source_port.contains(
        spec_source_port(w.l4)->Some_0,
    ))
}

pub open spec fn m_destination_port(f: CompiledFilterView, w: FlowView) -> bool {
    f.destination_port.len() == 0 || (spec_destination_port(w.l4) is Some
        && f.destination_port.contains(spec_destination_port(w.l4)->Some_0))
}

/// Any of the listed flag sets must be a subset of the flow's flags.
pub open spec fn m_tcp_flags(f: CompiledFilterView, w: FlowView) -> bool {
    f.tcp_flags.len() == 0 || (spec_flow_tcp_flags(w.l4) is Some && exists|i: int|
        0 <= i < f.tcp_flags.len() && spec_flags_subset(
            #[trigger] f.tcp_flags[i],
            spec_flow_tcp_flags(w.l4)->Some_0,
        ))
}

pub open spec fn m_reply(f: CompiledFilterView, w: FlowView) -> bool {
    f.reply.len() == 0 || (w.is_reply is Some && f.reply.contains(w.is_reply->Some_0))
}

pub open spec fn m_ip_version(f: CompiledFilterView, w: FlowView) -> bool {
    f.ip_version.len() == 0 || (w.ip is Some && f.ip_version.contains(
        spec_version_of(w.ip->Some_0.source),
    ))
}

pub open spec fn m_node_name(f: CompiledFilterView, w: FlowView) -> bool {
    f.node_name.len() == 0 || exists|i: int|
        0 <= i < f.node_name.len() && glob_matches(#[trigger] f.node_name[i], w.node_name)
}

pub open spec fn m_source_identity(f: CompiledFilterView, w: FlowView) -> bool {
    f.source_identity.len() == 0 || (w.source is Some && f.source_identity.contains(
        w.source->Some_0.identity,
    ))
}

pub open spec fn m_destination_identity(f: CompiledFilterView, w: FlowView) -> bool {
    f.destination_identity.len() == 0 || (w.destination is Some && f.destination_identity.contains(
        w.destination->Some_0.identity,
    ))
}

/// One compiled filter accepts a flow: every non-empty field must match,
/// and within a field any element may (except labels, which all must).
pub open spec fn filter_matches(f: CompiledFilterView, w: FlowView) -> bool {
    &&& m_source_ip(f, w)
    &&& m_destination_ip(f, w)
    &&& m_source_pod(f, w)
    &&& m_destination_pod(f, w)
    &&& m_source_label(f, w)
    &&& m_destination_label(f, w)
    &&& m_verdict(f, w)
    &&& m_traffic_direction(f, w)
    &&& m_protocol(f, w)
    &&& m_source_port(f, w)
    &&& m_destination_port(f, w)
    &&& m_tcp_flags(f, w)
    &&& m_reply(f, w)
    &&& m_ip_version(f, w)
    &&& m_node_name(f, w)
    &&& m_source_identity(f, w)
    &&& m_destination_identity(f, w)
}

impl CompiledFilter {
    fn match_source_ip(&self, flow: &Flow) -> (r: bool)
        ensures
            r == m_source_ip(self@, flow@),
    {
        if self.source_ip.len() == 0 {
            return true;
        }
        let ip = match &flow.ip {
            Some(ip) => ip.source,
            None => {
                return false;
            },
        };
        let mut i: usize = 0;
        while i < self.source_ip.len()
            invariant
                i <= self.source_ip@.len(),
                forall|j: int|
                    0 <= j < i ==> !matcher_matches(#[trigger] self.source_ip@[j], flow@.ip->Some_0.source),
                flow@.ip is Some,
                ip == flow@.ip->Some_0.source,
            decreases self.source_ip@.len() - i,
        {
            if ip_matches(&self.source_ip[i], ip) {
                return true;
            }
            i = i + 1;
        }
        false
    }

    fn match_destination_ip(&self, flow: &Flow) -> (r: bool)
        ensures
            r == m_destination_ip(self@, flow@),
    {
        if self.destination_ip.len() == 0 {
            return true;
        }
        let ip = match &flow.ip {
            Some(ip) => ip.destination,
            None => {
                return false;
            },
        };
        let mut i: usize = 0;
        while i < self.destination_ip.len()
            invariant
                i <= self.destination_ip@.len(),
                forall|j: int|
                    0 <= j < i ==> !matcher_matches(
                        #[trigger] self.destination_ip@[j],
                        flow@.ip->Some_0.destination,
                    ),
                flow@.ip is Some,
                ip == flow@.ip->Some_0.destination,
            decreases self.destination_ip@.len() - i,
        {
            if ip_matches(&self.destination_ip[i], ip) {
                return true;
            }
            i = i + 1;
        }
        false
    }

    fn match_source_pod(&self, flow: &Flow) -> (r: bool)
        ensures
            r == m_source_pod(self@, flow@),
    {
        if self.source_pod.len() == 0 {
            return true;
        }
        let ep = match &flow.source {
            Some(ep) => ep,
            None => {
                return false;
            },
        };
        let mut i: usize = 0;
        while i < self.source_pod.len()
            invariant
                i <= self.source_pod@.len(),
                forall|j: int|
                    0 <= j < i ==> !pod_matches(
                        #[trigger] self@.source_pod[j],
                        flow@.source->Some_0.namespace,
                        flow@.source->Some_0.pod_name,
                    ),
                flow@.source is Some,
                ep@ == flow@.source->Some_0,
            decreases self.source_pod@.len() - i,
        {
            proof {
                assert(self@.source_pod[i as int] == self.source_pod@[i as int]@);
            }
            if self.source_pod[i].matches(ep.namespace.as_str(), ep.pod_name.as_str()) {
                return true;
            }
            i = i + 1;
        }
        false
    }

    fn match_destination_pod(&self, flow: &Flow) -> (r: bool)
        ensures
            r == m_destination_pod(self@, flow@),
    {
        if self.destination_pod.len() == 0 {
            return true;
        }
        let ep = match &flow.destination {
            Some(ep) => ep,
            None => {
                return false;
            },
        };
        let mut i: usize = 0;
        while i < self.destination_pod.len()
            invariant
                i <= self.destination_pod@.len(),
                forall|j: int|
                    0 <= j < i ==> !pod_matches(
                        #[trigger] self@.destination_pod[j],
                        flow@.destination->Some_0.namespace,
                        flow@.destination->Some_0.pod_name,
                    ),
                flow@.destination is Some,
                ep@ == flow@.destination->Some_0,
            decreases self.destination_pod@.len() - i,
        {
            proof {
                assert(self@.destination_pod[i as int] == self.destination_pod@[i as int]@);
            }
            if self.destination_pod[i].matches(ep.namespace.as_str(), ep.pod_name.as_str()) {
                return true;
            }
            i = i + 1;
        }
        false
    }

    fn match_source_label(&self, flow: &Flow) -> (r: bool)
        ensures
            r == m_source_label(self@, flow@),
    {
        if self.source_label.len() == 0 {
            return true;
        }
        let ep = match &flow.source {
            Some(ep) => ep,
            None => {
                return false;
            },
        };
        let mut i: usize = 0;
        while i < self.source_label.len()
            invariant
                i <= self.source_label@.len(),
                forall|j: int|
                    0 <= j < i ==> has_label(
                        flow@.source->Some_0.labels,
                        #[trigger] self@.source_label[j],
                    ),
                flow@.source is Some,
                ep@ == flow@.source->Some_0,
            decreases self.source_label@.len() - i,
        {
            proof {
                assert(self@.source_label[i as int] == self.source_label@[i as int]@);
            }
            if !contains_label(&ep.labels, &self.source_label[i]) {
                return false;
            }
            i = i + 1;
        }
        true
    }

    fn match_destination_label(&self, flow: &Flow) -> (r: bool)
        ensures
            r == m_destination_label(self@, flow@),
    {
        if self.destination_label.len() == 0 {
            return true;
        }
        let ep = match &flow.destination {
            Some(ep) => ep,
            None => {
                return false;
            },
        };
        let mut i: usize = 0;
        while i < self.destination_label.len()
            invariant
                i <= self.destination_label@.len(),
                forall|j: int|
                    0 <= j < i ==> has_label(
                        flow@.destination->Some_0.labels,
                        #[trigger] self@.destination_label[j],
                    ),
                flow@.destination is Some,
                ep@ == flow@.destination->Some_0,
            decreases self.destination_label@.len() - i,
        {
            proof {
                assert(self@.destination_label[i as int] == self.destination_label@[i as int]@);
            }
            if !contains_label(&ep.labels, &self.destination_label[i]) {
                return false;
            }
            i = i + 1;
        }
        true
    }

    fn match_verdict(&self, flow: &Flow) -> (r: bool)
        ensures
            r == m_verdict(self@, flow@),
    {
        if self.verdict.len() == 0 {
            return true;
        }
        let mut i: usize = 0;
        while i < self.verdict.len()
            invariant
                i <= self.verdict@.len(),
                forall|j: int| 0 <= j < i ==> self.verdict@[j] != flow@.verdict,
            decreases self.verdict@.len() - i,
        {
            if self.verdict[i] == flow.verdict {
                return true;
            }
            i = i + 1;
        }
        false
    }

    fn match_traffic_direction(&self, flow: &Flow) -> (r: bool)
        ensures
            r == m_traffic_direction(self@, flow@),
    {
        if self.traffic_direction.len() == 0 {
            return true;
        }
        let mut i: usize = 0;
        while i < self.traffic_direction.len()
            invariant
                i <= self.traffic_direction@.len(),
                forall|j: int| 0 <= j < i ==> self.traffic_direction@[j] != flow@.traffic_direction,
            decreases self.traffic_direction@.len() - i,
        {
            if self.traffic_direction[i] == flow.traffic_direction {
                return true;
            }
            i = i + 1;
        }
        false
    }

    fn match_protocol(&self, flow: &Flow) -> (r: bool)
        ensures
            r == m_protocol(self@, flow@),
    {
        if self.protocol.len() == 0 {
            return true;
        }
        let l4 = match &flow.l4 {
            Some(l4) => l4,
            None => {
                return false;
            },
        };
        let name: &str = match l4 {
            Layer4::Tcp { .. } => "tcp",
            Layer4::Udp { .. } => "udp",
            Layer4::Icmpv4 => "icmpv4",
            Layer4::Icmpv6 => "icmpv6",
            Layer4::Sctp { .. } => "sctp",
            Layer4::Vrrp => "vrrp",
            Layer4::Igmp => "igmp",
        };
        proof {
            assert(name@ == spec_protocol_name(flow@.l4->Some_0));
        }
        let mut i: usize = 0;
        while i < self.protocol.len()
            invariant
                i <= self.protocol@.len(),
                name@ == spec_protocol_name(flow@.l4->Some_0),
                flow@.l4 is Some,
                forall|j: int| 0 <= j < i ==> self@.protocol[j] != name@,
            decreases self.protocol@.len() - i,
        {
            proof {
                assert(self@.protocol[i as int] == self.protocol@[i as int]@);
            }
            if str_eq(self.protocol[i].as_str(), name) {
                return true;
            }
            i = i + 1;
        }
        false
    }

    fn match_source_port(&self, flow: &Flow) -> (r: bool)
        ensures
            r == m_source_port(self@, flow@),
    {
        if self.source_port.len() == 0 {
            return true;
        }
        let port = match &flow.l4 {
            Some(Layer4::Tcp { source_port, .. }) => *source_port,
            Some(Layer4::Udp { source_port, .. }) => *source_port,
            Some(Layer4::Sctp { source_port, .. }) => *source_port,
            _ => {
                return false;
            },
        };
        contains_u32(&self.source_port, port)
    }

    fn match_destination_port(&self, flow: &Flow) -> (r: bool)
        ensures
            r == m_destination_port(self@, flow@),
    {
        if self.destination_port.len() == 0 {
            return true;
        }
        let port = match &flow.l4 {
            Some(Layer4::Tcp { destination_port, .. }) => *destination_port,
            Some(Layer4::Udp { destination_port, .. }) => *destination_port,
            Some(Layer4::Sctp { destination_port, .. }) => *destination_port,
            _ => {
                return false;
            },
        };
        contains_u32(&self.destination_port, port)
    }

    fn match_tcp_flags(&self, flow: &Flow) -> (r: bool)
        ensures
            r == m_tcp_flags(self@, flow@),
    {
        if self.tcp_flags.len() == 0 {
            return true;
        }
        let flow_flags = match &flow.l4 {
            Some(Layer4::Tcp { flags: Some(ff), .. }) => *ff,
            _ => {
                return false;
            },
        };
        let mut i: usize = 0;
        while i < self.tcp_flags.len()
            invariant
                i <= self.tcp_flags@.len(),
                spec_flow_tcp_flags(flow@.l4) == Some(flow_flags),
                forall|j: int|
                    0 <= j < i ==> !spec_flags_subset(#[trigger] self.tcp_flags@[j], flow_flags),
            decreases self.tcp_flags@.len() - i,
        {
            if tcp_flags_subset(&self.tcp_flags[i], &flow_flags) {
                return true;
            }
            i = i + 1;
        }
        false
    }

    fn match_reply(&self, flow: &Flow) -> (r: bool)
        ensures
            r == m_reply(self@, flow@),
    {
        if self.reply.len() == 0 {
            return true;
        }
        let is_reply = match flow.is_reply {
            Some(v) => v,
            None => {
                return false;
            },
        };
        let mut i: usize = 0;
        while i < self.reply.len()
            invariant
                i <= self.reply@.len(),
                flow@.is_reply == Some(is_reply),
                forall|j: int| 0 <= j < i ==> self.reply@[j] != is_reply,
            decreases self.reply@.len() - i,
        {
            if self.reply[i] == is_reply {
                return true;
            }
            i = i + 1;
        }
        false
    }

    fn match_ip_version(&self, flow: &Flow) -> (r: bool)
        ensures
            r == m_ip_version(self@, flow@),
    {
        if self.ip_version.len() == 0 {
            return true;
        }
        let ver = match &flow.ip {
            Some(ip) => version_of(ip.source),
            None => {
                return false;
            },
        };
        let mut i: usize = 0;
        while i < self.ip_version.len()
            invariant
                i <= self.ip_version@.len(),
                flow@.ip is Some,
                ver == spec_version_of(flow@.ip->Some_0.source),
                forall|j: int| 0 <= j < i ==> self.ip_version@[j] != ver,
            decreases self.ip_version@.len() - i,
        {
            if self.ip_version[i] == ver {
                return true;
            }
            i = i + 1;
        }
        false
    }

    fn match_node_name(&self, flow: &Flow) -> (r: bool)
        ensures
            r == m_node_name(self@, flow@),
    {
        if self.node_name.len() == 0 {
            return true;
        }
        let mut i: usize = 0;
        while i < self.node_name.len()
            invariant
                i <= self.node_name@.len(),
                forall|j: int|
                    0 <= j < i ==> !glob_matches(#[trigger] self@.node_name[j], flow@.node_name),
            decreases self.node_name@.len() - i,
        {
            proof {
                assert(self@.node_name[i as int] == self.node_name@[i as int]@);
            }
            if self.node_name[i].matches(flow.node_name.as_str()) {
                return true;
            }
            i = i + 1;
        }
        false
    }

    fn match_source_identity(&self, flow: &Flow) -> (r: bool)
        ensures
            r == m_source_identity(self@, flow@),
    {
        if self.source_identity.len() == 0 {
            return true;
        }
        let id = match &flow.source {
            Some(ep) => ep.identity,
            None => {
                return false;
            },
        };
        contains_u32(&self.source_identity, id)
    }

    fn match_destination_identity(&self, flow: &Flow) -> (r: bool)
        ensures
            r == m_destination_identity(self@, flow@),
    {
        if self.destination_identity.len() == 0 {
            return true;
        }
        let id = match &flow.destination {
            Some(ep) => ep.identity,
            None => {
                return false;
            },
        };
        contains_u32(&self.destination_identity, id)
    }

    /// One compiled filter accepts a flow.
    pub fn matches(&self, flow: &Flow) -> (r: bool)
        ensures
            r == filter_matches(self@, flow@),
    {
        self.match_source_ip(flow) && self.match_destination_ip(flow) && self.match_source_pod(
            flow,
        ) && self.match_destination_pod(flow) && self.match_source_label(flow)
            && self.match_destination_label(flow) && self.match_verdict(flow)
            && self.match_traffic_direction(flow) && self.match_protocol(flow)
            && self.match_source_port(flow) && self.match_destination_port(flow)
            && self.match_tcp_flags(flow) && self.match_reply(flow) && self.match_ip_version(flow)
            && self.match_node_name(flow) && self.match_source_identity(flow)
            && self.match_destination_identity(flow)
    }
}

/// A list holds this value.
fn contains_u32(v: &Vec<u32>, x: u32) -> (r: bool)
    ensures
        r == v@.contains(x),
{
    let mut i: usize = 0;
    while i < v.len()
        invariant
            i <= v@.len(),
            forall|j: int| 0 <= j < i ==> v@[j] != x,
        decreases v@.len() - i,
    {
        if v[i] == x {
            return true;
        }
        i = i + 1;
    }
    false
}

/// A label list holds this exact label.
fn contains_label(labels: &Vec<String>, label: &String) -> (r: bool)
    ensures
        r == has_label(labels.deep_view(), label@),
{
    let mut i: usize = 0;
    while i < labels.len()
        invariant
            i <= labels@.len(),
            forall|j: int| 0 <= j < i ==> #[trigger] labels.deep_view()[j] != label@,
        decreases labels@.len() - i,
    {
        proof {
            assert(labels.deep_view()[i as int] == labels@[i as int]@);
        }
        if string_eq(&labels[i], label) {
            return true;
        }
        i = i + 1;
    }
    false
}

// ── Whitelist and blacklist evaluation ───────────────────────────────

/// A compiled whitelist and blacklist.
pub struct FlowFilterSet {
    pub whitelist: Vec<CompiledFilter>,
    pub blacklist: Vec<CompiledFilter>,
}

/// The mathematical value of a filter set.
pub ghost struct FlowFilterSetView {
    pub whitelist: Seq<CompiledFilterView>,
    pub blacklist: Seq<CompiledFilterView>,
}

impl View for FlowFilterSet {
    type V = FlowFilterSetView;

    open spec fn view(&self) -> FlowFilterSetView {
        FlowFilterSetView {
            whitelist: Seq::new(self.whitelist@.len(), |i: int| self.whitelist@[i]@),
            blacklist: Seq::new(self.blacklist@.len(), |i: int| self.blacklist@[i]@),
        }
    }
}

/// Whether a filter set accepts a flow: an empty whitelist passes all flows,
/// any whitelist hit includes, any blacklist hit excludes.
pub open spec fn set_matches(s: FlowFilterSetView, w: FlowView) -> bool {
    (s.whitelist.len() == 0 || exists|i: int|
        0 <= i < s.whitelist.len() && filter_matches(#[trigger] s.whitelist[i], w)) && !(exists|i: int|
        0 <= i < s.blacklist.len() && filter_matches(#[trigger] s.blacklist[i], w))
}

fn compile_list(filters: &Vec<FlowFilter>) -> (r: Vec<CompiledFilter>)
    ensures
        Seq::new(r@.len(), |i: int| r@[i]@) == Seq::new(
            filters@.len(),
            |i: int| spec_compile(filters@[i]@),
        ),
{
    let mut out: Vec<CompiledFilter> = Vec::new();
    let mut i: usize = 0;
    while i < filters.len()
        invariant
            i <= filters@.len(),
            out@.len() == i,
            forall|j: int| 0 <= j < i ==> #[trigger] out@[j]@ == spec_compile(filters@[j]@),
        decreases filters@.len() - i,
    {
        out.push(CompiledFilter::from_proto(&filters[i]));
        i = i + 1;
    }
    proof {
        assert(Seq::new(out@.len(), |i: int| out@[i]@) =~= Seq::new(
            filters@.len(),
            |i: int| spec_compile(filters@[i]@),
        ));
    }
    out
}

impl FlowFilterSet {
    /// Compile whitelist and blacklist records into a filter set.
    pub fn compile(whitelist: &Vec<FlowFilter>, blacklist: &Vec<FlowFilter>) -> (r: Self)
        ensures
            r@.whitelist == Seq::new(whitelist@.len(), |i: int| spec_compile(whitelist@[i]@)),
            r@.blacklist == Seq::new(blacklist@.len(), |i: int| spec_compile(blacklist@[i]@)),
    {
        FlowFilterSet { whitelist: compile_list(whitelist), blacklist: compile_list(blacklist) }
    }

    /// No filters are configured at all.
    pub fn is_empty(&self) -> (r: bool)
        ensures
            r == (self@.whitelist.len() == 0 && self@.blacklist.len() == 0),
    {
        self.whitelist.len() == 0 && self.blacklist.len() == 0
    }

    /// Whether the set accepts a flow.
    pub fn matches(&self, flow: &Flow) -> (r: bool)
        ensures
            r == set_matches(self@, flow@),
    {
        let wl_ok = if self.whitelist.len() == 0 {
            true
        } else {
            let mut hit = false;
            let mut i: usize = 0;
            while i < self.whitelist.len()
                invariant
                    i <= self.whitelist@.len(),
                    hit == exists|j: int|
                        0 <= j < i && filter_matches(#[trigger] self@.whitelist[j], flow@),
                decreases self.whitelist@.len() - i,
            {
                proof {
                    assert(self@.whitelist[i as int] == self.whitelist@[i as int]@);
                }
                if self.whitelist[i].matches(flow) {
                    proof {
                        assert(filter_matches(self@.whitelist[i as int], flow@));
                    }
                    hit = true;
                }
                i = i + 1;
            }
            hit
        };
        if !wl_ok {
            return false;
        }
        let mut bl_hit = false;
        let mut i: usize = 0;
        while i < self.blacklist.len()
            invariant
                i <= self.blacklist@.len(),
                bl_hit == exists|j: int|
                    0 <= j < i && filter_matches(#[trigger] self@.blacklist[j], flow@),
            decreases self.blacklist@.len() - i,
        {
            proof {
                assert(self@.blacklist[i as int] == self.blacklist@[i as int]@);
            }
            if self.blacklist[i].matches(flow) {
                proof {
                    assert(filter_matches(self@.blacklist[i as int], flow@));
                }
                bl_hit = true;
            }
            i = i + 1;
        }
        !bl_hit
    }
}

// ── Laws of the filter set ───────────────────────────────────────────

/// An empty whitelist together with an empty blacklist passes every flow.
pub proof fn lemma_empty_filter_passes(s: FlowFilterSetView, w: FlowView)
    requires
        s.whitelist.len() == 0,
        s.blacklist.len() == 0,
    ensures
        set_matches(s, w),
{
}

/// A blacklist hit excludes a flow whatever the whitelist says.
pub proof fn lemma_blacklist_subtracts(s: FlowFilterSetView, w: FlowView, i: int)
    requires
        0 <= i < s.blacklist.len(),
        filter_matches(s.blacklist[i], w),
    ensures
        !set_matches(s, w),
{
}

/// With an empty whitelist the verdict is decided by the blacklist alone.
pub proof fn lemma_empty_whitelist_passes(s: FlowFilterSetView, w: FlowView)
    requires
        s.whitelist.len() == 0,
    ensures
        set_matches(s, w) == !(exists|i: int|
            0 <= i < s.blacklist.len() && filter_matches(#[trigger] s.blacklist[i], w)),
{
}

} // verus!
