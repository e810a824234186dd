//! Parsing of the process self-inspection text: status fields in
//! kilobytes, memory-map region sizes, and the classified map summary
//! behind the memory debug endpoint.

use vstd::prelude::*;

verus! {

use crate::net::{hex_val, all_hex_digits, is_hex_digit};
use crate::text::{split_spec, split_char, all_digits, dec_val, parse_u64, first_index_of,
    lemma_first_index_at, find_char, substring, push_char, match_at, contains_str};
use vstd::string::StrSliceExecFns;

/// Whitespace characters normalized to plain spaces.
pub open spec fn spec_normalized(s: Seq<char>) -> Seq<char> {
    s.map_values(|c: char| if crate::text::is_space(c) {
        ' '
    } else {
        c
    })
}

/// The fields of one whitespace-separated line.
pub open spec fn spec_fields(s: Seq<char>) -> Seq<Seq<char>> {
    split_spec(spec_normalized(s), ' ').filter(|p: Seq<char>| p.len() > 0)
}

/// Normalize tabs and other whitespace to plain spaces.
fn normalize_spaces(s: &str) -> (r: String)
    ensures
        r@ == spec_normalized(s@),
{
    let slen = s.unicode_len();
    let mut out = String::new();
    let mut i: usize = 0;
    while i < slen
        invariant
            i <= slen,
            slen == s@.len(),
            out@ == spec_normalized(s@).take(i as int),
        decreases slen - i,
    {
        let c = s.get_char(i);
        let n = if c == ' ' || c == '\t' || c == '\r' || c == '\n' {
            ' '
        } else {
            c
        };
        crate::text::push_char(&mut out, n);
        proof {
            assert(out@ =~= spec_normalized(s@).take(i as int + 1));
        }
        i = i + 1;
    }
    proof {
        assert(spec_normalized(s@).take(slen as int) =~= spec_normalized(s@));
    }
    out
}

/// Split a line into its non-empty whitespace-separated fields.
pub fn fields_of(s: &str) -> (r: Vec<String>)
    ensures
        r.deep_view() == spec_fields(s@),
{
    let normalized = normalize_spaces(s);
    let parts = split_char(normalized.as_str(), ' ');
    let ghost all = parts.deep_view();
    let mut out: Vec<String> = Vec::new();
    let mut i: usize = 0;
    proof {
        reveal(Seq::filter);
        assert(all.take(0) =~= Seq::<Seq<char>>::empty());
    }
    while i < parts.len()
        invariant
            i <= parts@.len(),
            all == parts.deep_view(),
            all.len() == parts@.len(),
            out.deep_view() == all.take(i as int).filter(|p: Seq<char>| p.len() > 0),
        decreases parts@.len() - i,
    {
        proof {
            reveal(Seq::filter);
            assert(all.take(i as int + 1).drop_last() =~= all.take(i as int));
            assert(all.take(i as int + 1).last() == all[i as int]);
            assert(all[i as int] == parts@[i as int]@);
        }
        if parts[i].as_str().unicode_len() > 0 {
            let item = parts[i].clone();
            out.push(item);
            proof {
                assert(out.deep_view() =~= all.take(i as int + 1).filter(
                    |p: Seq<char>| p.len() > 0,
                ));
            }
        } else {
            proof {
                assert(out.deep_view() =~= all.take(i as int + 1).filter(
                    |p: Seq<char>| p.len() > 0,
                ));
            }
        }
        i = i + 1;
    }
    proof {
        assert(all.take(parts@.len() as int) =~= all);
    }
    out
}

/// The number in the second field of a status line such as
/// `VmRSS:    1234 kB`, or zero when it is absent or not a number.
pub open spec fn spec_kb_field(line: Seq<char>) -> u64 {
    let fs = spec_fields(line);
    if fs.len() >= 2 && fs[1].len() > 0 && all_digits(fs[1]) && dec_val(fs[1]) <= u64::MAX {
        dec_val(fs[1]) as u64
    } else {
        0
    }
}

/// Parse the kilobyte value of a status line.
pub fn parse_kb_field(line: &str) -> (r: u64)
    ensures
        r == spec_kb_field(line@),
{
    let fs = fields_of(line);
    if fs.len() < 2 {
        return 0;
    }
    proof {
        assert(fs.deep_view()[1] == fs@[1]@);
    }
    match parse_u64(fs[1].as_str()) {
        Some(v) => v,
        None => 0,
    }
}

/// The size in kilobytes of a memory-map line's `start-end` range, or zero
/// when the line does not open with a well-formed range.
pub open spec fn spec_map_region_kb(line: Seq<char>) -> u64 {
    let fs = spec_fields(line);
    if fs.len() >= 1 {
        let range = fs[0];
        let i = first_index_of(range, '-');
        if 0 < i < range.len() {
            let start = range.subrange(0, i);
            let end = range.subrange(i + 1, range.len() as int);
            if start.len() > 0 && all_hex_digits(start) && hex_val(start) <= u64::MAX && end.len()
                > 0 && all_hex_digits(end) && hex_val(end) <= u64::MAX && hex_val(end) >= hex_val(
                start,
            ) {
                (((hex_val(end) - hex_val(start)) / 1024) as u64)
            } else {
                0
            }
        } else {
            0
        }
    } else {
        0
    }
}

/// Parse a hexadecimal number, refusing overflow past `u64`.
fn parse_hex_u64(s: &str) -> (r: Option<u64>)
    ensures
        match r {
            Some(n) => s@.len() > 0 && all_hex_digits(s@) && n == hex_val(s@),
            None => s@.len() == 0 || !all_hex_digits(s@) || hex_val(s@) > u64::MAX,
        },
{
    let slen = s.unicode_len();
    if slen == 0 {
        return None;
    }
    let mut acc: u64 = 0;
    let mut i: usize = 0;
    while i < slen
        invariant
            i <= slen,
            slen == s@.len(),
            all_hex_digits(s@.take(i as int)),
            acc == hex_val(s@.take(i as int)),
        decreases slen - i,
    {
        let c = s.get_char(i);
        let d: u64 = if c >= '0' && c <= '9' {
            c as u64 - '0' as u64
        } else if c >= 'a' && c <= 'f' {
            c as u64 - 'a' as u64 + 10
        } else if c >= 'A' && c <= 'F' {
            c as u64 - 'A' as u64 + 10
        } else {
            assert(!is_hex_digit(s@[i as int]));
            return None;
        };
        proof {
            assert(s@.take(i as int + 1).drop_last() =~= s@.take(i as int));
            assert(s@.take(i as int + 1).last() == s@[i as int]);
        }
        if acc > (u64::MAX - d) / 16 {
            proof {
                assert(hex_val(s@.take(i as int + 1)) > u64::MAX);
                lemma_hex_val_monotonic(s@, i as int + 1);
            }
            return None;
        }
        acc = acc * 16 + d;
        i = i + 1;
    }
    proof {
        assert(s@.take(slen as int) =~= s@);
    }
    Some(acc)
}

proof fn lemma_hex_val_monotonic(s: Seq<char>, i: int)
    requires
        0 <= i <= s.len(),
    ensures
        hex_val(s.take(i)) <= hex_val(s),
    decreases s.len() - i,
{
    if i < s.len() {
        lemma_hex_val_monotonic(s, i + 1);
        assert(s.take(i + 1).drop_last() =~= s.take(i));
        assert(hex_val(s.take(i + 1)) == hex_val(s.take(i)) * 16 + crate::net::hex_digit_val(
            s.take(i + 1).last(),
        ));
    } else {
        assert(s.take(i) =~= s);
    }
}

/// Parse the size in kilobytes of one memory-map line.
pub fn parse_map_region_size(line: &str) -> (r: u64)
    ensures
        r == spec_map_region_kb(line@),
{
    let fs = fields_of(line);
    if fs.len() < 1 {
        return 0;
    }
    proof {
        assert(fs.deep_view()[0] == fs@[0]@);
    }
    let range = &fs[0];
    let rlen = range.as_str().unicode_len();
    match find_char(range.as_str(), '-') {
        Some(i) => {
            proof {
                lemma_first_index_at(range@, '-', i as int);
            }
            if i == 0 {
                return 0;
            }
            let start_text = substring(range.as_str(), 0, i);
            let end_text = substring(range.as_str(), i + 1, rlen);
            let start = match parse_hex_u64(start_text.as_str()) {
                Some(v) => v,
                None => {
                    return 0;
                },
            };
            let end = match parse_hex_u64(end_text.as_str()) {
                Some(v) => v,
                None => {
                    return 0;
                },
            };
            if end < start {
                return 0;
            }
            (end - start) / 1024
        },
        None => {
            proof {
                lemma_first_index_at(range@, '-', rlen as int);
            }
            0
        },
    }
}


// ── Memory-map summary ───────────────────────────────────────────────

/// Which bucket of the memory-map summary a region belongs to, decided by
/// the first matching marker in its line.
#[derive(Clone, Copy, PartialEq, Eq, Structural, Debug)]
pub enum MapRegionClass {
    PerfEvent,
    RingBuf,
    BpfMap,
    Heap,
    ThreadStack,
    Binary,
    SharedLib,
    Anonymous,
}

/// The bucket of one memory-map line: kernel event rings and maps first,
/// then the heap, thread stacks, the binary itself and shared libraries;
/// everything else counts as anonymous.
pub open spec fn spec_classify_map_line(l: Seq<char>, binary: Seq<char>) -> MapRegionClass {
    if exists|i: int| match_at(l, "perf_event"@, i) {
        MapRegionClass::PerfEvent
    } else if exists|i: int| match_at(l, "bpf-ringbuf"@, i) {
        MapRegionClass::RingBuf
    } else if exists|i: int| match_at(l, "bpf-map"@, i) {
        MapRegionClass::BpfMap
    } else if exists|i: int| match_at(l, "[heap]"@, i) {
        MapRegionClass::Heap
    } else if exists|i: int| match_at(l, "[stack"@, i) {
        MapRegionClass::ThreadStack
    } else if binary.len() > 0 && (exists|i: int| match_at(l, binary, i)) {
        MapRegionClass::Binary
    } else if exists|i: int| match_at(l, ".so"@, i) {
        MapRegionClass::SharedLib
    } else {
        MapRegionClass::Anonymous
    }
}

/// Classify one memory-map line, given the running binary's name.
pub fn classify_map_line(line: &str, binary: &str) -> (r: MapRegionClass)
    ensures
        r == spec_classify_map_line(line@, binary@),
{
    if contains_str(line, "perf_event") {
        MapRegionClass::PerfEvent
    } else if contains_str(line, "bpf-ringbuf") {
        MapRegionClass::RingBuf
    } else if contains_str(line, "bpf-map") {
        MapRegionClass::BpfMap
    } else if contains_str(line, "[heap]") {
        MapRegionClass::Heap
    } else if contains_str(line, "[stack") {
        MapRegionClass::ThreadStack
    } else if binary.unicode_len() > 0 && contains_str(line, binary) {
        MapRegionClass::Binary
    } else if contains_str(line, ".so") {
        MapRegionClass::SharedLib
    } else {
        MapRegionClass::Anonymous
    }
}

/// Classified totals over the memory-map lines.
#[derive(Clone, Copy, PartialEq, Eq, Structural, Debug)]
pub struct MapsSummary {
    pub total_regions: u64,
    pub perf_event_rings: u64,
    pub perf_event_kb: u64,
    pub ring_buf_regions: u64,
    pub ring_buf_kb: u64,
    pub bpf_map_regions: u64,
    pub bpf_map_kb: u64,
    pub heap_kb: u64,
    pub anonymous_kb: u64,
    pub binary_kb: u64,
    pub shared_libs_kb: u64,
    pub thread_stacks_kb: u64,
}

/// The all-zero summary.
pub open spec fn maps_summary_zero() -> MapsSummary {
    MapsSummary {
        total_regions: 0,
        perf_event_rings: 0,
        perf_event_kb: 0,
        ring_buf_regions: 0,
        ring_buf_kb: 0,
        bpf_map_regions: 0,
        bpf_map_kb: 0,
        heap_kb: 0,
        anonymous_kb: 0,
        binary_kb: 0,
        shared_libs_kb: 0,
        thread_stacks_kb: 0,
    }
}

/// The summary after one more line: the region count advances, and the
/// line's kilobytes land in the bucket its class names, saturating.
pub open spec fn spec_add_map_line(s: MapsSummary, l: Seq<char>, binary: Seq<char>) -> MapsSummary {
    let kb = spec_map_region_kb(l);
    let bumped = MapsSummary {
        total_regions: crate::conntrack::sat_add_u64(s.total_regions, 1),
        ..s
    };
    match spec_classify_map_line(l, binary) {
        MapRegionClass::PerfEvent => MapsSummary {
            perf_event_rings: crate::conntrack::sat_add_u64(bumped.perf_event_rings, 1),
            perf_event_kb: crate::conntrack::sat_add_u64(bumped.perf_event_kb, kb),
            ..bumped
        },
        MapRegionClass::RingBuf => MapsSummary {
            ring_buf_regions: crate::conntrack::sat_add_u64(bumped.ring_buf_regions, 1),
            ring_buf_kb: crate::conntrack::sat_add_u64(bumped.ring_buf_kb, kb),
            ..bumped
        },
        MapRegionClass::BpfMap => MapsSummary {
            bpf_map_regions: crate::conntrack::sat_add_u64(bumped.bpf_map_regions, 1),
            bpf_map_kb: crate::conntrack::sat_add_u64(bumped.bpf_map_kb, kb),
            ..bumped
        },
        MapRegionClass::Heap => MapsSummary {
            heap_kb: crate::conntrack::sat_add_u64(bumped.heap_kb, kb),
            ..bumped
        },
        MapRegionClass::ThreadStack => MapsSummary {
            thread_stacks_kb: crate::conntrack::sat_add_u64(bumped.thread_stacks_kb, kb),
            ..bumped
        },
        MapRegionClass::Binary => MapsSummary {
            binary_kb: crate::conntrack::sat_add_u64(bumped.binary_kb, kb),
            ..bumped
        },
        MapRegionClass::SharedLib => MapsSummary {
            shared_libs_kb: crate::conntrack::sat_add_u64(bumped.shared_libs_kb, kb),
            ..bumped
        },
        MapRegionClass::Anonymous => MapsSummary {
            anonymous_kb: crate::conntrack::sat_add_u64(bumped.anonymous_kb, kb),
            ..bumped
        },
    }
}

/// The summary over a run of lines; empty lines, such as the one after a
/// final newline, are no regions and are skipped.
pub open spec fn spec_maps_summary(lines: Seq<Seq<char>>, binary: Seq<char>) -> MapsSummary
    decreases lines.len(),
{
    if lines.len() == 0 {
        maps_summary_zero()
    } else if lines.last().len() == 0 {
        spec_maps_summary(lines.drop_last(), binary)
    } else {
        spec_add_map_line(spec_maps_summary(lines.drop_last(), binary), lines.last(), binary)
    }
}

impl MapsSummary {
    /// The all-zero summary.
    pub fn new() -> (r: Self)
        ensures
            r == maps_summary_zero(),
    {
        MapsSummary {
            total_regions: 0,
            perf_event_rings: 0,
            perf_event_kb: 0,
            ring_buf_regions: 0,
            ring_buf_kb: 0,
            bpf_map_regions: 0,
            bpf_map_kb: 0,
            heap_kb: 0,
            anonymous_kb: 0,
            binary_kb: 0,
            shared_libs_kb: 0,
            thread_stacks_kb: 0,
        }
    }

    /// Account one memory-map line.
    pub fn add_line(&mut self, line: &str, binary: &str)
        ensures
            *final(self) == spec_add_map_line(*old(self), line@, binary@),
    {
        let kb = parse_map_region_size(line);
        self.total_regions = crate::conntrack::sat_add64(self.total_regions, 1);
        match classify_map_line(line, binary) {
            MapRegionClass::PerfEvent => {
                self.perf_event_rings = crate::conntrack::sat_add64(self.perf_event_rings, 1);
                self.perf_event_kb = crate::conntrack::sat_add64(self.perf_event_kb, kb);
            },
            MapRegionClass::RingBuf => {
                self.ring_buf_regions = crate::conntrack::sat_add64(self.ring_buf_regions, 1);
                self.ring_buf_kb = crate::conntrack::sat_add64(self.ring_buf_kb, kb);
            },
            MapRegionClass::BpfMap => {
                self.bpf_map_regions = crate::conntrack::sat_add64(self.bpf_map_regions, 1);
                self.bpf_map_kb = crate::conntrack::sat_add64(self.bpf_map_kb, kb);
            },
            MapRegionClass::Heap => {
                self.heap_kb = crate::conntrack::sat_add64(self.heap_kb, kb);
            },
            MapRegionClass::ThreadStack => {
                self.thread_stacks_kb = crate::conntrack::sat_add64(self.thread_stacks_kb, kb);
            },
            MapRegionClass::Binary => {
                self.binary_kb = crate::conntrack::sat_add64(self.binary_kb, kb);
            },
            MapRegionClass::SharedLib => {
                self.shared_libs_kb = crate::conntrack::sat_add64(self.shared_libs_kb, kb);
            },
            MapRegionClass::Anonymous => {
                self.anonymous_kb = crate::conntrack::sat_add64(self.anonymous_kb, kb);
            },
        }
    }
}

/// Summarize whole memory-map text, line by line.
pub fn maps_summary(content: &str, binary: &str) -> (r: MapsSummary)
    ensures
        r == spec_maps_summary(split_spec(content@, '\n'), binary@),
{
    let lines = split_char(content, '\n');
    let ghost lv = lines.deep_view();
    let mut summary = MapsSummary::new();
    let mut i: usize = 0;
    let n = lines.len();
    proof {
        assert(lv.take(0) =~= Seq::<Seq<char>>::empty());
    }
    while i < n
        invariant
            i <= n,
            n == lines@.len(),
            lv == lines.deep_view(),
            lv == split_spec(content@, '\n'),
            summary == spec_maps_summary(lv.take(i as int), binary@),
        decreases n - i,
    {
        proof {
            assert(lv.take(i as int + 1).drop_last() =~= lv.take(i as int));
            assert(lv.take(i as int + 1).last() == lv[i as int]);
            assert(lv[i as int] == lines@[i as int]@);
        }
        if lines[i].as_str().unicode_len() > 0 {
            summary.add_line(lines[i].as_str(), binary);
        }
        i = i + 1;
    }
    proof {
        assert(lv.take(n as int) =~= lv);
    }
    summary
}

} // verus!
