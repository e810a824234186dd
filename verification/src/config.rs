//! The agent's configuration record, its validity rules, and the parse of
//! the drop-reason suppress file.

use vstd::prelude::*;

verus! {

use crate::text::{split_spec, split_char, trim, trim_spec, is_prefix_of, starts_with, substring};
use vstd::string::StrSliceExecFns;

/// The agent's configuration surface.
#[derive(Debug)]
pub struct AgentConfig {
    pub extra_interfaces: Vec<String>,
    pub pod_level: bool,
    pub hubble_port: u16,
    pub operator_addr: Option<String>,
    pub sampling_rate: u32,
    pub ring_buffer_size: u32,
    pub enable_dropreason: bool,
    pub dropreason_ring_buffer_size: u32,
    pub suppressed_drop_reasons: Vec<String>,
    pub log_level: String,
    pub metrics_port: u16,
}

/// A power of two.
pub open spec fn spec_power_of_two(n: u32) -> bool {
    n > 0 && (n & (n - 1) as u32) == 0
}

/// The ring buffer must be a power of two of at least 64 KiB.
pub open spec fn spec_valid_ring_size(n: u32) -> bool {
    spec_power_of_two(n) && n >= 65536
}

/// Decide whether a ring buffer size is acceptable.
pub fn valid_ring_size(n: u32) -> (r: bool)
    ensures
        r == spec_valid_ring_size(n),
{
    n >= 65536 && (n & (n - 1)) == 0
}

impl AgentConfig {
    /// The configuration's own consistency: both ring buffers must be
    /// powers of two of at least 64 KiB, and the sampling rate at least
    /// one.
    pub open spec fn spec_valid(&self) -> bool {
        spec_valid_ring_size(self.ring_buffer_size) && spec_valid_ring_size(
            self.dropreason_ring_buffer_size,
        ) && self.sampling_rate >= 1
    }

    /// Decide configuration validity.
    pub fn validate(&self) -> (r: bool)
        ensures
            r == self.spec_valid(),
    {
        valid_ring_size(self.ring_buffer_size) && valid_ring_size(self.dropreason_ring_buffer_size)
            && self.sampling_rate >= 1
    }
}

/// The scan of the suppress file's lines: after the line that opens the
/// `suppressedDropReasons:` list, every `- ` item is collected until a
/// line that belongs to neither the list nor its blank spacing.
pub open spec fn spec_suppress_scan(lines: Seq<Seq<char>>, in_list: bool) -> Seq<Seq<char>>
    decreases lines.len(),
{
    if lines.len() == 0 {
        Seq::empty()
    } else {
        let l = trim_spec(lines[0]);
        if !in_list {
            if is_prefix_of("suppressedDropReasons:"@, l) {
                spec_suppress_scan(lines.drop_first(), true)
            } else {
                spec_suppress_scan(lines.drop_first(), false)
            }
        } else {
            if l.len() == 0 {
                spec_suppress_scan(lines.drop_first(), true)
            } else if is_prefix_of("- "@, l) {
                seq![trim_spec(l.skip(2))] + spec_suppress_scan(lines.drop_first(), true)
            } else {
                spec_suppress_scan(lines.drop_first(), false)
            }
        }
    }
}

/// The suppressed drop reasons named by the file's text.
pub open spec fn spec_parse_suppress_config(content: Seq<char>) -> Seq<Seq<char>> {
    spec_suppress_scan(split_spec(content, '\n'), false)
}

/// Parse the suppress file: a missing or malformed list yields no
/// suppression.
pub fn parse_suppress_config(content: &str) -> (r: Vec<String>)
    ensures
        r.deep_view() == spec_parse_suppress_config(content@),
{
    let lines = split_char(content, '\n');
    let ghost lv = lines.deep_view();
    let n = lines.len();
    let mut out: Vec<String> = Vec::new();
    let mut in_list = false;
    let mut i: usize = 0;
    proof {
        assert(lv.skip(0) =~= lv);
    }
    while i < n
        invariant
            i <= n,
            n == lines@.len(),
            lv == lines.deep_view(),
            lv == split_spec(content@, '\n'),
            spec_parse_suppress_config(content@) == out.deep_view() + spec_suppress_scan(
                lv.skip(i as int),
                in_list,
            ),
        decreases n - i,
    {
        let ghost rest = lv.skip(i as int);
        let ghost out0 = out.deep_view();
        let ghost in0 = in_list;
        proof {
            assert(rest.len() > 0);
            assert(rest[0] == lv[i as int]);
            assert(lv[i as int] == lines@[i as int]@);
            assert(rest.drop_first() =~= lv.skip(i as int + 1));
        }
        let trimmed = trim(lines[i].as_str());
        let tlen = trimmed.as_str().unicode_len();
        if !in_list {
            if starts_with(trimmed.as_str(), "suppressedDropReasons:") {
                in_list = true;
            }
        } else {
            if tlen == 0 {
            } else if starts_with(trimmed.as_str(), "- ") {
                proof {
                    reveal_strlit("- ");
                    assert(trimmed@.subrange(2, tlen as int) =~= trimmed@.skip(2));
                }
                let item_text = substring(trimmed.as_str(), 2, tlen);
                let item = trim(item_text.as_str());
                out.push(item);
            } else {
                in_list = false;
            }
        }
        proof {
            assert(out0 + spec_suppress_scan(rest, in0) =~= out.deep_view() + spec_suppress_scan(
                lv.skip(i as int + 1),
                in_list,
            ));
        }
        i = i + 1;
    }
    proof {
        assert(lv.skip(n as int).len() == 0);
        assert(spec_suppress_scan(lv.skip(n as int), in_list) =~= Seq::<Seq<char>>::empty());
        assert(out.deep_view() + Seq::<Seq<char>>::empty() =~= out.deep_view());
    }
    out
}

} // verus!
