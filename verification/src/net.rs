//! IP addresses as plain values: parsing of dotted-decimal IPv4 text,
//! hex-group IPv6 text, and verified CIDR containment.

use vstd::prelude::*;

verus! {

use crate::text::{all_digits, dec_val, split_spec, split_char, parse_u32, is_digit, find_char,
    substring};
use vstd::string::StrSliceExecFns;

/// An IP address, IPv4 as its 32-bit value, IPv6 as its 128-bit value.
#[derive(Clone, Copy, PartialEq, Eq, Structural, Debug, Hash)]
pub enum IpAddress {
    V4(u32),
    V6(u128),
}

impl IpAddress {
    pub open spec fn is_v4(self) -> bool {
        matches!(self, IpAddress::V4(_))
    }

    pub open spec fn is_v6(self) -> bool {
        matches!(self, IpAddress::V6(_))
    }
}

/// A valid dotted-quad octet: one to three digits, value at most 255, and no
/// leading zero.
pub open spec fn valid_octet(g: Seq<char>) -> bool {
    1 <= g.len() <= 3 && all_digits(g) && dec_val(g) <= 255 && (g.len() > 1 ==> g[0] != '0')
}

/// Deterministic reading of dotted-decimal IPv4 text.
pub open spec fn parse_ipv4_spec(s: Seq<char>) -> Option<u32> {
    let parts = split_spec(s, '.');
    if parts.len() == 4 && valid_octet(parts[0]) && valid_octet(parts[1]) && valid_octet(parts[2])
        && valid_octet(parts[3]) {
        Some(
            (dec_val(parts[0]) * 0x1000000 + dec_val(parts[1]) * 0x10000 + dec_val(parts[2]) * 0x100
                + dec_val(parts[3])) as u32,
        )
    } else {
        None
    }
}

/// Check one octet group of dotted-decimal text.
fn parse_octet(g: &str) -> (r: Option<u32>)
    ensures
        match r {
            Some(n) => valid_octet(g@) && n == dec_val(g@),
            None => !valid_octet(g@),
        },
{
    let glen = g.unicode_len();
    if glen < 1 || glen > 3 {
        return None;
    }
    if glen > 1 && g.get_char(0) == '0' {
        return None;
    }
    match parse_u32(g) {
        Some(n) => if n <= 255 {
            Some(n)
        } else {
            None
        },
        None => {
            proof {
                if all_digits(g@) {
                    crate::text::lemma_dec_val_small(g@);
                }
            }
            None
        },
    }
}

/// Parse dotted-decimal IPv4 text into its 32-bit value.
pub fn parse_ipv4(s: &str) -> (r: Option<u32>)
    ensures
        r == parse_ipv4_spec(s@),
{
    let parts = split_char(s, '.');
    if parts.len() != 4 {
        return None;
    }
    proof {
        assert(parts.deep_view()[0] == parts@[0]@);
        assert(parts.deep_view()[1] == parts@[1]@);
        assert(parts.deep_view()[2] == parts@[2]@);
        assert(parts.deep_view()[3] == parts@[3]@);
    }
    let a = match parse_octet(parts[0].as_str()) {
        Some(v) => v,
        None => return None,
    };
    let b = match parse_octet(parts[1].as_str()) {
        Some(v) => v,
        None => return None,
    };
    let c = match parse_octet(parts[2].as_str()) {
        Some(v) => v,
        None => return None,
    };
    let d = match parse_octet(parts[3].as_str()) {
        Some(v) => v,
        None => return None,
    };
    Some(a * 0x1000000 + b * 0x10000 + c * 0x100 + d)
}

/// A valid IPv6 hex group: one to four hex digits.
pub open spec fn is_hex_digit(c: char) -> bool {
    is_digit(c) || ('a' <= c && c <= 'f') || ('A' <= c && c <= 'F')
}

pub open spec fn hex_digit_val(c: char) -> nat {
    if is_digit(c) {
        (c as nat - '0' as nat) as nat
    } else if 'a' <= c && c <= 'f' {
        (c as nat - 'a' as nat + 10) as nat
    } else {
        (c as nat - 'A' as nat + 10) as nat
    }
}

pub open spec fn all_hex_digits(s: Seq<char>) -> bool {
    forall|i: int| 0 <= i < s.len() ==> is_hex_digit(#[trigger] s[i])
}

pub open spec fn hex_val(s: Seq<char>) -> nat
    decreases s.len(),
{
    if s.len() == 0 {
        0
    } else {
        hex_val(s.drop_last()) * 16 + hex_digit_val(s.last())
    }
}

pub open spec fn valid_hex_group(g: Seq<char>) -> bool {
    1 <= g.len() <= 4 && all_hex_digits(g)
}

/// Parse one IPv6 hex group.
fn parse_hex_group(g: &str) -> (r: Option<u16>)
    ensures
        match r {
            Some(n) => valid_hex_group(g@) && n == hex_val(g@),
            None => !valid_hex_group(g@),
        },
{
    let glen = g.unicode_len();
    if glen < 1 || glen > 4 {
        return None;
    }
    let mut acc: u32 = 0;
    let mut i: usize = 0;
    while i < glen
        invariant
            i <= glen,
            glen == g@.len(),
            glen <= 4,
            all_hex_digits(g@.take(i as int)),
            acc == hex_val(g@.take(i as int)),
            acc < 0x10000,
        decreases glen - i,
    {
        let c = g.get_char(i);
        let d: u32 = if c >= '0' && c <= '9' {
            c as u32 - '0' as u32
        } else if c >= 'a' && c <= 'f' {
            c as u32 - 'a' as u32 + 10
        } else if c >= 'A' && c <= 'F' {
            c as u32 - 'A' as u32 + 10
        } else {
            assert(!is_hex_digit(g@[i as int]));
            return None;
        };
        proof {
            assert(g@.take(i as int + 1).drop_last() =~= g@.take(i as int));
            assert(g@.take(i as int + 1).last() == g@[i as int]);
            assert(hex_val(g@.take(i as int)) < 0x1000) by {
                lemma_hex_val_bound(g@.take(i as int));
                assert(hex_bound(0) == 1);
                assert(hex_bound(1) == 16);
                assert(hex_bound(2) == 256);
                assert(hex_bound(3) == 0x1000);
            }
        }
        acc = acc * 16 + d;
        i = i + 1;
    }
    proof {
        assert(g@.take(glen as int) =~= g@);
    }
    Some(acc as u16)
}

/// Exclusive upper bound on the value of `n` hex digits.
spec fn hex_bound(n: nat) -> nat
    decreases n,
{
    if n == 0 {
        1
    } else {
        hex_bound((n - 1) as nat) * 16
    }
}

proof fn lemma_hex_val_bound(s: Seq<char>)
    requires
        all_hex_digits(s),
    ensures
        hex_val(s) < hex_bound(s.len()),
    decreases s.len(),
{
    if s.len() > 0 {
        assert(all_hex_digits(s.drop_last())) by {
            assert(forall|i: int| 0 <= i < s.len() - 1 ==> s.drop_last()[i] == s[i]);
        }
        lemma_hex_val_bound(s.drop_last());
        assert(is_hex_digit(s.last()));
        assert(hex_digit_val(s.last()) < 16);
        assert(hex_val(s.drop_last()) * 16 <= (hex_bound(s.drop_last().len()) - 1) * 16)
            by (nonlinear_arith)
            requires
                hex_val(s.drop_last()) < hex_bound(s.drop_last().len()),
        ;
    }
}

/// Value of a sequence of 16-bit groups, most significant first.
pub open spec fn groups_val(groups: Seq<u16>) -> nat
    decreases groups.len(),
{
    if groups.len() == 0 {
        0
    } else {
        (groups_val(groups.drop_last()) * 0x10000 + groups.last()) as nat
    }
}

/// Index of the first empty element, or the length when none is empty.
pub open spec fn first_empty(parts: Seq<Seq<char>>) -> int
    decreases parts.len(),
{
    if parts.len() == 0 {
        0
    } else if parts[0].len() == 0 {
        0
    } else {
        1 + first_empty(parts.drop_first())
    }
}

pub open spec fn all_groups_valid(parts: Seq<Seq<char>>) -> bool {
    forall|i: int| 0 <= i < parts.len() ==> valid_hex_group(#[trigger] parts[i])
}

/// Group values of a run of parts.
pub open spec fn vals_of(parts: Seq<Seq<char>>) -> Seq<u16> {
    Seq::new(parts.len(), |j: int| hex_val(parts[j]) as u16)
}

/// `head`, enough zero groups for the `::` gap, then `tail`.
pub open spec fn padded_groups(head: Seq<u16>, tail: Seq<u16>) -> Seq<u16>
    recommends
        head.len() + tail.len() <= 8,
{
    head + Seq::new((8 - head.len() - tail.len()) as nat, |j: int| 0u16) + tail
}

/// The eight 16-bit groups of an address written as `head`, a `::` gap, and
/// `tail`.
pub open spec fn padded_parts(head: Seq<Seq<char>>, tail: Seq<Seq<char>>) -> Seq<u16>
    recommends
        head.len() + tail.len() <= 8,
{
    padded_groups(vals_of(head), vals_of(tail))
}

/// The two 16-bit groups an embedded dotted-quad tail contributes.
pub open spec fn v4_groups(v: u32) -> Seq<u16> {
    seq![(v >> 16u32) as u16, (v & 0xFFFFu32) as u16]
}

/// The group values of a run of parts that may end in an embedded
/// dotted-quad: all hex groups, or hex groups with a final IPv4 address
/// standing for two groups.
pub open spec fn spec_tail_vals(parts: Seq<Seq<char>>) -> Option<Seq<u16>> {
    if parts.len() == 0 {
        Some(Seq::empty())
    } else if all_groups_valid(parts) {
        Some(vals_of(parts))
    } else if all_groups_valid(parts.drop_last()) && parse_ipv4_spec(parts.last()) is Some {
        Some(vals_of(parts.drop_last()) + v4_groups(parse_ipv4_spec(parts.last())->Some_0))
    } else {
        None
    }
}

/// Reading of the colon-split parts of IPv6 text: eight groups, or one
/// `::` compression at the start, middle, or end; the final group may be
/// an embedded dotted-quad IPv4 address standing for two groups.
pub open spec fn ipv6_from_parts(parts: Seq<Seq<char>>) -> Option<u128> {
    let n = parts.len() as int;
    let f = first_empty(parts);
    if f == n {
        match spec_tail_vals(parts) {
            Some(g) => if g.len() == 8 {
                Some(groups_val(g) as u128)
            } else {
                None
            },
            None => None,
        }
    } else if f == 0 {
        if n >= 3 && parts[1].len() == 0 {
            if n == 3 && parts[2].len() == 0 {
                Some(0)
            } else {
                match spec_tail_vals(parts.skip(2)) {
                    Some(g) => if g.len() <= 7 {
                        Some(groups_val(padded_groups(Seq::empty(), g)) as u128)
                    } else {
                        None
                    },
                    None => None,
                }
            }
        } else {
            None
        }
    } else if f == n - 2 && parts[n - 1].len() == 0 {
        let head = parts.take(f);
        if head.len() <= 7 && all_groups_valid(head) {
            Some(groups_val(padded_parts(head, Seq::empty())) as u128)
        } else {
            None
        }
    } else if 0 < f && f < n - 1 {
        let head = parts.take(f);
        match spec_tail_vals(parts.skip(f + 1)) {
            Some(g) => if all_groups_valid(head) && head.len() + g.len() <= 7 {
                Some(groups_val(padded_groups(vals_of(head), g)) as u128)
            } else {
                None
            },
            None => None,
        }
    } else {
        None
    }
}

/// Deterministic reading of IPv6 text.
pub open spec fn parse_ipv6_spec(s: Seq<char>) -> Option<u128> {
    ipv6_from_parts(split_spec(s, ':'))
}

/// Exclusive upper bound on the value of `n` 16-bit groups.
spec fn groups_bound(n: nat) -> nat
    decreases n,
{
    if n == 0 {
        1
    } else {
        groups_bound((n - 1) as nat) * 0x10000
    }
}

proof fn lemma_groups_val_bound(groups: Seq<u16>)
    ensures
        groups_val(groups) < groups_bound(groups.len()),
    decreases groups.len(),
{
    if groups.len() > 0 {
        lemma_groups_val_bound(groups.drop_last());
        assert(groups_val(groups) == (groups_val(groups.drop_last()) * 0x10000 + groups.last()) as nat);
        assert(groups_val(groups.drop_last()) * 0x10000 <= (groups_bound(groups.drop_last().len())
            - 1) * 0x10000) by (nonlinear_arith)
            requires
                groups_val(groups.drop_last()) < groups_bound(groups.drop_last().len()),
        ;
    }
}

proof fn lemma_groups_bound_8()
    ensures
        groups_bound(8) == 0x100000000000000000000000000000000,
        groups_bound(7) == 0x10000000000000000000000000000,
{
    assert(groups_bound(0) == 1);
    assert(groups_bound(1) == 0x10000);
    assert(groups_bound(2) == 0x100000000);
    assert(groups_bound(3) == 0x1000000000000);
    assert(groups_bound(4) == 0x10000000000000000);
    assert(groups_bound(5) == 0x100000000000000000000);
    assert(groups_bound(6) == 0x1000000000000000000000000);
    assert(groups_bound(7) == 0x10000000000000000000000000000);
    assert(groups_bound(8) == 0x100000000000000000000000000000000);
}

proof fn lemma_groups_bound_mono(m: nat, n: nat)
    requires
        m <= n,
    ensures
        groups_bound(m) <= groups_bound(n),
    decreases n,
{
    if m < n {
        lemma_groups_bound_mono(m, (n - 1) as nat);
        lemma_groups_bound_pos((n - 1) as nat);
        assert(groups_bound(n) == groups_bound((n - 1) as nat) * 0x10000);
        assert(groups_bound((n - 1) as nat) * 0x10000 >= groups_bound((n - 1) as nat))
            by (nonlinear_arith)
            requires
                groups_bound((n - 1) as nat) >= 1,
        ;
    }
}

proof fn lemma_groups_bound_pos(n: nat)
    ensures
        groups_bound(n) >= 1,
    decreases n,
{
    if n > 0 {
        lemma_groups_bound_pos((n - 1) as nat);
    }
}

/// Fold the eight groups of an IPv6 address into its value.
fn fold_groups(groups: &Vec<u16>) -> (r: u128)
    requires
        groups@.len() == 8,
    ensures
        r == groups_val(groups@),
{
    let mut acc: u128 = 0;
    let mut i: usize = 0;
    while i < 8
        invariant
            i <= 8,
            groups@.len() == 8,
            acc == groups_val(groups@.take(i as int)),
        decreases 8 - i,
    {
        proof {
            assert(groups@.take(i as int + 1).drop_last() =~= groups@.take(i as int));
            assert(groups@.take(i as int + 1).last() == groups@[i as int]);
            lemma_groups_val_bound(groups@.take(i as int));
            lemma_groups_val_bound(groups@.take(i as int + 1));
            lemma_groups_bound_8();
            lemma_groups_bound_mono(groups@.take(i as int + 1).len(), 8);
        }
        acc = acc * 0x10000 + groups[i] as u128;
        i = i + 1;
    }
    proof {
        assert(groups@.take(8) =~= groups@);
    }
    acc
}

/// Parse the valid hex groups of `parts[from..to]`.
fn parse_groups(parts: &Vec<String>, from: usize, to: usize) -> (r: Option<Vec<u16>>)
    requires
        from <= to <= parts@.len(),
    ensures
        match r {
            Some(v) => all_groups_valid(parts.deep_view().subrange(from as int, to as int))
                && v@ == vals_of(parts.deep_view().subrange(from as int, to as int)),
            None => !all_groups_valid(parts.deep_view().subrange(from as int, to as int)),
        },
{
    let ghost sub = parts.deep_view().subrange(from as int, to as int);
    let mut out: Vec<u16> = Vec::new();
    let mut i: usize = from;
    while i < to
        invariant
            from <= i <= to <= parts@.len(),
            sub == parts.deep_view().subrange(from as int, to as int),
            out@.len() == i - from,
            forall|j: int| 0 <= j < out@.len() ==> out@[j] == hex_val(sub[j]) as u16,
            forall|j: int| 0 <= j < i - from ==> valid_hex_group(#[trigger] sub[j]),
        decreases to - i,
    {
        proof {
            assert(parts.deep_view()[i as int] == parts@[i as int]@);
            assert(sub[i - from] == parts.deep_view()[i as int]);
        }
        match parse_hex_group(parts[i].as_str()) {
            Some(g) => {
                out.push(g);
            },
            None => {
                return None;
            },
        }
        i = i + 1;
    }
    proof {
        assert(out@ =~= vals_of(sub));
    }
    Some(out)
}

/// Parse the groups of `parts[from..to]`, allowing an embedded dotted-quad
/// as the final group.
fn parse_tail_groups(parts: &Vec<String>, from: usize, to: usize) -> (r: Option<Vec<u16>>)
    requires
        from <= to <= parts@.len(),
    ensures
        ({
            let sub = parts.deep_view().subrange(from as int, to as int);
            match r {
                Some(v) => spec_tail_vals(sub) == Some(v@),
                None => spec_tail_vals(sub) is None,
            }
        }),
{
    let ghost sub = parts.deep_view().subrange(from as int, to as int);
    match parse_groups(parts, from, to) {
        Some(v) => {
            proof {
                if sub.len() == 0 {
                    assert(v@ =~= Seq::<u16>::empty());
                }
            }
            Some(v)
        },
        None => {
            // Not all hex: the final part may be an embedded IPv4 address.
            proof {
                assert(sub.len() > 0);
                assert(from < to);
                assert(sub.drop_last() =~= parts.deep_view().subrange(from as int, to - 1));
                assert(sub.last() == parts.deep_view()[to - 1]);
                assert(parts.deep_view()[to - 1] == parts@[to - 1]@);
            }
            let hexpart = match parse_groups(parts, from, to - 1) {
                Some(v) => v,
                None => {
                    return None;
                },
            };
            let v4 = match parse_ipv4(parts[to - 1].as_str()) {
                Some(v) => v,
                None => {
                    return None;
                },
            };
            proof {
                assert(v4 >> 16u32 <= 0xFFFF) by (bit_vector);
                assert(v4 & 0xFFFFu32 <= 0xFFFF) by (bit_vector);
            }
            let mut v = hexpart;
            v.push((v4 >> 16) as u16);
            v.push((v4 & 0xFFFF) as u16);
            proof {
                assert(v@ =~= vals_of(sub.drop_last()) + v4_groups(v4));
            }
            Some(v)
        },
    }
}

/// Concatenate `hv`, enough zero groups, and `tv` into eight groups.
fn assemble_groups(hv: Vec<u16>, tv: Vec<u16>) -> (groups: Vec<u16>)
    requires
        hv@.len() + tv@.len() <= 8,
    ensures
        groups@ == padded_groups(hv@, tv@),
        groups@.len() == 8,
{
    let hlen = hv.len();
    let tlen = tv.len();
    let pad = 8 - hlen - tlen;
    let mut groups: Vec<u16> = hv;
    let mut i: usize = 0;
    while i < pad
        invariant
            i <= pad,
            pad == 8 - hlen - tlen,
            hlen + tlen <= 8,
            hlen == hv@.len(),
            groups@.len() == hlen + i,
            groups@.subrange(0, hlen as int) == hv@,
            forall|j: int| hlen <= j < hlen + i ==> #[trigger] groups@[j] == 0u16,
        decreases pad - i,
    {
        groups.push(0u16);
        proof {
            assert(groups@.subrange(0, hlen as int) =~= hv@);
        }
        i = i + 1;
    }
    let mut k: usize = 0;
    while k < tlen
        invariant
            k <= tlen,
            pad == 8 - hlen - tlen,
            hlen + tlen <= 8,
            hlen == hv@.len(),
            tlen == tv@.len(),
            groups@.len() == hlen + pad + k,
            groups@.subrange(0, hlen as int) == hv@,
            forall|j: int| hlen <= j < hlen + pad ==> #[trigger] groups@[j] == 0u16,
            forall|j: int| 0 <= j < k ==> #[trigger] groups@[hlen + pad + j] == tv@[j],
        decreases tlen - k,
    {
        groups.push(tv[k]);
        proof {
            assert(groups@.subrange(0, hlen as int) =~= hv@);
        }
        k = k + 1;
    }
    proof {
        let padded = padded_groups(hv@, tv@);
        assert(groups@.len() == padded.len());
        assert forall|j: int| 0 <= j < 8 implies groups@[j] == padded[j] by {
            if j < hlen {
                assert(groups@.subrange(0, hlen as int)[j] == groups@[j]);
            } else if j < hlen + pad {
            } else {
                assert(groups@[hlen + pad + (j - hlen - pad)] == tv@[j - hlen - pad]);
            }
        }
        assert(groups@ =~= padded);
    }
    groups
}

/// Parse IPv6 text into its 128-bit value.
pub fn parse_ipv6(s: &str) -> (r: Option<u128>)
    ensures
        r == parse_ipv6_spec(s@),
{
    let parts = split_char(s, ':');
    let n = parts.len();
    proof {
        assert(parts.deep_view().len() == n);
    }

    // Find the first empty part.
    let mut fe: usize = 0;
    loop
        invariant
            fe <= n,
            n == parts@.len(),
            parts.deep_view() == split_spec(s@, ':'),
            forall|j: int| 0 <= j < fe ==> (#[trigger] parts.deep_view()[j]).len() != 0,
        ensures
            fe <= n,
            fe == first_empty(parts.deep_view()),
        decreases n - fe,
    {
        if fe == n {
            proof {
                lemma_first_empty_at(parts.deep_view(), n as int);
            }
            break;
        }
        proof {
            assert(parts.deep_view()[fe as int] == parts@[fe as int]@);
        }
        if parts[fe].as_str().unicode_len() == 0 {
            proof {
                lemma_first_empty_at(parts.deep_view(), fe as int);
            }
            break;
        }
        fe = fe + 1;
    }

    if fe == n {
        // No compression: exactly eight groups, counting an embedded
        // dotted-quad tail as two.
        proof {
            assert(parts.deep_view().subrange(0, n as int) =~= parts.deep_view());
        }
        match parse_tail_groups(&parts, 0, n) {
            Some(v) => {
                if v.len() != 8 {
                    return None;
                }
                let r = fold_groups(&v);
                proof {
                    lemma_groups_val_bound(v@);
                    lemma_groups_bound_8();
                }
                Some(r)
            },
            None => None,
        }
    } else if fe == 0 {
        // Starts with `::`.
        if n < 3 {
            return None;
        }
        proof {
            assert(parts.deep_view()[1] == parts@[1]@);
            assert(parts.deep_view()[2] == parts@[2]@);
        }
        if parts[1].as_str().unicode_len() != 0 {
            return None;
        }
        if n == 3 && parts[2].as_str().unicode_len() == 0 {
            return Some(0);
        }
        let ghost tail = parts.deep_view().skip(2);
        proof {
            assert(tail =~= parts.deep_view().subrange(2, n as int));
        }
        match parse_tail_groups(&parts, 2, n) {
            Some(v) => {
                if v.len() > 7 {
                    return None;
                }
                let groups = assemble_groups(Vec::new(), v);
                let r = fold_groups(&groups);
                proof {
                    lemma_groups_val_bound(groups@);
                    lemma_groups_bound_8();
                }
                Some(r)
            },
            None => None,
        }
    } else if fe == n - 2 && parts[n - 1].as_str().unicode_len() == 0 {
        // Ends with `::`.
        proof {
            assert(parts.deep_view()[n - 1] == parts@[n - 1]@);
        }
        let ghost head = parts.deep_view().take(fe as int);
        proof {
            assert(head =~= parts.deep_view().subrange(0, fe as int));
        }
        if fe > 7 {
            return None;
        }
        match parse_groups(&parts, 0, fe) {
            Some(v) => {
                let groups = assemble_groups(v, Vec::new());
                let r = fold_groups(&groups);
                proof {
                    assert(vals_of(head) =~= vals_of(parts.deep_view().subrange(0, fe as int)));
                    assert(Seq::<u16>::empty() =~= vals_of(Seq::<Seq<char>>::empty()));
                    assert(padded_groups(vals_of(head), Seq::<u16>::empty()) =~= padded_parts(
                        head,
                        Seq::empty(),
                    ));
                    lemma_groups_val_bound(groups@);
                    lemma_groups_bound_8();
                }
                Some(r)
            },
            None => None,
        }
    } else if fe < n - 1 {
        // A single `::` in the middle.
        proof {
            assert(parts.deep_view()[n - 1] == parts@[n - 1]@);
        }
        let ghost head = parts.deep_view().take(fe as int);
        let ghost tail = parts.deep_view().skip(fe as int + 1);
        proof {
            assert(head =~= parts.deep_view().subrange(0, fe as int));
            assert(tail =~= parts.deep_view().subrange(fe as int + 1, n as int));
        }
        let tv = match parse_tail_groups(&parts, fe + 1, n) {
            Some(v) => v,
            None => {
                return None;
            },
        };
        let hv = match parse_groups(&parts, 0, fe) {
            Some(v) => v,
            None => {
                return None;
            },
        };
        if hv.len() + tv.len() > 7 {
            return None;
        }
        let groups = assemble_groups(hv, tv);
        let r = fold_groups(&groups);
        proof {
            lemma_groups_val_bound(groups@);
            lemma_groups_bound_8();
        }
        Some(r)
    } else {
        // A single trailing empty part: the text ended with one `:`.
        None
    }
}


proof fn lemma_first_empty_at(parts: Seq<Seq<char>>, i: int)
    requires
        0 <= i <= parts.len(),
        forall|j: int| 0 <= j < i ==> (#[trigger] parts[j]).len() != 0,
        i < parts.len() ==> parts[i].len() == 0,
    ensures
        first_empty(parts) == i,
    decreases i,
{
    if i == 0 {
        if parts.len() > 0 {
        }
    } else {
        assert(parts[0].len() != 0);
        lemma_first_empty_at(parts.drop_first(), i - 1);
        assert(forall|j: int|
            0 <= j < i - 1 ==> parts.drop_first()[j] == parts[j + 1]);
    }
}

/// Parse IP text of either family.
pub fn parse_ip(s: &str) -> (r: Option<IpAddress>)
    ensures
        match r {
            Some(IpAddress::V4(v)) => parse_ipv4_spec(s@) == Some(v),
            Some(IpAddress::V6(v)) => parse_ipv4_spec(s@) is None && parse_ipv6_spec(s@) == Some(
                v,
            ),
            None => parse_ipv4_spec(s@) is None && parse_ipv6_spec(s@) is None,
        },
{
    match parse_ipv4(s) {
        Some(v) => Some(IpAddress::V4(v)),
        None => match parse_ipv6(s) {
            Some(v) => Some(IpAddress::V6(v)),
            None => None,
        },
    }
}

/// CIDR containment: `addr` lies in the network `net`/`prefix`. Prefixes at
/// or beyond the address width compare the whole address; the two families
/// never contain one another.
pub open spec fn cidr_contains_spec(net: IpAddress, prefix: u8, addr: IpAddress) -> bool {
    match (net, addr) {
        (IpAddress::V4(n), IpAddress::V4(a)) => if prefix == 0 {
            true
        } else if prefix >= 32 {
            n == a
        } else {
            (n >> (32 - prefix) as u32) == (a >> (32 - prefix) as u32)
        },
        (IpAddress::V6(n), IpAddress::V6(a)) => if prefix == 0 {
            true
        } else if prefix >= 128 {
            n == a
        } else {
            (n >> (128 - prefix) as u128) == (a >> (128 - prefix) as u128)
        },
        _ => false,
    }
}

/// Decide CIDR containment.
pub fn cidr_contains(net: IpAddress, prefix: u8, addr: IpAddress) -> (r: bool)
    ensures
        r == cidr_contains_spec(net, prefix, addr),
{
    match (net, addr) {
        (IpAddress::V4(n), IpAddress::V4(a)) => if prefix == 0 {
            true
        } else if prefix >= 32 {
            n == a
        } else {
            let shift: u32 = 32 - prefix as u32;
            (n >> shift) == (a >> shift)
        },
        (IpAddress::V6(n), IpAddress::V6(a)) => if prefix == 0 {
            true
        } else if prefix >= 128 {
            n == a
        } else {
            let shift: u128 = 128 - prefix as u128;
            (n >> shift) == (a >> shift)
        },
        _ => false,
    }
}


/// IP protocol version.
#[derive(Clone, Copy, PartialEq, Eq, Structural, Debug)]
pub enum IpVersion {
    V4,
    V6,
}

/// The version of an address.
pub open spec fn spec_version_of(ip: IpAddress) -> IpVersion {
    match ip {
        IpAddress::V4(_) => IpVersion::V4,
        IpAddress::V6(_) => IpVersion::V6,
    }
}

/// Return the version of an address.
pub fn version_of(ip: IpAddress) -> (r: IpVersion)
    ensures
        r == spec_version_of(ip),
{
    match ip {
        IpAddress::V4(_) => IpVersion::V4,
        IpAddress::V6(_) => IpVersion::V6,
    }
}

// ── Address matchers ─────────────────────────────────────────────────

/// A compiled address pattern: an exact address or a CIDR block.
#[derive(Clone, Copy, PartialEq, Eq, Structural, Debug)]
pub enum IpMatcher {
    Exact(IpAddress),
    Cidr(IpAddress, u8),
}

/// Reading of IP text of either family.
pub open spec fn spec_parse_ip(s: Seq<char>) -> Option<IpAddress> {
    if parse_ipv4_spec(s) is Some {
        Some(IpAddress::V4(parse_ipv4_spec(s)->Some_0))
    } else if parse_ipv6_spec(s) is Some {
        Some(IpAddress::V6(parse_ipv6_spec(s)->Some_0))
    } else {
        None
    }
}

/// Reading of a CIDR prefix: decimal digits with a value of at most 255.
pub open spec fn spec_parse_prefix(s: Seq<char>) -> Option<u8> {
    if s.len() > 0 && all_digits(s) && dec_val(s) <= 255 {
        Some(dec_val(s) as u8)
    } else {
        None
    }
}

/// Reading of an address pattern: `addr/prefix` parses as a CIDR block,
/// anything else as an exact address; unreadable patterns are dropped.
pub open spec fn spec_parse_ip_matcher(s: Seq<char>) -> Option<IpMatcher> {
    if exists|i: int| 0 <= i < s.len() && s[i] == '/' {
        let i = crate::text::first_index_of(s, '/');
        let addr = spec_parse_ip(s.subrange(0, i));
        let prefix = spec_parse_prefix(s.subrange(i + 1, s.len() as int));
        if addr is Some && prefix is Some {
            Some(IpMatcher::Cidr(addr->Some_0, prefix->Some_0))
        } else {
            None
        }
    } else {
        match spec_parse_ip(s) {
            Some(a) => Some(IpMatcher::Exact(a)),
            None => None,
        }
    }
}

/// Parse an address pattern.
pub fn parse_ip_matcher(s: &str) -> (r: Option<IpMatcher>)
    ensures
        r == spec_parse_ip_matcher(s@),
{
    let slen = s.unicode_len();
    match find_char(s, '/') {
        Some(i) => {
            proof {
                crate::text::lemma_first_index_at(s@, '/', i as int);
            }
            let addr_text = substring(s, 0, i);
            let prefix_text = substring(s, i + 1, slen);
            let addr = match parse_ip(addr_text.as_str()) {
                Some(a) => a,
                None => {
                    return None;
                },
            };
            let prefix = match parse_u32(prefix_text.as_str()) {
                Some(p) => if p <= 255 {
                    p as u8
                } else {
                    return None;
                },
                None => {
                    return None;
                },
            };
            Some(IpMatcher::Cidr(addr, prefix))
        },
        None => {
            match parse_ip(s) {
                Some(a) => Some(IpMatcher::Exact(a)),
                None => None,
            }
        },
    }
}

/// An address pattern accepts an address.
pub open spec fn matcher_matches(m: IpMatcher, ip: IpAddress) -> bool {
    match m {
        IpMatcher::Exact(a) => ip == a,
        IpMatcher::Cidr(net, prefix) => cidr_contains_spec(net, prefix, ip),
    }
}

/// Decide whether an address pattern accepts an address.
pub fn ip_matches(m: &IpMatcher, ip: IpAddress) -> (r: bool)
    ensures
        r == matcher_matches(*m, ip),
{
    match m {
        IpMatcher::Exact(a) => ip == *a,
        IpMatcher::Cidr(net, prefix) => cidr_contains(*net, *prefix, ip),
    }
}


/// A `/24` block contains exactly the addresses sharing its upper three
/// octets: the block of `10.0.0.0/24` holds `10.0.0.x` for every `x` and
/// nothing outside it.
pub proof fn lemma_cidr_slash24(x: u32)
    ensures
        x <= 255 ==> cidr_contains_spec(
            IpAddress::V4(0x0A000000),
            24,
            IpAddress::V4((0x0A000000 + x) as u32),
        ),
        !cidr_contains_spec(IpAddress::V4(0x0A000000), 24, IpAddress::V4(0x0A000100)),
{
    assert(x <= 255 ==> ((0x0A000000u32 >> 8u32) == (((0x0A000000 + x) as u32) >> 8u32)))
        by (bit_vector);
    assert((0x0A000000u32 >> 8u32) != (0x0A000100u32 >> 8u32)) by (bit_vector);
}

} // verus!
