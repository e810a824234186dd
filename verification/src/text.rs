//! Verified text utilities: equality, lexicographic order, prefix/suffix and
//! substring tests, splitting, and decimal parsing over `&str` values.

use vstd::prelude::*;

verus! {

use vstd::string::StrSliceExecFns;
use vstd::string::StringExecFns;

/// Relies on `String::push`: appends exactly the given character.
#[verifier::external_body]
pub fn push_char(s: &mut String, c: char)
    ensures
        final(s)@ == old(s)@.push(c),
{
    s.push(c);
}

/// Lexicographic "less than or equal" on character sequences, comparing
/// code points.
pub open spec fn lex_le(a: Seq<char>, b: Seq<char>) -> bool
    decreases a.len(),
{
    if a.len() == 0 {
        true
    } else if b.len() == 0 {
        false
    } else if a[0] != b[0] {
        a[0] < b[0]
    } else {
        lex_le(a.drop_first(), b.drop_first())
    }
}

/// `p` occurs in `s` starting at position `i`.
pub open spec fn match_at(s: Seq<char>, p: Seq<char>, i: int) -> bool {
    0 <= i && i + p.len() <= s.len() && s.subrange(i, i + p.len()) == p
}

/// `p` is a prefix of `s`.
pub open spec fn is_prefix_of(p: Seq<char>, s: Seq<char>) -> bool {
    p.len() <= s.len() && s.subrange(0, p.len() as int) == p
}

/// `p` is a suffix of `s`.
pub open spec fn is_suffix_of(p: Seq<char>, s: Seq<char>) -> bool {
    p.len() <= s.len() && s.subrange(s.len() - p.len(), s.len() as int) == p
}

/// Character-wise string equality.
pub fn str_eq(a: &str, b: &str) -> (r: bool)
    ensures
        r == (a@ == b@),
{
    let alen = a.unicode_len();
    let blen = b.unicode_len();
    if alen != blen {
        assert(a@ != b@) by {
            assert(a@.len() != b@.len());
        }
        return false;
    }
    let mut i: usize = 0;
    while i < alen
        invariant
            i <= alen,
            alen == a@.len(),
            alen == b@.len(),
            forall|j: int| 0 <= j < i ==> a@[j] == b@[j],
        decreases alen - i,
    {
        if a.get_char(i) != b.get_char(i) {
            return false;
        }
        i = i + 1;
    }
    proof {
        assert(a@ =~= b@);
    }
    true
}

/// Equality between two owned strings.
pub fn string_eq(a: &String, b: &String) -> (r: bool)
    ensures
        r == (a@ == b@),
{
    str_eq(a.as_str(), b.as_str())
}

proof fn lemma_lex_le_skip(a: Seq<char>, b: Seq<char>, i: int)
    requires
        0 <= i <= a.len(),
        i <= b.len(),
        forall|j: int| 0 <= j < i ==> a[j] == b[j],
    ensures
        lex_le(a, b) == lex_le(a.skip(i), b.skip(i)),
    decreases i,
{
    if i > 0 {
        assert(a.len() > 0 && b.len() > 0);
        assert(a[0] == b[0]);
        assert(a.drop_first() =~= a.skip(1));
        assert(b.drop_first() =~= b.skip(1));
        lemma_lex_le_skip(a.skip(1), b.skip(1), i - 1);
        assert(a.skip(1).skip(i - 1) =~= a.skip(i));
        assert(b.skip(1).skip(i - 1) =~= b.skip(i));
    } else {
        assert(a.skip(0) =~= a);
        assert(b.skip(0) =~= b);
    }
}

/// Lexicographic comparison of two strings.
pub fn str_le(a: &str, b: &str) -> (r: bool)
    ensures
        r == lex_le(a@, b@),
{
    let alen = a.unicode_len();
    let blen = b.unicode_len();
    let min: usize = if alen < blen { alen } else { blen };
    let mut i: usize = 0;
    while i < min
        invariant
            i <= min,
            alen == a@.len(),
            blen == b@.len(),
            min == if alen < blen { alen } else { blen },
            forall|j: int| 0 <= j < i ==> a@[j] == b@[j],
        decreases min - i,
    {
        let ca = a.get_char(i);
        let cb = b.get_char(i);
        if ca != cb {
            proof {
                lemma_lex_le_skip(a@, b@, i as int);
                assert(a@.skip(i as int)[0] == a@[i as int]);
                assert(b@.skip(i as int)[0] == b@[i as int]);
            }
            return ca < cb;
        }
        i = i + 1;
    }
    proof {
        lemma_lex_le_skip(a@, b@, min as int);
        if alen <= blen {
            assert(a@.skip(min as int).len() == 0);
        } else {
            assert(a@.skip(min as int).len() > 0);
            assert(b@.skip(min as int).len() == 0);
        }
    }
    alen <= blen
}

/// `lex_le` is total: proved so that sorting by it behaves like a sort.
pub proof fn lemma_lex_le_total()
    ensures
        vstd::relations::total_ordering(|x: Seq<char>, y: Seq<char>| lex_le(x, y)),
{
    let leq = |x: Seq<char>, y: Seq<char>| lex_le(x, y);
    assert forall|x: Seq<char>| #[trigger] leq(x, x) by {
        lemma_lex_le_refl(x);
    }
    assert forall|x: Seq<char>, y: Seq<char>| #[trigger] leq(x, y) && #[trigger] leq(y, x) implies x == y by {
        lemma_lex_le_antisym(x, y);
    }
    assert forall|x: Seq<char>, y: Seq<char>, z: Seq<char>|
        #[trigger] leq(x, y) && #[trigger] leq(y, z) implies leq(x, z) by {
        lemma_lex_le_trans(x, y, z);
    }
    assert forall|x: Seq<char>, y: Seq<char>| #[trigger] leq(x, y) || #[trigger] leq(y, x) by {
        lemma_lex_le_connected(x, y);
    }
}

pub proof fn lemma_lex_le_refl(x: Seq<char>)
    ensures
        lex_le(x, x),
    decreases x.len(),
{
    if x.len() > 0 {
        lemma_lex_le_refl(x.drop_first());
    }
}

pub proof fn lemma_lex_le_antisym(x: Seq<char>, y: Seq<char>)
    requires
        lex_le(x, y),
        lex_le(y, x),
    ensures
        x == y,
    decreases x.len(),
{
    if x.len() == 0 {
        assert(y.len() == 0);
        assert(x =~= y);
    } else {
        assert(y.len() > 0);
        assert(x[0] == y[0]);
        lemma_lex_le_antisym(x.drop_first(), y.drop_first());
        assert(x =~= seq![x[0]] + x.drop_first());
        assert(y =~= seq![y[0]] + y.drop_first());
    }
}

pub proof fn lemma_lex_le_trans(x: Seq<char>, y: Seq<char>, z: Seq<char>)
    requires
        lex_le(x, y),
        lex_le(y, z),
    ensures
        lex_le(x, z),
    decreases x.len(),
{
    if x.len() > 0 && y.len() > 0 && z.len() > 0 {
        if x[0] == y[0] && y[0] == z[0] {
            lemma_lex_le_trans(x.drop_first(), y.drop_first(), z.drop_first());
        }
    }
}

pub proof fn lemma_lex_le_connected(x: Seq<char>, y: Seq<char>)
    ensures
        lex_le(x, y) || lex_le(y, x),
    decreases x.len(),
{
    if x.len() == 0 {
        assert(lex_le(x, y));
    } else if y.len() == 0 {
        assert(lex_le(y, x));
    } else if x[0] == y[0] {
        lemma_lex_le_connected(x.drop_first(), y.drop_first());
    }
}

/// `p@` occurs in `s@` at position `i`.
pub fn matches_at(s: &str, p: &str, i: usize) -> (r: bool)
    requires
        i <= s@.len(),
    ensures
        r == match_at(s@, p@, i as int),
{
    let slen = s.unicode_len();
    let plen = p.unicode_len();
    if plen > slen - i {
        return false;
    }
    let mut j: usize = 0;
    while j < plen
        invariant
            j <= plen,
            plen == p@.len(),
            slen == s@.len(),
            i + plen <= slen,
            forall|k: int| 0 <= k < j ==> s@[i + k] == p@[k],
        decreases plen - j,
    {
        if s.get_char(i + j) != p.get_char(j) {
            assert(s@.subrange(i as int, i + p@.len()) != p@) by {
                assert(s@.subrange(i as int, i + p@.len())[j as int] == s@[i + j]);
            }
            return false;
        }
        j = j + 1;
    }
    proof {
        assert(s@.subrange(i as int, i + p@.len()) =~= p@);
    }
    true
}

/// `p@` is a prefix of `s@`.
pub fn starts_with(s: &str, p: &str) -> (r: bool)
    ensures
        r == is_prefix_of(p@, s@),
{
    let r = matches_at(s, p, 0);
    proof {
        if p@.len() <= s@.len() {
            assert(match_at(s@, p@, 0) == is_prefix_of(p@, s@));
        }
    }
    r
}

/// `p@` is a suffix of `s@`.
pub fn ends_with(s: &str, p: &str) -> (r: bool)
    ensures
        r == is_suffix_of(p@, s@),
{
    let slen = s.unicode_len();
    let plen = p.unicode_len();
    if plen > slen {
        return false;
    }
    let r = matches_at(s, p, slen - plen);
    proof {
        assert(match_at(s@, p@, s@.len() - p@.len()) == is_suffix_of(p@, s@));
    }
    r
}

/// First position at or after `from` where `p@` occurs in `s@`.
pub fn find_from(s: &str, p: &str, from: usize) -> (r: Option<usize>)
    requires
        from <= s@.len(),
    ensures
        match r {
            Some(i) => from <= i && match_at(s@, p@, i as int) && forall|j: int|
                from <= j < i ==> !match_at(s@, p@, j),
            None => forall|j: int| from <= j ==> !match_at(s@, p@, j),
        },
{
    let slen = s.unicode_len();
    let plen = p.unicode_len();
    if plen == 0 {
        proof {
            assert(s@.subrange(from as int, from as int) =~= p@);
        }
        return Some(from);
    }
    if plen > slen || from > slen - plen {
        return None;
    }
    let mut i: usize = from;
    while i <= slen - plen
        invariant
            from <= i,
            slen == s@.len(),
            plen == p@.len(),
            1 <= plen <= slen,
            i <= slen - plen + 1,
            forall|j: int| from <= j < i ==> !match_at(s@, p@, j),
        decreases slen - i,
    {
        if matches_at(s, p, i) {
            return Some(i);
        }
        i = i + 1;
    }
    None
}

/// `p@` occurs somewhere in `s@`.
pub fn contains_str(s: &str, p: &str) -> (r: bool)
    ensures
        r == exists|i: int| match_at(s@, p@, i),
{
    let r = find_from(s, p, 0);
    match r {
        Some(i) => {
            assert(match_at(s@, p@, i as int));
            true
        },
        None => {
            assert(forall|i: int| !match_at(s@, p@, i)) by {
                assert(forall|i: int| match_at(s@, p@, i) ==> i >= 0);
            }
            false
        },
    }
}

/// First position of character `c` in `s@`, if any.
pub fn find_char(s: &str, c: char) -> (r: Option<usize>)
    ensures
        match r {
            Some(i) => i < s@.len() && s@[i as int] == c && forall|j: int|
                0 <= j < i ==> s@[j] != c,
            None => forall|j: int| 0 <= j < s@.len() ==> s@[j] != c,
        },
{
    let slen = s.unicode_len();
    let mut i: usize = 0;
    while i < slen
        invariant
            i <= slen,
            slen == s@.len(),
            forall|j: int| 0 <= j < i ==> s@[j] != c,
        decreases slen - i,
    {
        if s.get_char(i) == c {
            return Some(i);
        }
        i = i + 1;
    }
    None
}

/// Splitting a character sequence on a separator, cons-style: the result is
/// never empty, and joining it back with the separator yields the input.
pub open spec fn split_spec(s: Seq<char>, sep: char) -> Seq<Seq<char>>
    decreases s.len(),
{
    if s.len() == 0 {
        seq![Seq::<char>::empty()]
    } else if s[0] == sep {
        seq![Seq::<char>::empty()] + split_spec(s.drop_first(), sep)
    } else {
        let rest = split_spec(s.drop_first(), sep);
        seq![seq![s[0]] + rest[0]] + rest.drop_first()
    }
}

pub proof fn lemma_split_spec_len(s: Seq<char>, sep: char)
    ensures
        split_spec(s, sep).len() >= 1,
    decreases s.len(),
{
    if s.len() > 0 {
        lemma_split_spec_len(s.drop_first(), sep);
    }
}

/// `parts` with `pre` prepended onto its first element.
spec fn prepend_first(pre: Seq<char>, parts: Seq<Seq<char>>) -> Seq<Seq<char>>
    recommends
        parts.len() >= 1,
{
    seq![pre + parts[0]] + parts.drop_first()
}

/// Split `s` on the character `sep`.
pub fn split_char(s: &str, sep: char) -> (r: Vec<String>)
    ensures
        r.deep_view() == split_spec(s@, sep),
        r.len() >= 1,
{
    let slen = s.unicode_len();
    let mut done: Vec<String> = Vec::new();
    let mut cur = String::new();
    let mut i: usize = 0;
    proof {
        lemma_split_spec_len(s@, sep);
        assert(s@.skip(0) =~= s@);
        let whole = split_spec(s@, sep);
        assert((Seq::<char>::empty() + whole[0]) =~= whole[0]);
        assert(prepend_first(Seq::<char>::empty(), whole) =~= whole);
        assert(done.deep_view() + prepend_first(cur@, split_spec(s@.skip(0), sep)) =~= whole);
    }
    while i < slen
        invariant
            i <= slen,
            slen == s@.len(),
            split_spec(s@, sep) == done.deep_view() + prepend_first(cur@, split_spec(s@.skip(i as int), sep)),
        decreases slen - i,
    {
        let ghost rest = s@.skip(i as int);
        proof {
            assert(rest.len() > 0);
            assert(rest[0] == s@[i as int]);
            assert(rest.drop_first() =~= s@.skip(i as int + 1));
            lemma_split_spec_len(s@.skip(i as int + 1), sep);
        }
        let c = s.get_char(i);
        if c == sep {
            proof {
                assert(split_spec(rest, sep) =~= seq![Seq::<char>::empty()] + split_spec(
                    s@.skip(i as int + 1),
                    sep,
                ));
                assert(prepend_first(cur@, split_spec(rest, sep)) =~= seq![cur@] + split_spec(
                    s@.skip(i as int + 1),
                    sep,
                ));
                assert(done.deep_view() + prepend_first(cur@, split_spec(rest, sep))
                    =~= done.deep_view().push(cur@) + prepend_first(
                    Seq::<char>::empty(),
                    split_spec(s@.skip(i as int + 1), sep),
                ));
            }
            done.push(cur);
            cur = String::new();
        } else {
            proof {
                let inner = split_spec(s@.skip(i as int + 1), sep);
                assert(split_spec(rest, sep) == seq![seq![rest[0]] + inner[0]] + inner.drop_first());
                assert((seq![seq![rest[0]] + inner[0]] + inner.drop_first()).drop_first()
                    =~= inner.drop_first());
                assert(split_spec(rest, sep)[0] == seq![rest[0]] + inner[0]);
                assert((cur@ + (seq![rest[0]] + inner[0])) =~= (cur@.push(rest[0]) + inner[0]));
                assert(prepend_first(cur@, split_spec(rest, sep)) =~= prepend_first(
                    cur@.push(rest[0]),
                    inner,
                ));
            }
            push_char(&mut cur, c);
        }
        i = i + 1;
    }
    proof {
        assert(s@.skip(slen as int).len() == 0);
        assert(split_spec(s@.skip(slen as int), sep) =~= seq![Seq::<char>::empty()]);
        assert(prepend_first(cur@, split_spec(s@.skip(slen as int), sep)) =~= seq![cur@]);
    }
    done.push(cur);
    proof {
        assert(done.deep_view() =~= split_spec(s@, sep));
    }
    done
}

/// ASCII whitespace.
pub open spec fn is_space(c: char) -> bool {
    c == ' ' || c == '\t' || c == '\r' || c == '\n'
}

/// Count of leading whitespace characters.
pub open spec fn leading_spaces(s: Seq<char>) -> int
    decreases s.len(),
{
    if s.len() == 0 {
        0
    } else if is_space(s[0]) {
        1 + leading_spaces(s.drop_first())
    } else {
        0
    }
}

/// Count of trailing whitespace characters.
pub open spec fn trailing_spaces(s: Seq<char>) -> int
    decreases s.len(),
{
    if s.len() == 0 {
        0
    } else if is_space(s.last()) {
        1 + trailing_spaces(s.drop_last())
    } else {
        0
    }
}

/// The sequence with surrounding whitespace removed.
pub open spec fn trim_spec(s: Seq<char>) -> Seq<char> {
    let a = leading_spaces(s);
    if a == s.len() {
        Seq::empty()
    } else {
        s.subrange(a, s.len() - trailing_spaces(s))
    }
}

proof fn lemma_leading_spaces_at(s: Seq<char>, i: int)
    requires
        0 <= i <= s.len(),
        forall|j: int| 0 <= j < i ==> is_space(#[trigger] s[j]),
        i < s.len() ==> !is_space(s[i]),
    ensures
        leading_spaces(s) == i,
    decreases i,
{
    if i == 0 {
    } else {
        assert(is_space(s[0]));
        lemma_leading_spaces_at(s.drop_first(), i - 1);
        assert(forall|j: int| 0 <= j < i - 1 ==> s.drop_first()[j] == s[j + 1]);
    }
}

proof fn lemma_trailing_spaces_at(s: Seq<char>, i: int)
    requires
        0 <= i <= s.len(),
        forall|j: int| s.len() - i <= j < s.len() ==> is_space(#[trigger] s[j]),
        i < s.len() ==> !is_space(s[s.len() - i - 1]),
    ensures
        trailing_spaces(s) == i,
    decreases i,
{
    if i == 0 {
    } else {
        assert(is_space(s.last()));
        lemma_trailing_spaces_at(s.drop_last(), i - 1);
        assert(forall|j: int| 0 <= j < s.len() - 1 ==> s.drop_last()[j] == s[j]);
    }
}

/// Remove surrounding ASCII whitespace.
pub fn trim(s: &str) -> (r: String)
    ensures
        r@ == trim_spec(s@),
{
    let slen = s.unicode_len();
    let mut a: usize = 0;
    loop
        invariant
            a <= slen,
            slen == s@.len(),
            forall|j: int| 0 <= j < a ==> is_space(#[trigger] s@[j]),
        ensures
            a <= slen,
            forall|j: int| 0 <= j < a ==> is_space(#[trigger] s@[j]),
            a < slen ==> !is_space(s@[a as int]),
            a == slen ==> leading_spaces(s@) == a,
        decreases slen - a,
    {
        if a == slen {
            proof {
                lemma_leading_spaces_at(s@, a as int);
            }
            break;
        }
        let c = s.get_char(a);
        if !(c == ' ' || c == '\t' || c == '\r' || c == '\n') {
            break;
        }
        a = a + 1;
    }
    if a == slen {
        proof {
            assert(trim_spec(s@) =~= Seq::<char>::empty());
        }
        return String::new();
    }
    proof {
        lemma_leading_spaces_at(s@, a as int);
    }
    let mut b: usize = 0;
    loop
        invariant
            b <= slen - a,
            slen == s@.len(),
            a < slen,
            !is_space(s@[a as int]),
            forall|j: int| slen - b <= j < slen ==> is_space(#[trigger] s@[j]),
        ensures
            b <= slen - a,
            forall|j: int| slen - b <= j < slen ==> is_space(#[trigger] s@[j]),
            !is_space(s@[slen - b - 1]),
        decreases slen - b,
    {
        let c = s.get_char(slen - b - 1);
        if !(c == ' ' || c == '\t' || c == '\r' || c == '\n') {
            break;
        }
        proof {
            if b + 1 > slen - a {
                assert(is_space(s@[a as int]));
            }
        }
        b = b + 1;
    }
    proof {
        lemma_trailing_spaces_at(s@, b as int);
    }
    substring(s, a, slen - b)
}

/// Index of the first occurrence of `c`, or the length when absent.
pub open spec fn first_index_of(s: Seq<char>, c: char) -> int
    decreases s.len(),
{
    if s.len() == 0 {
        0
    } else if s[0] == c {
        0
    } else {
        1 + first_index_of(s.drop_first(), c)
    }
}

pub proof fn lemma_first_index_at(s: Seq<char>, c: char, i: int)
    requires
        0 <= i <= s.len(),
        forall|j: int| 0 <= j < i ==> s[j] != c,
        i < s.len() ==> s[i] == c,
    ensures
        first_index_of(s, c) == i,
    decreases i,
{
    if i == 0 {
    } else {
        assert(s[0] != c);
        lemma_first_index_at(s.drop_first(), c, i - 1);
        assert(forall|j: int| 0 <= j < i - 1 ==> s.drop_first()[j] == s[j + 1]);
    }
}

/// A decimal digit.
pub open spec fn is_digit(c: char) -> bool {
    '0' <= c && c <= '9'
}

pub open spec fn digit_val(c: char) -> nat {
    (c as nat - '0' as nat) as nat
}

pub open spec fn all_digits(s: Seq<char>) -> bool {
    forall|i: int| 0 <= i < s.len() ==> is_digit(#[trigger] s[i])
}

/// Value of a decimal digit string.
pub open spec fn dec_val(s: Seq<char>) -> nat
    decreases s.len(),
{
    if s.len() == 0 {
        0
    } else {
        dec_val(s.drop_last()) * 10 + digit_val(s.last())
    }
}

proof fn lemma_dec_val_monotonic(s: Seq<char>, i: int)
    requires
        0 <= i <= s.len(),
    ensures
        dec_val(s.take(i)) <= dec_val(s),
    decreases s.len() - i,
{
    if i < s.len() {
        lemma_dec_val_monotonic(s, i + 1);
        assert(s.take(i + 1).drop_last() =~= s.take(i));
        assert(dec_val(s.take(i + 1)) == dec_val(s.take(i)) * 10 + digit_val(s.take(i + 1).last()));
    } else {
        assert(s.take(i) =~= s);
    }
}

/// A digit string of at most three digits stays below 1000.
pub proof fn lemma_dec_val_small(s: Seq<char>)
    requires
        all_digits(s),
        s.len() <= 3,
    ensures
        dec_val(s) < 1000,
    decreases s.len(),
{
    if s.len() > 0 {
        assert(all_digits(s.drop_last())) by {
            assert(forall|i: int| 0 <= i < s.len() - 1 ==> s.drop_last()[i] == s[i]);
        }
        lemma_dec_val_small(s.drop_last());
        assert(is_digit(s.last()));
        if s.len() <= 2 {
            assert(dec_val(s.drop_last()) < 10) by {
                lemma_dec_val_tiny(s.drop_last());
            }
        } else {
            assert(dec_val(s.drop_last()) < 100) by {
                lemma_dec_val_tiny2(s.drop_last());
            }
        }
    }
}

proof fn lemma_dec_val_tiny(s: Seq<char>)
    requires
        all_digits(s),
        s.len() <= 1,
    ensures
        dec_val(s) < 10,
{
    if s.len() == 1 {
        assert(is_digit(s.last()));
        assert(digit_val(s.last()) <= 9);
        assert(dec_val(s) == dec_val(s.drop_last()) * 10 + digit_val(s.last()));
        assert(s.drop_last().len() == 0);
        assert(dec_val(s.drop_last()) == 0);
    }
}

proof fn lemma_dec_val_tiny2(s: Seq<char>)
    requires
        all_digits(s),
        s.len() <= 2,
    ensures
        dec_val(s) < 100,
{
    if s.len() > 0 {
        assert(all_digits(s.drop_last())) by {
            assert(forall|i: int| 0 <= i < s.len() - 1 ==> s.drop_last()[i] == s[i]);
        }
        lemma_dec_val_tiny(s.drop_last());
        assert(is_digit(s.last()));
    }
}

/// Parse an unsigned decimal number, refusing overflow past `u64`.
pub fn parse_u64(s: &str) -> (r: Option<u64>)
    ensures
        match r {
            Some(n) => s@.len() > 0 && all_digits(s@) && n == dec_val(s@),
            None => s@.len() == 0 || !all_digits(s@) || dec_val(s@) > u64::MAX,
        },
{
    let slen = s.unicode_len();
    if slen == 0 {
        return None;
    }
    let mut acc: u64 = 0;
    let mut i: usize = 0;
    while i < slen
        invariant
            i <= slen,
            slen == s@.len(),
            all_digits(s@.take(i as int)),
            acc == dec_val(s@.take(i as int)),
        decreases slen - i,
    {
        let c = s.get_char(i);
        if c < '0' || c > '9' {
            assert(!all_digits(s@)) by {
                assert(!is_digit(s@[i as int]));
            }
            return None;
        }
        let d: u32 = c as u32 - '0' as u32;
        proof {
            assert(s@.take(i as int + 1).drop_last() =~= s@.take(i as int));
            assert(s@.take(i as int + 1).last() == s@[i as int]);
        }
        if acc > (u64::MAX - d as u64) / 10 {
            proof {
                assert(dec_val(s@.take(i as int + 1)) > u64::MAX);
                lemma_dec_val_monotonic(s@, i as int + 1);
            }
            return None;
        }
        acc = acc * 10 + d as u64;
        i = i + 1;
    }
    proof {
        assert(s@.take(slen as int) =~= s@);
    }
    Some(acc)
}

/// Parse an unsigned decimal number into `u32`.
pub fn parse_u32(s: &str) -> (r: Option<u32>)
    ensures
        match r {
            Some(n) => s@.len() > 0 && all_digits(s@) && n == dec_val(s@),
            None => s@.len() == 0 || !all_digits(s@) || dec_val(s@) > u32::MAX,
        },
{
    match parse_u64(s) {
        Some(n) => if n <= u32::MAX as u64 {
            Some(n as u32)
        } else {
            None
        },
        None => None,
    }
}

/// Decimal digit string of a number, most significant digit first.
pub open spec fn dec_str(n: nat) -> Seq<char>
    decreases n,
{
    if n < 10 {
        seq![((n + '0' as nat) as u8) as char]
    } else {
        dec_str(n / 10) + seq![((n % 10 + '0' as nat) as u8) as char]
    }
}

/// Render a number in decimal.
pub fn u64_to_dec(n: u64) -> (r: String)
    ensures
        r@ == dec_str(n as nat),
    decreases n,
{
    if n < 10 {
        let c = ((n as u8) + ('0' as u8)) as char;
        let mut s = String::new();
        push_char(&mut s, c);
        proof {
            assert(s@ =~= dec_str(n as nat));
        }
        s
    } else {
        let mut s = u64_to_dec(n / 10);
        let d = ((n % 10) as u8 + ('0' as u8)) as char;
        push_char(&mut s, d);
        proof {
            assert(s@ =~= dec_str(n as nat));
        }
        s
    }
}

/// ASCII lowercase of a character sequence; non-ASCII-uppercase characters
/// are unchanged.
pub open spec fn ascii_lower(s: Seq<char>) -> Seq<char> {
    s.map_values(|c: char| if 'A' <= c && c <= 'Z' {
        ((c as u8) + 32) as char
    } else {
        c
    })
}

/// ASCII-lowercase a string.
pub fn to_ascii_lower(s: &str) -> (r: String)
    ensures
        r@ == ascii_lower(s@),
{
    let slen = s.unicode_len();
    let mut out = String::new();
    let mut i: usize = 0;
    while i < slen
        invariant
            i <= slen,
            slen == s@.len(),
            out@ == ascii_lower(s@).take(i as int),
        decreases slen - i,
    {
        let c = s.get_char(i);
        let lc = if c >= 'A' && c <= 'Z' {
            ((c as u8) + 32) as char
        } else {
            c
        };
        push_char(&mut out, lc);
        proof {
            assert(out@ =~= ascii_lower(s@).take(i as int + 1));
        }
        i = i + 1;
    }
    proof {
        assert(ascii_lower(s@).take(slen as int) =~= ascii_lower(s@));
    }
    out
}

/// Substring of `s` from `from` (inclusive) to `to` (exclusive), by
/// character index.
pub fn substring(s: &str, from: usize, to: usize) -> (r: String)
    requires
        from <= to,
        to <= s@.len(),
    ensures
        r@ == s@.subrange(from as int, to as int),
{
    let sub = s.substring_char(from, to);
    let mut out = String::new();
    out.append(sub);
    proof {
        assert(out@ =~= s@.subrange(from as int, to as int));
    }
    out
}

} // verus!
