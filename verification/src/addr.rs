//! Textual socket addresses: parsing `a.b.c.d:port` and `[v6]:port` into an
//! [`EndpointAddress`]. The grammar is stated as spec functions over the
//! UTF-8 bytes of the text; the parser is proved to decide it exactly.
//! IPv6 addresses are hex groups with an optional `::` filling the gap with
//! zeros; the embedded dotted-quad form is not part of this grammar.

use vstd::prelude::*;
use vstd::slice::slice_subrange;
use vstd::string::StringSliceAdditionalSpecFns;

use crate::endpoint::{EndpointAddress, IpAddr};

verus! {

/// ASCII decimal digit.
pub open spec fn is_digit_byte(b: u8) -> bool {
    48 <= b <= 57
}

/// The number the digit string denotes.
pub open spec fn dec_value(s: Seq<u8>) -> nat
    decreases s.len(),
{
    if s.len() == 0 {
        0
    } else {
        (dec_value(s.drop_last()) * 10 + (s.last() - 48)) as nat
    }
}

/// A canonical decimal numeral: digits only, non-empty, no leading zero.
pub open spec fn canonical_dec(s: Seq<u8>) -> bool {
    &&& s.len() > 0
    &&& forall|i: int| 0 <= i < s.len() ==> is_digit_byte(#[trigger] s[i])
    &&& (s.len() == 1 || s[0] != 48)
}

/// The value of a canonical numeral no larger than `max`, if it is one.
pub open spec fn parse_dec_spec(s: Seq<u8>, max: u32) -> Option<u32> {
    if canonical_dec(s) && dec_value(s) <= max {
        Some(dec_value(s) as u32)
    } else {
        None
    }
}

/// The first position of `b` in `s`, if any.
pub open spec fn first_index(s: Seq<u8>, b: u8) -> Option<int>
    decreases s.len(),
{
    if s.len() == 0 {
        None
    } else if s[0] == b {
        Some(0)
    } else {
        match first_index(s.drop_first(), b) {
            Some(i) => Some(i + 1),
            None => None,
        }
    }
}

/// `s` split on every occurrence of `b`; `n` separators give `n + 1` parts.
pub open spec fn split_on(s: Seq<u8>, b: u8) -> Seq<Seq<u8>>
    decreases s.len(),
{
    match first_index(s, b) {
        None => seq![s],
        Some(i) => {
            if 0 <= i < s.len() {
                seq![s.subrange(0, i)] + split_on(s.subrange(i + 1, s.len() as int), b)
            } else {
                seq![s]
            }
        },
    }
}

/// The 32-bit value of the dotted quad, if the text is one.
pub open spec fn parse_ipv4_spec(s: Seq<u8>) -> Option<u32> {
    let parts = split_on(s, 46);
    if parts.len() == 4 {
        match (
            parse_dec_spec(parts[0], 255),
            parse_dec_spec(parts[1], 255),
            parse_dec_spec(parts[2], 255),
            parse_dec_spec(parts[3], 255),
        ) {
            (Some(a), Some(b), Some(c), Some(d)) => Some(
                (a * 0x100_0000 + b * 0x1_0000 + c * 0x100 + d) as u32,
            ),
            _ => None,
        }
    } else {
        None
    }
}


/// ASCII hexadecimal digit, either case.
pub open spec fn is_hex_byte(b: u8) -> bool {
    is_digit_byte(b) || (97 <= b <= 102) || (65 <= b <= 70)
}

/// The value of one hexadecimal digit.
pub open spec fn hex_digit_value(b: u8) -> nat {
    if is_digit_byte(b) {
        (b - 48) as nat
    } else if 97 <= b <= 102 {
        (b - 87) as nat
    } else {
        (b - 55) as nat
    }
}

/// The number the hexadecimal string denotes.
pub open spec fn hex_value(s: Seq<u8>) -> nat
    decreases s.len(),
{
    if s.len() == 0 {
        0
    } else {
        (hex_value(s.drop_last()) * 16 + hex_digit_value(s.last())) as nat
    }
}

/// One group of an IPv6 address: one to four hex digits, leading zeros
/// allowed.
pub open spec fn hex_group(s: Seq<u8>) -> Option<u16> {
    if 1 <= s.len() <= 4 && (forall|i: int| 0 <= i < s.len() ==> is_hex_byte(#[trigger] s[i])) {
        Some(hex_value(s) as u16)
    } else {
        None
    }
}

/// The group values of a parts list, when every part is a group.
pub open spec fn groups_of(parts: Seq<Seq<u8>>) -> Option<Seq<u16>>
    decreases parts.len(),
{
    if parts.len() == 0 {
        Some(Seq::empty())
    } else {
        match (hex_group(parts[0]), groups_of(parts.drop_first())) {
            (Some(g), Some(rest)) => Some(seq![g] + rest),
            _ => None,
        }
    }
}

/// The 128-bit value eight groups denote, most significant first.
pub open spec fn v6_of_groups(groups: Seq<u16>) -> nat
    decreases groups.len(),
{
    if groups.len() == 0 {
        0
    } else {
        (v6_of_groups(groups.drop_last()) * 0x10000 + groups.last()) as nat
    }
}

/// `k` zero groups.
pub open spec fn zero_groups(k: nat) -> Seq<u16> {
    Seq::new(k, |i: int| 0u16)
}

/// Every part in `[a, b)` is non-empty.
pub open spec fn nonempty_range(parts: Seq<Seq<u8>>, a: int, b: int) -> bool {
    forall|j: int| a <= j < b ==> (#[trigger] parts[j]).len() > 0
}

/// The first empty part, if any.
pub open spec fn first_empty(parts: Seq<Seq<u8>>) -> Option<int>
    decreases parts.len(),
{
    if parts.len() == 0 {
        None
    } else if parts[0].len() == 0 {
        Some(0)
    } else {
        match first_empty(parts.drop_first()) {
            Some(i) => Some(i + 1),
            None => None,
        }
    }
}

/// The value of an IPv6 address text: eight colon-separated hex groups, or
/// fewer with a single `::` standing for the missing zero groups.
pub open spec fn parse_ipv6_spec(s: Seq<u8>) -> Option<u128> {
    let parts = split_on(s, 58);
    let n = parts.len() as int;
    if nonempty_range(parts, 0, n) {
        if n == 8 {
            match groups_of(parts) {
                Some(gs) => Some(v6_of_groups(gs) as u128),
                None => None,
            }
        } else {
            None
        }
    } else if n == 3 && parts[0].len() == 0 && parts[1].len() == 0 && parts[2].len() == 0 {
        Some(0)
    } else if n >= 3 && parts[0].len() == 0 && parts[1].len() == 0 && nonempty_range(
        parts,
        2,
        n,
    ) {
        if n - 2 <= 7 {
            match groups_of(parts.subrange(2, n)) {
                Some(gs) => Some(
                    v6_of_groups(zero_groups((8 - gs.len()) as nat) + gs) as u128,
                ),
                None => None,
            }
        } else {
            None
        }
    } else if n >= 3 && parts[n - 1].len() == 0 && parts[n - 2].len() == 0 && nonempty_range(
        parts,
        0,
        n - 2,
    ) {
        if n - 2 <= 7 {
            match groups_of(parts.subrange(0, n - 2)) {
                Some(gs) => Some(
                    v6_of_groups(gs + zero_groups((8 - gs.len()) as nat)) as u128,
                ),
                None => None,
            }
        } else {
            None
        }
    } else {
        match first_empty(parts) {
            Some(e) => {
                if 1 <= e <= n - 2 && nonempty_range(parts, e + 1, n) && n - 1 <= 7 {
                    match (groups_of(parts.subrange(0, e)), groups_of(
                        parts.subrange(e + 1, n),
                    )) {
                        (Some(a), Some(b)) => Some(
                            v6_of_groups(
                                a + zero_groups((8 - a.len() - b.len()) as nat) + b,
                            ) as u128,
                        ),
                        _ => None,
                    }
                } else {
                    None
                }
            },
            None => None,
        }
    }
}

/// The socket address the text denotes, if any: `a.b.c.d:port`, or
/// `[v6]:port`.
pub open spec fn parse_sockaddr_spec(s: Seq<u8>) -> Option<EndpointAddress> {
    if s.len() >= 1 && s[0] == 91 {
        match first_index(s, 93) {
            Some(i) => {
                if i + 1 < s.len() && s[i + 1] == 58 {
                    match (parse_ipv6_spec(s.subrange(1, i)), parse_dec_spec(
                        s.subrange(i + 2, s.len() as int),
                        65535,
                    )) {
                        (Some(v), Some(port)) => Some(
                            EndpointAddress { ip: IpAddr::V6(v), port: port as u16 },
                        ),
                        _ => None,
                    }
                } else {
                    None
                }
            },
            None => None,
        }
    } else {
        let parts = split_on(s, 58);
        if parts.len() == 2 {
            match (parse_ipv4_spec(parts[0]), parse_dec_spec(parts[1], 65535)) {
                (Some(ip), Some(port)) => Some(
                    EndpointAddress { ip: IpAddr::V4(ip), port: port as u16 },
                ),
                _ => None,
            }
        } else {
            None
        }
    }
}

/// If `b` first occurs at `i`, the split is the prefix plus the split of the
/// suffix.
proof fn lemma_first_index_at(s: Seq<u8>, b: u8, i: int)
    requires
        0 <= i < s.len(),
        s[i] == b,
        forall|k: int| 0 <= k < i ==> s[k] != b,
    ensures
        first_index(s, b) == Some(i),
    decreases s.len(),
{
    if i > 0 {
        lemma_first_index_at(s.drop_first(), b, i - 1);
    }
}

/// Without an occurrence there is no first index.
proof fn lemma_first_index_none(s: Seq<u8>, b: u8)
    requires
        forall|k: int| 0 <= k < s.len() ==> s[k] != b,
    ensures
        first_index(s, b) is None,
    decreases s.len(),
{
    if s.len() > 0 {
        lemma_first_index_none(s.drop_first(), b);
    }
}

/// Powers of ten.
pub open spec fn pow10(n: nat) -> nat
    decreases n,
{
    if n == 0 {
        1
    } else {
        10 * pow10((n - 1) as nat)
    }
}

/// Powers of ten are positive and grow with the exponent.
proof fn lemma_pow10_mono(a: nat, b: nat)
    requires
        a <= b,
    ensures
        1 <= pow10(a) <= pow10(b),
    decreases b,
{
    if b > 0 {
        if a == b {
            lemma_pow10_mono((a - 1) as nat, (b - 1) as nat);
        } else {
            lemma_pow10_mono(a, (b - 1) as nat);
        }
    }
}

/// A digit string of `n` digits denotes less than `10^n`.
proof fn lemma_dec_value_upper(s: Seq<u8>)
    requires
        forall|i: int| 0 <= i < s.len() ==> is_digit_byte(#[trigger] s[i]),
    ensures
        dec_value(s) < pow10(s.len()),
    decreases s.len(),
{
    if s.len() > 0 {
        let t = s.drop_last();
        assert(forall|i: int| 0 <= i < t.len() ==> is_digit_byte(#[trigger] t[i]));
        lemma_dec_value_upper(t);
    }
}

/// A canonical numeral of `n` digits denotes at least `10^(n-1)`.
proof fn lemma_canonical_dec_lower(s: Seq<u8>)
    requires
        canonical_dec(s),
        s.len() >= 2,
    ensures
        dec_value(s) >= pow10((s.len() - 1) as nat),
    decreases s.len(),
{
    let t = s.drop_last();
    assert(canonical_dec(t)) by {
        assert(forall|i: int| 0 <= i < t.len() ==> t[i] == s[i]);
    }
    if s.len() == 2 {
        assert(dec_value(t.drop_last()) == 0);
        assert(t.last() == t[0]);
        assert(dec_value(t) == t[0] - 48);
        assert(t[0] == s[0] && s[0] != 48);
    } else {
        lemma_canonical_dec_lower(t);
    }
}

/// A found first index is in range and hits the byte.
proof fn lemma_first_index_range(s: Seq<u8>, b: u8)
    requires
        first_index(s, b) is Some,
    ensures
        0 <= first_index(s, b)->Some_0 < s.len(),
        s[first_index(s, b)->Some_0] == b,
    decreases s.len(),
{
    if s.len() > 0 && s[0] != b {
        lemma_first_index_range(s.drop_first(), b);
    }
}

/// A split has at least one part.
proof fn lemma_split_on_nonempty(s: Seq<u8>, b: u8)
    ensures
        split_on(s, b).len() >= 1,
    decreases s.len(),
{
    match first_index(s, b) {
        None => {},
        Some(i) => {
            lemma_first_index_range(s, b);
            lemma_split_on_nonempty(s.subrange(i + 1, s.len() as int), b);
        },
    }
}

/// Where the first separator is, in executable form.
fn find_byte(s: &[u8], b: u8) -> (r: Option<usize>)
    ensures
        match r {
            Some(i) => i < s@.len() && first_index(s@, b) == Some(i as int),
            None => first_index(s@, b) is None,
        },
{
    let n = s.len();
    let mut i: usize = 0;
    while i < n
        invariant
            0 <= i <= n,
            n == s@.len(),
            forall|k: int| 0 <= k < i ==> s@[k] != b,
        decreases n - i,
    {
        if s[i] == b {
            proof {
                lemma_first_index_at(s@, b, i as int);
            }
            return Some(i);
        }
        i = i + 1;
    }
    proof {
        lemma_first_index_none(s@, b);
    }
    None
}

/// Decides `parse_dec_spec` exactly.
fn parse_dec(s: &[u8], max: u32) -> (r: Option<u32>)
    ensures
        r == parse_dec_spec(s@, max),
{
    let n = s.len();
    if n == 0 {
        return None;
    }
    if n > 10 {
        let mut i: usize = 0;
        while i < n
            invariant
                0 <= i <= n,
                n == s@.len(),
                forall|k: int| 0 <= k < i ==> is_digit_byte(#[trigger] s@[k]),
            decreases n - i,
        {
            if s[i] < 48 || s[i] > 57 {
                return None;
            }
            i = i + 1;
        }
        if s[0] == 48 {
            return None;
        }
        proof {
            lemma_canonical_dec_lower(s@);
            lemma_pow10_mono(10, (s@.len() - 1) as nat);
            reveal_with_fuel(pow10, 11);
            assert(pow10(10) == 10_000_000_000);
        }
        return None;
    }
    if n > 1 && s[0] == 48 {
        return None;
    }
    let mut acc: u64 = 0;
    let mut i: usize = 0;
    while i < n
        invariant
            0 <= i <= n,
            1 <= n <= 10,
            n == s@.len(),
            forall|k: int| 0 <= k < i ==> is_digit_byte(#[trigger] s@[k]),
            acc == dec_value(s@.subrange(0, i as int)),
            acc < 0x2_5400_0000_0000,
        decreases n - i,
    {
        let d = s[i];
        if d < 48 || d > 57 {
            return None;
        }
        proof {
            assert(s@.subrange(0, i as int + 1).drop_last() =~= s@.subrange(0, i as int));
            assert(forall|k: int|
                0 <= k < i + 1 ==> is_digit_byte(#[trigger] s@.subrange(0, i as int + 1)[k]));
            lemma_dec_value_upper(s@.subrange(0, i as int + 1));
            lemma_pow10_mono((i + 1) as nat, 10);
            reveal_with_fuel(pow10, 11);
            assert(pow10(10) == 10_000_000_000);
        }
        acc = acc * 10 + (d - 48) as u64;
        i = i + 1;
    }
    proof {
        assert(s@.subrange(0, n as int) =~= s@);
    }
    if acc <= max as u64 {
        Some(acc as u32)
    } else {
        None
    }
}

/// Decides `parse_ipv4_spec` exactly.
fn parse_ipv4(s: &[u8]) -> (r: Option<u32>)
    ensures
        r == parse_ipv4_spec(s@),
{
    let ghost parts = split_on(s@, 46);
    let n = s.len();
    let d1 = match find_byte(s, 46) {
        Some(i) => i,
        None => {
            proof {
                assert(parts.len() == 1);
            }
            return None;
        },
    };
    let p1 = slice_subrange(s, 0, d1);
    let rest1 = slice_subrange(s, d1 + 1, n);
    proof {
        assert(parts == seq![p1@] + split_on(rest1@, 46));
    }
    let d2 = match find_byte(rest1, 46) {
        Some(i) => i,
        None => {
            proof {
                assert(parts.len() == 2);
            }
            return None;
        },
    };
    let p2 = slice_subrange(rest1, 0, d2);
    let rest2 = slice_subrange(rest1, d2 + 1, rest1.len());
    proof {
        assert(parts == seq![p1@, p2@] + split_on(rest2@, 46));
    }
    let d3 = match find_byte(rest2, 46) {
        Some(i) => i,
        None => {
            proof {
                assert(parts.len() == 3);
            }
            return None;
        },
    };
    let p3 = slice_subrange(rest2, 0, d3);
    let p4 = slice_subrange(rest2, d3 + 1, rest2.len());
    proof {
        assert(parts == seq![p1@, p2@, p3@] + split_on(p4@, 46));
    }
    match find_byte(p4, 46) {
        Some(j) => {
            proof {
                lemma_split_on_nonempty(p4@.subrange(j as int + 1, p4@.len() as int), 46);
                assert(parts.len() >= 5);
            }
            return None;
        },
        None => {},
    }
    proof {
        assert(parts =~= seq![p1@, p2@, p3@, p4@]);
    }
    let a = match parse_dec(p1, 255) {
        Some(v) => v,
        None => {
            return None;
        },
    };
    let b = match parse_dec(p2, 255) {
        Some(v) => v,
        None => {
            return None;
        },
    };
    let c = match parse_dec(p3, 255) {
        Some(v) => v,
        None => {
            return None;
        },
    };
    let d = match parse_dec(p4, 255) {
        Some(v) => v,
        None => {
            return None;
        },
    };
    Some(a * 0x100_0000 + b * 0x1_0000 + c * 0x100 + d)
}


/// Powers of sixteen.
pub open spec fn pow16(n: nat) -> nat
    decreases n,
{
    if n == 0 {
        1
    } else {
        16 * pow16((n - 1) as nat)
    }
}

/// Powers of sixteen are positive and grow with the exponent.
proof fn lemma_pow16_mono(a: nat, b: nat)
    requires
        a <= b,
    ensures
        1 <= pow16(a) <= pow16(b),
    decreases b,
{
    if b > 0 {
        if a == b {
            lemma_pow16_mono((a - 1) as nat, (b - 1) as nat);
        } else {
            lemma_pow16_mono(a, (b - 1) as nat);
        }
    }
}

/// A hex string of `n` digits denotes less than `16^n`.
proof fn lemma_hex_value_upper(s: Seq<u8>)
    requires
        forall|i: int| 0 <= i < s.len() ==> is_hex_byte(#[trigger] s[i]),
    ensures
        hex_value(s) < pow16(s.len()),
    decreases s.len(),
{
    if s.len() > 0 {
        let t = s.drop_last();
        assert(forall|i: int| 0 <= i < t.len() ==> is_hex_byte(#[trigger] t[i]));
        lemma_hex_value_upper(t);
    }
}

/// Powers of the group base.
pub open spec fn pow2_16(n: nat) -> nat
    decreases n,
{
    if n == 0 {
        1
    } else {
        0x10000 * pow2_16((n - 1) as nat)
    }
}

/// Powers of the group base are positive and grow with the exponent.
proof fn lemma_pow2_16_mono(a: nat, b: nat)
    requires
        a <= b,
    ensures
        1 <= pow2_16(a) <= pow2_16(b),
    decreases b,
{
    if b > 0 {
        if a == b {
            lemma_pow2_16_mono((a - 1) as nat, (b - 1) as nat);
        } else {
            lemma_pow2_16_mono(a, (b - 1) as nat);
        }
    }
}

/// `n` groups denote less than `65536^n`.
proof fn lemma_v6_upper(groups: Seq<u16>)
    ensures
        v6_of_groups(groups) < pow2_16(groups.len()),
    decreases groups.len(),
{
    if groups.len() > 0 {
        lemma_v6_upper(groups.drop_last());
    }
}

/// `groups_of` keeps the number of parts.
proof fn lemma_groups_len(parts: Seq<Seq<u8>>)
    requires
        groups_of(parts) is Some,
    ensures
        groups_of(parts)->Some_0.len() == parts.len(),
    decreases parts.len(),
{
    if parts.len() > 0 {
        lemma_groups_len(parts.drop_first());
    }
}

/// The byte views of a parts list.
pub open spec fn parts_views(v: Seq<Vec<u8>>) -> Seq<Seq<u8>> {
    Seq::new(v.len(), |i: int| v[i]@)
}

/// Splits the bytes on every occurrence of `b`, in executable form.
fn split_parts(s: &[u8], b: u8) -> (r: Vec<Vec<u8>>)
    ensures
        parts_views(r@) == split_on(s@, b),
    decreases s@.len(),
{
    match find_byte(s, b) {
        Some(i) => {
            let head = vstd::slice::slice_to_vec(slice_subrange(s, 0, i));
            let n = s.len();
            let rest = slice_subrange(s, i + 1, n);
            let mut out = split_parts(rest, b);
            let ghost tail_views = parts_views(out@);
            out.insert(0, head);
            proof {
                assert(parts_views(out@) =~= seq![s@.subrange(0, i as int)] + tail_views);
            }
            out
        },
        None => {
            let mut out: Vec<Vec<u8>> = Vec::new();
            out.push(vstd::slice::slice_to_vec(s));
            proof {
                assert(parts_views(out@) =~= seq![s@]);
            }
            out
        },
    }
}

/// If the part at `e` is the first empty one, `first_empty` finds it.
proof fn lemma_first_empty_at(parts: Seq<Seq<u8>>, e: int)
    requires
        0 <= e < parts.len(),
        parts[e].len() == 0,
        forall|j: int| 0 <= j < e ==> (#[trigger] parts[j]).len() > 0,
    ensures
        first_empty(parts) == Some(e),
    decreases parts.len(),
{
    if e > 0 {
        lemma_first_empty_at(parts.drop_first(), e - 1);
    }
}

/// Without an empty part there is no first empty one.
proof fn lemma_first_empty_none(parts: Seq<Seq<u8>>)
    requires
        nonempty_range(parts, 0, parts.len() as int),
    ensures
        first_empty(parts) is None,
    decreases parts.len(),
{
    if parts.len() > 0 {
        assert(nonempty_range(parts.drop_first(), 0, parts.len() - 1));
        lemma_first_empty_none(parts.drop_first());
    }
}

/// Where the first empty part is, in executable form.
#[verifier::loop_isolation(false)]
fn find_first_empty(parts: &Vec<Vec<u8>>) -> (r: Option<usize>)
    ensures
        match r {
            Some(e) => e < parts@.len() && first_empty(parts_views(parts@)) == Some(e as int)
                && parts@[e as int]@.len() == 0,
            None => first_empty(parts_views(parts@)) is None && nonempty_range(
                parts_views(parts@),
                0,
                parts@.len() as int,
            ),
        },
{
    let n = parts.len();
    let mut i: usize = 0;
    while i < n
        invariant
            0 <= i <= n,
            forall|j: int| 0 <= j < i ==> (#[trigger] parts_views(parts@)[j]).len() > 0,
        decreases n - i,
    {
        if parts[i].len() == 0 {
            proof {
                lemma_first_empty_at(parts_views(parts@), i as int);
            }
            return Some(i);
        }
        i = i + 1;
    }
    proof {
        lemma_first_empty_none(parts_views(parts@));
    }
    None
}

/// Whether every part in `[a, b)` is non-empty, in executable form.
#[verifier::loop_isolation(false)]
fn check_nonempty(parts: &Vec<Vec<u8>>, a: usize, b: usize) -> (r: bool)
    requires
        a <= b <= parts@.len(),
    ensures
        r == nonempty_range(parts_views(parts@), a as int, b as int),
{
    let mut j: usize = a;
    while j < b
        invariant
            a <= j <= b,
            forall|k: int| a <= k < j ==> (#[trigger] parts_views(parts@)[k]).len() > 0,
        decreases b - j,
    {
        if parts[j].len() == 0 {
            proof {
                assert(parts_views(parts@)[j as int].len() == 0);
            }
            return false;
        }
        j = j + 1;
    }
    true
}

/// Decides `hex_group` exactly.
#[verifier::loop_isolation(false)]
fn hex_group_val(s: &[u8]) -> (r: Option<u16>)
    ensures
        r == hex_group(s@),
{
    let n = s.len();
    if n < 1 || n > 4 {
        return None;
    }
    let mut acc: u32 = 0;
    let mut i: usize = 0;
    while i < n
        invariant
            0 <= i <= n,
            forall|k: int| 0 <= k < i ==> is_hex_byte(#[trigger] s@[k]),
            acc == hex_value(s@.subrange(0, i as int)),
        decreases n - i,
    {
        let b = s[i];
        let d: u32 = if 48 <= b && b <= 57 {
            (b - 48) as u32
        } else if 97 <= b && b <= 102 {
            (b - 87) as u32
        } else if 65 <= b && b <= 70 {
            (b - 55) as u32
        } else {
            proof {
                assert(!is_hex_byte(s@[i as int]));
            }
            return None;
        };
        proof {
            assert(s@.subrange(0, i as int + 1).drop_last() =~= s@.subrange(0, i as int));
            lemma_hex_value_upper(s@.subrange(0, i as int));
            lemma_pow16_mono((i as nat), 3);
            reveal_with_fuel(pow16, 5);
            assert(pow16(3) == 4096);
        }
        acc = acc * 16 + d;
        i = i + 1;
    }
    proof {
        assert(s@.subrange(0, n as int) =~= s@);
        lemma_hex_value_upper(s@);
        lemma_pow16_mono((n as nat), 4);
        reveal_with_fuel(pow16, 5);
        assert(pow16(4) == 65536);
    }
    Some(acc as u16)
}

/// Reads the groups of the parts in `[from, to)` exactly as `groups_of`
/// says.
#[verifier::loop_isolation(false)]
fn parse_groups(parts: &Vec<Vec<u8>>, from: usize, to: usize) -> (r: Option<Vec<u16>>)
    requires
        from <= to <= parts@.len(),
    ensures
        match r {
            Some(gs) => groups_of(parts_views(parts@).subrange(from as int, to as int)) == Some(
                gs@,
            ),
            None => groups_of(parts_views(parts@).subrange(from as int, to as int)) is None,
        },
{
    let ghost target = parts_views(parts@).subrange(from as int, to as int);
    let mut out: Vec<u16> = Vec::new();
    let mut i: usize = from;
    while i < to
        invariant
            from <= i <= to,
            groups_of(target) == (match groups_of(
                parts_views(parts@).subrange(i as int, to as int),
            ) {
                Some(rest) => Some(out@ + rest),
                None => None::<Seq<u16>>,
            }),
        decreases to - i,
    {
        let ghost rem = parts_views(parts@).subrange(i as int, to as int);
        proof {
            assert(rem[0] == parts@[i as int]@);
            assert(rem.drop_first() =~= parts_views(parts@).subrange(i as int + 1, to as int));
        }
        let g = match hex_group_val(&parts[i]) {
            Some(g) => g,
            None => {
                return None;
            },
        };
        let ghost outv = out@;
        out.push(g);
        proof {
            match groups_of(parts_views(parts@).subrange(i as int + 1, to as int)) {
                Some(rest) => {
                    assert(outv + (seq![g] + rest) =~= out@ + rest);
                },
                None => {},
            }
        }
        i = i + 1;
    }
    proof {
        assert(parts_views(parts@).subrange(to as int, to as int) =~= Seq::<Seq<u8>>::empty());
        assert(out@ + Seq::<u16>::empty() =~= out@);
    }
    Some(out)
}

/// Concatenates the left groups, the zero filling and the right groups.
#[verifier::loop_isolation(false)]
fn pad_groups(a: &Vec<u16>, zeros: usize, b: &Vec<u16>) -> (r: Vec<u16>)
    ensures
        r@ == a@ + zero_groups(zeros as nat) + b@,
{
    let mut out: Vec<u16> = Vec::new();
    let na = a.len();
    let mut i: usize = 0;
    while i < na
        invariant
            0 <= i <= na,
            na == a@.len(),
            out@ =~= a@.subrange(0, i as int),
        decreases na - i,
    {
        out.push(a[i]);
        i = i + 1;
    }
    proof {
        assert(a@.subrange(0, na as int) =~= a@);
    }
    let mut z: usize = 0;
    while z < zeros
        invariant
            0 <= z <= zeros,
            out@ =~= a@ + zero_groups(z as nat),
        decreases zeros - z,
    {
        out.push(0);
        proof {
            assert(out@ =~= a@ + zero_groups((z + 1) as nat));
        }
        z = z + 1;
    }
    let nb = b.len();
    let mut j: usize = 0;
    while j < nb
        invariant
            0 <= j <= nb,
            nb == b@.len(),
            out@ =~= a@ + zero_groups(zeros as nat) + b@.subrange(0, j as int),
        decreases nb - j,
    {
        out.push(b[j]);
        j = j + 1;
    }
    proof {
        assert(b@.subrange(0, nb as int) =~= b@);
        assert(out@ =~= a@ + zero_groups(zeros as nat) + b@);
    }
    out
}

/// The 128-bit value of exactly eight groups.
#[verifier::loop_isolation(false)]
fn v6_value_of(groups: &Vec<u16>) -> (r: u128)
    requires
        groups@.len() == 8,
    ensures
        r == v6_of_groups(groups@),
{
    let mut acc: u128 = 0;
    let mut i: usize = 0;
    while i < 8
        invariant
            0 <= i <= 8,
            acc == v6_of_groups(groups@.subrange(0, i as int)),
        decreases 8 - i,
    {
        proof {
            lemma_v6_upper(groups@.subrange(0, i as int));
            lemma_pow2_16_mono((i as nat), 7);
            reveal_with_fuel(pow2_16, 9);
            assert(groups@.subrange(0, i as int + 1).drop_last() =~= groups@.subrange(
                0,
                i as int,
            ));
        }
        acc = acc * 0x10000 + groups[i] as u128;
        i = i + 1;
    }
    proof {
        assert(groups@.subrange(0, 8) =~= groups@);
    }
    acc
}

/// The value of eight groups fits the address width.
proof fn lemma_v6_fits(groups: Seq<u16>)
    requires
        groups.len() == 8,
    ensures
        v6_of_groups(groups) < 0x1_0000_0000_0000_0000_0000_0000_0000_0000,
{
    lemma_v6_upper(groups);
    reveal_with_fuel(pow2_16, 9);
    assert(pow2_16(8) == 0x1_0000_0000_0000_0000_0000_0000_0000_0000);
}

/// Decides `parse_ipv6_spec` exactly.
#[verifier::loop_isolation(false)]
fn parse_ipv6(s: &[u8]) -> (r: Option<u128>)
    ensures
        r == parse_ipv6_spec(s@),
{
    let parts = split_parts(s, 58);
    let ghost pv = parts_views(parts@);
    let n = parts.len();
    match find_first_empty(&parts) {
        None => {
            if n == 8 {
                proof {
                    assert(pv.subrange(0, 8) =~= pv);
                }
                match parse_groups(&parts, 0, 8) {
                    Some(gs) => {
                        proof {
                            assert(pv.subrange(0, 8) =~= pv);
                            lemma_groups_len(pv);
                            lemma_v6_fits(gs@);
                        }
                        Some(v6_value_of(&gs))
                    },
                    None => None,
                }
            } else {
                None
            }
        },
        Some(e) => {
            proof {
                assert(!nonempty_range(pv, 0, n as int)) by {
                    assert(pv[e as int].len() == 0);
                }
            }
            if n == 3 && parts[0].len() == 0 && parts[1].len() == 0 && parts[2].len() == 0 {
                return Some(0);
            }
            if n >= 3 && parts[0].len() == 0 && parts[1].len() == 0 && check_nonempty(
                &parts,
                2,
                n,
            ) {
                if n - 2 <= 7 {
                    match parse_groups(&parts, 2, n) {
                        Some(gs) => {
                            proof {
                                lemma_groups_len(pv.subrange(2, n as int));
                            }
                            let zeros = 8 - gs.len();
                            let empty_left: Vec<u16> = Vec::new();
                            let padded = pad_groups(&empty_left, zeros, &gs);
                            proof {
                                assert(padded@ =~= zero_groups(zeros as nat) + gs@);
                                lemma_v6_fits(padded@);
                            }
                            Some(v6_value_of(&padded))
                        },
                        None => None,
                    }
                } else {
                    None
                }
            } else if n >= 3 && parts[n - 1].len() == 0 && parts[n - 2].len() == 0
                && check_nonempty(&parts, 0, n - 2) {
                if n - 2 <= 7 {
                    match parse_groups(&parts, 0, n - 2) {
                        Some(gs) => {
                            proof {
                                lemma_groups_len(pv.subrange(0, n - 2));
                            }
                            let zeros = 8 - gs.len();
                            let empty_right: Vec<u16> = Vec::new();
                            let padded = pad_groups(&gs, zeros, &empty_right);
                            proof {
                                assert(padded@ =~= gs@ + zero_groups(zeros as nat));
                                lemma_v6_fits(padded@);
                            }
                            Some(v6_value_of(&padded))
                        },
                        None => None,
                    }
                } else {
                    None
                }
            } else {
                if 1 <= e && n >= 2 && e <= n - 2 && check_nonempty(&parts, e + 1, n)
                    && n - 1 <= 7 {
                    match parse_groups(&parts, 0, e) {
                        Some(ga) => match parse_groups(&parts, e + 1, n) {
                            Some(gb) => {
                                proof {
                                    lemma_groups_len(pv.subrange(0, e as int));
                                    lemma_groups_len(pv.subrange(e as int + 1, n as int));
                                }
                                let zeros = 8 - ga.len() - gb.len();
                                let padded = pad_groups(&ga, zeros, &gb);
                                proof {
                                    lemma_v6_fits(padded@);
                                }
                                Some(v6_value_of(&padded))
                            },
                            None => None,
                        },
                        None => None,
                    }
                } else {
                    None
                }
            }
        },
    }
}

/// Decides `parse_sockaddr_spec` exactly: the bytes that denote an IPv4
/// socket address in canonical form parse to it, and no others parse.
pub fn parse_sockaddr_bytes(s: &[u8]) -> (r: Option<EndpointAddress>)
    ensures
        r == parse_sockaddr_spec(s@),
{
    let n0 = s.len();
    if n0 >= 1 && s[0] == 91 {
        let close = match find_byte(s, 93) {
            Some(i) => i,
            None => {
                return None;
            },
        };
        proof {
            lemma_first_index_range(s@, 93);
        }
        if close + 1 >= n0 {
            return None;
        }
        if s[close + 1] != 58 {
            return None;
        }
        let inner = slice_subrange(s, 1, close);
        let port_part = slice_subrange(s, close + 2, n0);
        let v = match parse_ipv6(inner) {
            Some(v) => v,
            None => {
                return None;
            },
        };
        let port = match parse_dec(port_part, 65535) {
            Some(p) => p,
            None => {
                return None;
            },
        };
        return Some(EndpointAddress { ip: IpAddr::V6(v), port: port as u16 });
    }
    let ghost parts = split_on(s@, 58);
    let n = s.len();
    let colon = match find_byte(s, 58) {
        Some(i) => i,
        None => {
            proof {
                assert(parts.len() == 1);
            }
            return None;
        },
    };
    let ip_part = slice_subrange(s, 0, colon);
    let port_part = slice_subrange(s, colon + 1, n);
    proof {
        assert(parts == seq![ip_part@] + split_on(port_part@, 58));
    }
    match find_byte(port_part, 58) {
        Some(j) => {
            proof {
                lemma_split_on_nonempty(port_part@.subrange(j as int + 1, port_part@.len() as int), 58);
                assert(parts.len() >= 3);
            }
            return None;
        },
        None => {},
    }
    proof {
        assert(parts =~= seq![ip_part@, port_part@]);
    }
    let ip = match parse_ipv4(ip_part) {
        Some(v) => v,
        None => {
            return None;
        },
    };
    let port = match parse_dec(port_part, 65535) {
        Some(v) => v,
        None => {
            return None;
        },
    };
    Some(EndpointAddress { ip: IpAddr::V4(ip), port: port as u16 })
}

/// Parses the text of an IPv4 socket address.
pub fn parse_sockaddr(s: &str) -> (r: Option<EndpointAddress>)
    ensures
        r == parse_sockaddr_spec(s.spec_bytes()),
{
    parse_sockaddr_bytes(s.as_bytes())
}

} // verus!
