//! CIDR masks: reading IPv4 and IPv6 addresses as the standard library's
//! `FromStr` for `Ipv4Addr` and `Ipv6Addr` reads them, cutting addresses
//! down to a prefix length, and matching addresses (with an optional
//! `user@` part) against masks.

use vstd::prelude::*;
use vstd::string::StringSliceAdditionalSpecFns;
use crate::hashcomp::{ascii_case_insensitive_map, fold};
use crate::wildcard::{glob_match, match_internal};

verus! {

/// The family of an address.
#[derive(PartialEq, Eq, Structural, Clone, Copy, Debug)]
pub enum Family {
    V4,
    V6,
}

/// The byte at `i`, where there is one.
pub open spec fn byte_at(s: Seq<u8>, i: int) -> Option<u8> {
    if 0 <= i < s.len() {
        Some(s[i])
    } else {
        None
    }
}

/// The value of a digit in the radix (10 or 16), where the byte is one.
pub open spec fn digit_value(b: u8, hex: bool) -> Option<int> {
    if '0' as u8 <= b <= '9' as u8 {
        Some(b - '0' as u8)
    } else if hex && 'a' as u8 <= b <= 'f' as u8 {
        Some(b - 'a' as u8 + 10)
    } else if hex && 'A' as u8 <= b <= 'F' as u8 {
        Some(b - 'A' as u8 + 10)
    } else {
        None
    }
}

/// How many digits follow from `pos` on.
pub open spec fn digit_run(s: Seq<u8>, pos: int, hex: bool) -> nat
    decreases s.len() - pos,
{
    if pos < 0 || pos >= s.len() || digit_value(s[pos], hex) is None {
        0
    } else {
        1 + digit_run(s, pos + 1, hex)
    }
}

/// The value of the `k` digits from `pos` on.
pub open spec fn digits_value(s: Seq<u8>, pos: int, k: nat, hex: bool) -> int
    decreases k,
{
    if k == 0 {
        0
    } else {
        digits_value(s, pos, (k - 1) as nat, hex) * (if hex { 16int } else { 10int })
            + match digit_value(s[pos + k - 1], hex) {
            Some(d) => d,
            None => 0,
        }
    }
}

/// An IPv4 octet at `pos`: one to three decimal digits, no leading zero
/// unless the octet is 0, at most 255; with the position after it.
pub open spec fn read_octet(s: Seq<u8>, pos: int) -> Option<(u8, int)> {
    let k = digit_run(s, pos, false);
    if k == 0 || k > 3 {
        None
    } else if digits_value(s, pos, k, false) > 255 {
        None
    } else if s[pos] == '0' as u8 && k > 1 {
        None
    } else {
        Some((digits_value(s, pos, k, false) as u8, pos + k))
    }
}

/// An IPv4 address at `pos`: four octets separated by dots; with the
/// position after it.
pub open spec fn read_ipv4(s: Seq<u8>, pos: int) -> Option<(Seq<u8>, int)> {
    match read_octet(s, pos) {
        None => None,
        Some((a, p1)) => if byte_at(s, p1) != Some('.' as u8) {
            None
        } else {
            match read_octet(s, p1 + 1) {
                None => None,
                Some((b, p2)) => if byte_at(s, p2) != Some('.' as u8) {
                    None
                } else {
                    match read_octet(s, p2 + 1) {
                        None => None,
                        Some((c, p3)) => if byte_at(s, p3) != Some('.' as u8) {
                            None
                        } else {
                            match read_octet(s, p3 + 1) {
                                None => None,
                                Some((d, p4)) => Some((seq![a, b, c, d], p4)),
                            }
                        },
                    }
                },
            }
        },
    }
}

/// An IPv6 group at `pos`: one to four hex digits; with the position
/// after it.
pub open spec fn read_hex_group(s: Seq<u8>, pos: int) -> Option<(u16, int)> {
    let k = digit_run(s, pos, true);
    if k == 0 || k > 4 {
        None
    } else {
        Some((digits_value(s, pos, k, true) as u16, pos + k))
    }
}

/// Where the group with index `i` begins: at `pos` for the first, after a
/// colon at `pos` for the others.
pub open spec fn group_start(s: Seq<u8>, pos: int, i: int) -> Option<int> {
    if i == 0 {
        Some(pos)
    } else if byte_at(s, pos) == Some(':' as u8) {
        Some(pos + 1)
    } else {
        None
    }
}

/// Reads groups from `pos` on, the group with index `i` first, up to
/// `limit` groups in all: each is a hex group, or, where at least two
/// groups are left, an embedded IPv4 address standing for two groups
/// that ends the groups. Gives the groups, whether an IPv4 address ended
/// them, and the position after them.
pub open spec fn read_groups(s: Seq<u8>, pos: int, i: int, limit: int) -> (Seq<u16>, bool, int)
    decreases limit - i,
{
    if i >= limit {
        (Seq::empty(), false, pos)
    } else {
        let v4 = if i < limit - 1 {
            match group_start(s, pos, i) {
                Some(st) => read_ipv4(s, st),
                None => None,
            }
        } else {
            None
        };
        match v4 {
            Some((o, p)) => (
                seq![(o[0] as int * 256 + o[1]) as u16, (o[2] as int * 256 + o[3]) as u16],
                true,
                p,
            ),
            None => {
                let g = match group_start(s, pos, i) {
                    Some(st) => read_hex_group(s, st),
                    None => None,
                };
                match g {
                    Some((v, p)) => {
                        let r = read_groups(s, p, i + 1, limit);
                        (seq![v] + r.0, r.1, r.2)
                    },
                    None => (Seq::empty(), false, pos),
                }
            },
        }
    }
}

/// `n` zero groups.
pub open spec fn zero_groups(n: int) -> Seq<u16> {
    Seq::new(n as nat, |i: int| 0u16)
}

/// An IPv6 address filling all of `s`: eight groups, or fewer groups
/// before and after a `::` that stands for one or more zero groups; an
/// IPv4 address may end the groups, but not before the `::`.
pub open spec fn parse_ipv6(s: Seq<u8>) -> Option<Seq<u16>> {
    let (head, head_v4, p1) = read_groups(s, 0, 0, 8);
    if head.len() >= 8 {
        if p1 == s.len() {
            Some(head)
        } else {
            None
        }
    } else if head_v4 {
        None
    } else if byte_at(s, p1) != Some(':' as u8) || byte_at(s, p1 + 1) != Some(':' as u8) {
        None
    } else {
        let limit = 7 - head.len();
        let (tail, _, p3) = read_groups(s, p1 + 2, 0, limit);
        if p3 != s.len() || head.len() + tail.len() > 7 {
            None
        } else {
            Some(head + zero_groups(8 - head.len() - tail.len()) + tail)
        }
    }
}

/// An IPv4 address filling all of `s`.
pub open spec fn parse_ipv4(s: Seq<u8>) -> Option<Seq<u8>> {
    match read_ipv4(s, 0) {
        Some((o, p)) => if p == s.len() {
            Some(o)
        } else {
            None
        },
        None => None,
    }
}

/// The 16 bytes of eight groups, most significant first.
pub open spec fn group_bytes(g: Seq<u16>) -> Seq<u8> {
    Seq::new(16, |i: int| if i % 2 == 0 { (g[i / 2] / 256) as u8 } else { (g[i / 2] % 256) as u8 })
}

/// An address as its bytes and family: IPv4 where `s` is one, else IPv6.
pub open spec fn spec_parse_ip(s: Seq<u8>) -> Option<(Seq<u8>, Family)> {
    match parse_ipv4(s) {
        Some(o) => Some((o, Family::V4)),
        None => match parse_ipv6(s) {
            Some(g) => Some((group_bytes(g), Family::V6)),
            None => None,
        },
    }
}


fn digit_value_of(b: u8, hex: bool) -> (r: Option<u32>)
    ensures
        match digit_value(b, hex) {
            Some(d) => r == Some(d as u32) && d < (if hex { 16int } else { 10int }),
            None => r is None,
        },
{
    if '0' as u8 <= b && b <= '9' as u8 {
        Some((b - '0' as u8) as u32)
    } else if hex && 'a' as u8 <= b && b <= 'f' as u8 {
        Some((b - 'a' as u8 + 10) as u32)
    } else if hex && 'A' as u8 <= b && b <= 'F' as u8 {
        Some((b - 'A' as u8 + 10) as u32)
    } else {
        None
    }
}

fn digit_run_of(s: &[u8], pos: usize, hex: bool) -> (r: usize)
    requires
        pos <= s@.len(),
    ensures
        r == digit_run(s@, pos as int, hex),
        pos + r <= s@.len(),
{
    let mut i = pos;
    while i < s.len() && digit_value_of(s[i], hex).is_some()
        invariant
            pos <= i <= s@.len(),
            digit_run(s@, pos as int, hex) == (i - pos) + digit_run(s@, i as int, hex),
        decreases s.len() - i,
    {
        i = i + 1;
    }
    i - pos
}

/// `base` to the power `k`.
pub open spec fn power(base: int, k: nat) -> int
    decreases k,
{
    if k == 0 {
        1
    } else {
        base * power(base, (k - 1) as nat)
    }
}

fn digits_value_of(s: &[u8], pos: usize, k: usize, hex: bool) -> (r: u32)
    requires
        pos + k <= s@.len(),
        k <= 4,
        forall|j: int| pos <= j < pos + k ==> digit_value(#[trigger] s@[j], hex) is Some,
    ensures
        r == digits_value(s@, pos as int, k as nat, hex),
        r < power(if hex { 16int } else { 10int }, k as nat),
{
    let base: u32 = if hex { 16 } else { 10 };
    let ghost b = base as int;
    let n = s.len();
    let mut v: u32 = 0;
    let mut j: usize = 0;
    proof {
        reveal_with_fuel(power, 5);
    }
    while j < k
        invariant
            n == s@.len(),
            pos + k <= s@.len(),
            k <= 4,
            j <= k,
            b == (if hex { 16int } else { 10int }),
            base == b,
            forall|m: int| pos <= m < pos + k ==> digit_value(#[trigger] s@[m], hex) is Some,
            v == digits_value(s@, pos as int, j as nat, hex),
            v < power(b, j as nat),
            power(b, j as nat) <= 65536,
        decreases k - j,
    {
        assert(digit_value(s@[pos + j], hex) is Some);
        let d = match digit_value_of(s[pos + j], hex) {
            Some(d) => d,
            None => 0,
        };
        proof {
            assert(power(b, (j + 1) as nat) == b * power(b, j as nat));
            assert(v * b + d < b * power(b, j as nat)) by (nonlinear_arith)
                requires
                    v < power(b, j as nat),
                    0 <= d < b,
                    b > 0,
            ;
            assert(power(b, (j + 1) as nat) <= 65536) by {
                reveal_with_fuel(power, 5);
                assert(j + 1 <= 4);
                assert(b <= 16);
                if j + 1 == 1 {
                    assert(power(b, 1) == b);
                } else if j + 1 == 2 {
                    assert(power(b, 2) == b * b);
                    assert(b * b <= 256) by (nonlinear_arith) requires b <= 16, b >= 0;
                } else if j + 1 == 3 {
                    assert(power(b, 3) == b * (b * b));
                    assert(b * (b * b) <= 4096) by (nonlinear_arith) requires b <= 16, b >= 0;
                } else {
                    assert(power(b, 4) == b * (b * (b * b)));
                    assert(b * (b * (b * b)) <= 65536) by (nonlinear_arith) requires b <= 16, b >= 0;
                }
            }
        }
        v = v * base + d;
        j = j + 1;
    }
    v
}

fn read_octet_of(s: &[u8], pos: usize) -> (r: Option<(u8, usize)>)
    requires
        pos <= s@.len(),
    ensures
        r matches Some((_, q)) ==> pos <= q <= s@.len(),
        match read_octet(s@, pos as int) {
            Some((o, p)) => r == Some((o, p as usize)) && pos <= p <= s@.len(),
            None => r is None,
        },
{
    let _len = s.len();
    let k = digit_run_of(s, pos, false);
    if k == 0 || k > 3 {
        return None;
    }
    proof {
        lemma_digit_run(s@, pos as int, false);
    }
    let v = digits_value_of(s, pos, k, false);
    if v > 255 {
        return None;
    }
    if s[pos] == '0' as u8 && k > 1 {
        return None;
    }
    Some((v as u8, pos + k))
}

proof fn lemma_digit_run(s: Seq<u8>, pos: int, hex: bool)
    requires
        0 <= pos,
    ensures
        forall|j: int| pos <= j < pos + digit_run(s, pos, hex) ==> digit_value(#[trigger] s[j], hex) is Some,
        pos + digit_run(s, pos, hex) <= s.len() || digit_run(s, pos, hex) == 0,
    decreases s.len() - pos,
{
    if pos < s.len() && digit_value(s[pos], hex) is Some {
        lemma_digit_run(s, pos + 1, hex);
    }
}

fn is_byte(s: &[u8], i: usize, b: u8) -> (r: bool)
    ensures
        r == (byte_at(s@, i as int) == Some(b)),
        r ==> i < s@.len(),
{
    i < s.len() && s[i] == b
}

fn read_ipv4_of(s: &[u8], pos: usize) -> (r: Option<(Vec<u8>, usize)>)
    requires
        pos <= s@.len(),
    ensures
        match read_ipv4(s@, pos as int) {
            Some((o, p)) => r matches Some((v, q)) && v@ == o && q == p && pos <= p <= s@.len() && o.len() == 4,
            None => r is None,
        },
{
    let _len = s.len();
    let (a, p1) = match read_octet_of(s, pos) {
        Some(x) => x,
        None => return None,
    };
    if !is_byte(s, p1, '.' as u8) {
        return None;
    }
    let (b, p2) = match read_octet_of(s, p1 + 1) {
        Some(x) => x,
        None => return None,
    };
    if !is_byte(s, p2, '.' as u8) {
        return None;
    }
    let (c, p3) = match read_octet_of(s, p2 + 1) {
        Some(x) => x,
        None => return None,
    };
    if !is_byte(s, p3, '.' as u8) {
        return None;
    }
    let (d, p4) = match read_octet_of(s, p3 + 1) {
        Some(x) => x,
        None => return None,
    };
    let mut v: Vec<u8> = Vec::new();
    v.push(a);
    v.push(b);
    v.push(c);
    v.push(d);
    proof {
        assert(v@ =~= seq![a, b, c, d]);
    }
    Some((v, p4))
}

fn read_hex_group_of(s: &[u8], pos: usize) -> (r: Option<(u16, usize)>)
    requires
        pos <= s@.len(),
    ensures
        r matches Some((_, q)) ==> pos <= q <= s@.len(),
        match read_hex_group(s@, pos as int) {
            Some((g, p)) => r == Some((g, p as usize)) && pos <= p <= s@.len(),
            None => r is None,
        },
{
    let _len = s.len();
    let k = digit_run_of(s, pos, true);
    if k == 0 || k > 4 {
        return None;
    }
    proof {
        lemma_digit_run(s@, pos as int, true);
    }
    let v = digits_value_of(s, pos, k, true);
    proof {
        reveal_with_fuel(power, 5);
        assert(power(16, k as nat) <= 65536) by {
            reveal_with_fuel(power, 5);
        }
    }
    Some((v as u16, pos + k))
}

fn group_start_of(s: &[u8], pos: usize, i: usize) -> (r: Option<usize>)
    requires
        pos <= s@.len(),
    ensures
        r matches Some(q) ==> pos <= q <= s@.len(),
        match group_start(s@, pos as int, i as int) {
            Some(st) => r == Some(st as usize) && pos <= st <= s@.len(),
            None => r is None,
        },
{
    let _len = s.len();
    if i == 0 {
        Some(pos)
    } else if is_byte(s, pos, ':' as u8) {
        Some(pos + 1)
    } else {
        None
    }
}

fn read_groups_of(s: &[u8], pos: usize, i: usize, limit: usize) -> (r: (Vec<u16>, bool, usize))
    requires
        pos <= s@.len(),
    ensures
        (r.0@, r.1, r.2 as int) == read_groups(s@, pos as int, i as int, limit as int),
        r.2 <= s@.len(),
        i <= limit ==> r.0@.len() <= limit - i,
    decreases limit - i,
{
    let _len = s.len();
    if i >= limit {
        return (Vec::new(), false, pos);
    }
    if i < limit - 1 {
        match group_start_of(s, pos, i) {
            Some(st) => match read_ipv4_of(s, st) {
                Some((o, p)) => {
                    let mut g: Vec<u16> = Vec::new();
                    g.push((o[0] as u16) * 256 + o[1] as u16);
                    g.push((o[2] as u16) * 256 + o[3] as u16);
                    proof {
                        assert(g@ =~= seq![(o@[0] as int * 256 + o@[1]) as u16, (o@[2] as int * 256 + o@[3]) as u16]);
                    }
                    return (g, true, p);
                },
                None => {},
            },
            None => {},
        }
    }
    let g = match group_start_of(s, pos, i) {
        Some(st) => read_hex_group_of(s, st),
        None => None,
    };
    match g {
        Some((v, p)) => {
            let (rest, v4, q) = read_groups_of(s, p, i + 1, limit);
            let mut out: Vec<u16> = Vec::new();
            out.push(v);
            let mut j: usize = 0;
            while j < rest.len()
                invariant
                    j <= rest@.len(),
                    out@ == seq![v] + rest@.take(j as int),
                decreases rest.len() - j,
            {
                out.push(rest[j]);
                proof {
                    assert(rest@.take(j + 1) =~= rest@.take(j as int).push(rest@[j as int]));
                }
                j = j + 1;
            }
            proof {
                assert(rest@.take(j as int) =~= rest@);
            }
            (out, v4, q)
        },
        None => (Vec::new(), false, pos),
    }
}

fn parse_ipv4_of(s: &[u8]) -> (r: Option<Vec<u8>>)
    ensures
        match parse_ipv4(s@) {
            Some(o) => r matches Some(v) && v@ == o,
            None => r is None,
        },
{
    match read_ipv4_of(s, 0) {
        Some((o, p)) => if p == s.len() {
            Some(o)
        } else {
            None
        },
        None => None,
    }
}

fn parse_ipv6_of(s: &[u8]) -> (r: Option<Vec<u16>>)
    ensures
        match parse_ipv6(s@) {
            Some(g) => r matches Some(v) && v@ == g && g.len() == 8,
            None => r is None,
        },
{
    let _len = s.len();
    let (head, head_v4, p1) = read_groups_of(s, 0, 0, 8);
    if head.len() >= 8 {
        if p1 == s.len() {
            return Some(head);
        } else {
            return None;
        }
    }
    if head_v4 {
        return None;
    }
    if !is_byte(s, p1, ':' as u8) || !is_byte(s, p1 + 1, ':' as u8) {
        return None;
    }
    let limit = 7 - head.len();
    let (tail, _v4, p3) = read_groups_of(s, p1 + 2, 0, limit);
    if p3 != s.len() || head.len() + tail.len() > 7 {
        return None;
    }
    let zeros = 8 - head.len() - tail.len();
    let mut out: Vec<u16> = Vec::new();
    let mut j: usize = 0;
    while j < head.len()
        invariant
            j <= head@.len(),
            out@ == head@.take(j as int),
        decreases head.len() - j,
    {
        out.push(head[j]);
        proof {
            assert(head@.take(j + 1) =~= head@.take(j as int).push(head@[j as int]));
        }
        j = j + 1;
    }
    let mut z: usize = 0;
    while z < zeros
        invariant
            z <= zeros,
            j == head@.len(),
            out@ == head@.take(j as int) + zero_groups(z as int),
        decreases zeros - z,
    {
        out.push(0);
        proof {
            assert(zero_groups((z + 1) as int) =~= zero_groups(z as int).push(0u16));
            assert(head@.take(j as int) + zero_groups(z as int).push(0u16) =~= (head@.take(j as int)
                + zero_groups(z as int)).push(0u16));
        }
        z = z + 1;
    }
    let mut t: usize = 0;
    while t < tail.len()
        invariant
            t <= tail@.len(),
            j == head@.len(),
            z == zeros,
            out@ == head@.take(j as int) + zero_groups(z as int) + tail@.take(t as int),
        decreases tail.len() - t,
    {
        out.push(tail[t]);
        proof {
            assert(tail@.take(t + 1) =~= tail@.take(t as int).push(tail@[t as int]));
        }
        t = t + 1;
    }
    proof {
        assert(head@.take(j as int) =~= head@);
        assert(tail@.take(t as int) =~= tail@);
    }
    Some(out)
}

/// Reads an address, given as bytes, as its bytes and family.
pub fn parse_ip_bytes(s: &[u8]) -> (r: Option<(Vec<u8>, Family)>)
    ensures
        match spec_parse_ip(s@) {
            Some((b, f)) => r matches Some((v, g)) && v@ == b && g == f,
            None => r is None,
        },
{
    match parse_ipv4_of(s) {
        Some(o) => Some((o, Family::V4)),
        None => match parse_ipv6_of(s) {
            Some(g) => {
                let mut v: Vec<u8> = Vec::new();
                let mut i: usize = 0;
                while i < 16
                    invariant
                        g@.len() == 8,
                        i <= 16,
                        v@ == group_bytes(g@).take(i as int),
                    decreases 16 - i,
                {
                    let x = g[i / 2];
                    let b: u8 = if i % 2 == 0 { (x / 256) as u8 } else { (x % 256) as u8 };
                    v.push(b);
                    proof {
                        assert(group_bytes(g@).take(i + 1) =~= group_bytes(g@).take(i as int).push(b));
                    }
                    i = i + 1;
                }
                proof {
                    assert(group_bytes(g@).take(16) =~= group_bytes(g@));
                }
                Some((v, Family::V6))
            },
            None => None,
        },
    }
}

/// Reads an address as its bytes and family.
pub fn parse_ip_address(addr: &str) -> (r: Option<(Vec<u8>, Family)>)
    ensures
        match spec_parse_ip(addr.spec_bytes()) {
            Some((b, f)) => r matches Some((v, g)) && v@ == b && g == f,
            None => r is None,
        },
{
    parse_ip_bytes(addr.as_bytes())
}

/// The last position of `b` among the first `n` bytes of `s`.
pub open spec fn last_index_before(s: Seq<u8>, b: u8, n: int) -> Option<int>
    decreases n,
{
    if n <= 0 {
        None
    } else if s[n - 1] == b {
        Some(n - 1)
    } else {
        last_index_before(s, b, n - 1)
    }
}

/// The last position of `b` in `s`.
pub open spec fn last_index(s: Seq<u8>, b: u8) -> Option<int> {
    last_index_before(s, b, s.len() as int)
}

proof fn lemma_last_index_before(s: Seq<u8>, b: u8, n: int)
    requires
        n <= s.len(),
    ensures
        match last_index_before(s, b, n) {
            Some(p) => 0 <= p < n && s[p] == b && forall|j: int| p < j < n ==> s[j] != b,
            None => forall|j: int| 0 <= j < n ==> s[j] != b,
        },
    decreases n,
{
    if n > 0 && s[n - 1] != b {
        lemma_last_index_before(s, b, n - 1);
    }
}

/// The last position of `b` in `s`, as `str::rfind` finds it.
fn rfind_byte(s: &[u8], b: u8) -> (r: Option<usize>)
    ensures
        match last_index(s@, b) {
            Some(p) => r == Some(p as usize) && 0 <= p < s@.len(),
            None => r is None,
        },
        s@.len() <= usize::MAX,
{
    let mut i = s.len();
    while i > 0
        invariant
            i <= s@.len(),
            last_index(s@, b) == last_index_before(s@, b, i as int),
        decreases i,
    {
        if s[i - 1] == b {
            return Some(i - 1);
        }
        i = i - 1;
    }
    None
}

/// A decimal digit.
pub open spec fn is_dec_digit(b: u8) -> bool {
    '0' as u8 <= b <= '9' as u8
}

/// A byte that may stand in the address part of a mask: a hex digit, a dot
/// or a colon.
pub open spec fn is_addr_byte(b: u8) -> bool {
    digit_value(b, true) is Some || b == '.' as u8 || b == ':' as u8
}

/// A mask is malformed when it has a `/` that ends it, or that is followed
/// by anything but decimal digits or preceded by anything but address
/// bytes. (A char outside ASCII is encoded by bytes from 0x80 up, none of
/// which is allowed, so testing the bytes tests the chars.)
pub open spec fn spec_invalid_cidr_format(s: Seq<u8>) -> bool {
    match last_index(s, '/' as u8) {
        None => false,
        Some(p) => p == s.len() - 1
            || (exists|i: int| p < i < s.len() && !is_dec_digit(#[trigger] s[i]))
            || (exists|i: int| 0 <= i < p && !is_addr_byte(#[trigger] s[i])),
    }
}

fn is_invalid_cidr_mask_format(s: &[u8]) -> (r: bool)
    ensures
        r == spec_invalid_cidr_format(s@),
{
    let per_pos = match rfind_byte(s, '/' as u8) {
        Some(p) => p,
        None => return false,
    };
    if per_pos == s.len() - 1 {
        return true;
    }
    let mut i = per_pos + 1;
    while i < s.len()
        invariant
            per_pos < s@.len(),
            last_index(s@, '/' as u8) == Some(per_pos as int),
            per_pos + 1 <= i <= s@.len(),
            forall|j: int| per_pos < j < i ==> is_dec_digit(#[trigger] s@[j]),
        decreases s.len() - i,
    {
        if !('0' as u8 <= s[i] && s[i] <= '9' as u8) {
            assert(!is_dec_digit(s@[i as int]));
            return true;
        }
        i = i + 1;
    }
    let mut k: usize = 0;
    while k < per_pos
        invariant
            per_pos < s@.len(),
            last_index(s@, '/' as u8) == Some(per_pos as int),
            k <= per_pos,
            forall|j: int| 0 <= j < k ==> is_addr_byte(#[trigger] s@[j]),
        decreases per_pos - k,
    {
        let c = s[k];
        if !(digit_value_of(c, true).is_some() || c == '.' as u8 || c == ':' as u8) {
            assert(!is_addr_byte(s@[k as int]));
            return true;
        }
        k = k + 1;
    }
    false
}

/// Where a `+` sign leads, the digits begin after it.
pub open spec fn sign_skip(t: Seq<u8>) -> int {
    if t.len() > 0 && t[0] == '+' as u8 {
        1
    } else {
        0
    }
}

/// `u8::from_str`: an optional `+`, then one or more decimal digits whose
/// value is at most 255.
pub open spec fn spec_parse_u8(t: Seq<u8>) -> Option<u8> {
    let st = sign_skip(t);
    let k = t.len() - st;
    if k <= 0 || (exists|i: int| st <= i < t.len() && !is_dec_digit(#[trigger] t[i])) {
        None
    } else if digits_value(t, st, k as nat, false) > 255 {
        None
    } else {
        Some(digits_value(t, st, k as nat, false) as u8)
    }
}

proof fn lemma_digits_value_grows(s: Seq<u8>, pos: int, j: nat, k: nat, hex: bool)
    requires
        j <= k,
    ensures
        0 <= digits_value(s, pos, j, hex) <= digits_value(s, pos, k, hex),
    decreases k,
{
    if j < k {
        lemma_digits_value_grows(s, pos, j, (k - 1) as nat, hex);
        let b: int = if hex { 16 } else { 10 };
        let v = digits_value(s, pos, (k - 1) as nat, hex);
        assert(v * b >= v) by (nonlinear_arith)
            requires
                v >= 0,
                b >= 1,
        ;
    } else {
        lemma_digits_value_nonneg(s, pos, k, hex);
    }
}

proof fn lemma_digits_value_nonneg(s: Seq<u8>, pos: int, k: nat, hex: bool)
    ensures
        0 <= digits_value(s, pos, k, hex),
    decreases k,
{
    if k > 0 {
        lemma_digits_value_nonneg(s, pos, (k - 1) as nat, hex);
        let b: int = if hex { 16 } else { 10 };
        let v = digits_value(s, pos, (k - 1) as nat, hex);
        assert(v * b >= 0) by (nonlinear_arith)
            requires
                v >= 0,
                b >= 1,
        ;
    }
}

fn parse_u8_of(t: &[u8]) -> (r: Option<u8>)
    ensures
        r == spec_parse_u8(t@),
{
    let n = t.len();
    if n == 0 {
        return None;
    }
    let st: usize = if t[0] == '+' as u8 { 1 } else { 0 };
    if st == n {
        return None;
    }
    let ghost k = (n - st) as nat;
    let mut v: u32 = 0;
    let mut i = st;
    while i < n
        invariant
            n == t@.len(),
            st == sign_skip(t@),
            st < n,
            k == n - st,
            st <= i <= n,
            v == digits_value(t@, st as int, (i - st) as nat, false),
            v <= 255,
            forall|j: int| st <= j < i ==> is_dec_digit(#[trigger] t@[j]),
        decreases n - i,
    {
        let c = t[i];
        if !('0' as u8 <= c && c <= '9' as u8) {
            return None;
        }
        v = v * 10 + (c - '0' as u8) as u32;
        i = i + 1;
        if v > 255 {
            proof {
                assert(digits_value(t@, st as int, (i - st) as nat, false) == v);
                if !(exists|j: int| st <= j < t@.len() && !is_dec_digit(#[trigger] t@[j])) {
                    lemma_digits_value_grows(t@, st as int, (i - st) as nat, k, false);
                }
            }
            return None;
        }
    }
    Some(v as u8)
}

/// The mask byte that keeps the `length % 8` high bits.
pub open spec fn prefix_mask(length: u8) -> u8 {
    ((0xFF00u16 >> (length & 7u8)) & 0xFFu16) as u8
}

/// How many bytes an address of the family has.
pub open spec fn family_len(f: Family) -> int {
    match f {
        Family::V4 => 4,
        Family::V6 => 16,
    }
}

/// Cuts an address down to its first `length` bits: the bytes before bit
/// `length` stay, the byte that holds it keeps its high bits, the bytes
/// after it become zero (within the family's length).
pub open spec fn spec_normalize(b: Seq<u8>, length: u8, f: Family) -> Seq<u8> {
    Seq::new(
        b.len(),
        |i: int|
            if i >= family_len(f) || i < length / 8 {
                b[i]
            } else if i == length / 8 {
                b[i] & prefix_mask(length)
            } else {
                0u8
            },
    )
}

/// Cuts an address down to its first `length` bits.
pub fn normalize_cidr(bytes: &[u8], length: u8, family: Family) -> (r: Vec<u8>)
    requires
        bytes@.len() >= family_len(family),
    ensures
        r@ == spec_normalize(bytes@, length, family),
{
    let mut result = vstd::slice::slice_to_vec(bytes);
    let total_bytes: usize = match family {
        Family::V4 => 4,
        Family::V6 => 16,
    };
    let border = (length / 8) as usize;
    let shift: u8 = length & 7;
    assert(shift < 8) by (bit_vector)
        requires
            shift == length & 7u8,
    ;
    let bitmask: u8 = ((0xFF00u16 >> shift) & 0xFF) as u8;
    let ghost target = spec_normalize(bytes@, length, family);
    let mut i: usize = 0;
    while i < total_bytes
        invariant
            total_bytes == family_len(family),
            total_bytes <= bytes@.len(),
            result@.len() == bytes@.len(),
            border == length / 8,
            bitmask == prefix_mask(length),
            i <= total_bytes,
            target == spec_normalize(bytes@, length, family),
            forall|j: int| 0 <= j < i ==> result@[j] == #[trigger] target[j],
            forall|j: int| i <= j < result@.len() ==> result@[j] == #[trigger] bytes@[j],
        decreases total_bytes - i,
    {
        if i < border {
        } else if i == border {
            let x = result[i] & bitmask;
            result.set(i, x);
        } else {
            result.set(i, 0);
        }
        i = i + 1;
    }
    proof {
        assert(result@ =~= target);
    }
    result
}

/// A mask as its cut-down bytes, prefix length and family: the address
/// before the last `/` with the length after it, or, with no `/`, the
/// whole address at its full length.
pub open spec fn spec_parse_cidr_mask(c: Seq<u8>) -> Option<(Seq<u8>, u8, Family)> {
    match last_index(c, '/' as u8) {
        Some(p) => match spec_parse_u8(c.subrange(p + 1, c.len() as int)) {
            None => None,
            Some(len) => match spec_parse_ip(c.subrange(0, p)) {
                Some((b, f)) => Some((spec_normalize(b, len, f), len, f)),
                None => None,
            },
        },
        None => match spec_parse_ip(c) {
            Some((b, f)) => {
                let len: u8 = if f == Family::V4 { 32 } else { 128 };
                Some((spec_normalize(b, len, f), len, f))
            },
            None => None,
        },
    }
}

proof fn lemma_parse_ip_len(s: Seq<u8>)
    ensures
        spec_parse_ip(s) matches Some((b, f)) ==> b.len() == family_len(f),
{
}

fn parse_cidr_mask(c: &[u8]) -> (r: Option<(Vec<u8>, u8, Family)>)
    ensures
        match spec_parse_cidr_mask(c@) {
            Some((b, l, f)) => r matches Some((v, m, g)) && v@ == b && m == l && g == f,
            None => r is None,
        },
{
    let _len = c.len();
    match rfind_byte(c, '/' as u8) {
        Some(pos) => {
            let addr_part = vstd::slice::slice_subrange(c, 0, pos);
            let length_part = vstd::slice::slice_subrange(c, pos + 1, c.len());
            let length = match parse_u8_of(length_part) {
                Some(l) => l,
                None => return None,
            };
            match parse_ip_bytes(addr_part) {
                Some((bytes, family)) => {
                    proof {
                        lemma_parse_ip_len(addr_part@);
                    }
                    let normalized = normalize_cidr(&bytes, length, family);
                    Some((normalized, length, family))
                },
                None => None,
            }
        },
        None => match parse_ip_bytes(c) {
            Some((bytes, family)) => {
                proof {
                    lemma_parse_ip_len(c@);
                }
                let length: u8 = match family {
                    Family::V4 => 32,
                    Family::V6 => 128,
                };
                let normalized = normalize_cidr(&bytes, length, family);
                Some((normalized, length, family))
            },
            None => None,
        },
    }
}

/// Whether two byte strings are equal.
fn bytes_equal(a: &[u8], b: &[u8]) -> (r: bool)
    ensures
        r == (a@ == b@),
{
    if a.len() != b.len() {
        return false;
    }
    let mut i: usize = 0;
    while i < a.len()
        invariant
            a@.len() == b@.len(),
            i <= a@.len(),
            forall|j: int| 0 <= j < i ==> a@[j] == b@[j],
        decreases a.len() - i,
    {
        if a[i] != b[i] {
            return false;
        }
        i = i + 1;
    }
    proof {
        assert(a@ =~= b@);
    }
    true
}

/// An address lies inside a mask: both read, of one family, and the
/// address cut down to the mask's length equals the mask cut down.
pub open spec fn spec_cidr_match_normalized(a: Seq<u8>, c: Seq<u8>) -> bool {
    match (spec_parse_ip(a), spec_parse_cidr_mask(c)) {
        (Some((ab, af)), Some((mb, ml, mf))) => af == mf && spec_normalize(ab, ml, af) == mb,
        _ => false,
    }
}

fn cidr_match_normalized(address: &[u8], cidr: &[u8]) -> (r: bool)
    ensures
        r == spec_cidr_match_normalized(address@, cidr@),
{
    let (addr_bytes, addr_family) = match parse_ip_bytes(address) {
        Some(x) => x,
        None => return false,
    };
    let (mask_bytes, mask_length, mask_family) = match parse_cidr_mask(cidr) {
        Some(x) => x,
        None => return false,
    };
    if addr_family != mask_family {
        return false;
    }
    proof {
        lemma_parse_ip_len(address@);
    }
    let normalized_addr = normalize_cidr(&addr_bytes, mask_length, addr_family);
    bytes_equal(&normalized_addr, &mask_bytes)
}

/// The ASCII case-insensitive map as a sequence of its 256 entries.
pub open spec fn ascii_map_seq() -> Seq<u8> {
    Seq::new(256, |i: int| fold(i as u8))
}

/// What follows the last `@` of `s`, or all of `s` where it has none.
pub open spec fn after_last_at(s: Seq<u8>) -> Seq<u8> {
    match last_index(s, '@' as u8) {
        Some(p) => s.subrange(p + 1, s.len() as int),
        None => s,
    }
}

/// A host address against a mask: the mask is well formed and the address
/// lies inside it.
pub open spec fn spec_match_cidr_host(a: Seq<u8>, c: Seq<u8>) -> bool {
    !spec_invalid_cidr_format(c) && spec_cidr_match_normalized(a, c)
}

/// Matching an address against a CIDR mask. With user names in play and an
/// `@` in both, the parts before the last `@` must match as a wildcard
/// pattern (ASCII case-insensitively) and the parts after it as CIDR;
/// otherwise what follows the last `@` of each is matched as CIDR.
pub open spec fn spec_match_cidr(a: Seq<u8>, c: Seq<u8>, with_user: bool) -> bool {
    if with_user {
        match (last_index(c, '@' as u8), last_index(a, '@' as u8)) {
            (Some(pm), Some(pa)) => glob_match(ascii_map_seq(), a.subrange(0, pa), c.subrange(0, pm))
                && spec_match_cidr_host(
                a.subrange(pa + 1, a.len() as int),
                c.subrange(pm + 1, c.len() as int),
            ),
            _ => spec_match_cidr_host(after_last_at(a), after_last_at(c)),
        }
    } else {
        spec_match_cidr_host(a, c)
    }
}

fn match_cidr_host(address: &[u8], cidr: &[u8]) -> (r: bool)
    ensures
        r == spec_match_cidr_host(address@, cidr@),
{
    if is_invalid_cidr_mask_format(cidr) {
        return false;
    }
    cidr_match_normalized(address, cidr)
}

fn slice_after_last_at(s: &[u8]) -> (r: &[u8])
    ensures
        r@ == after_last_at(s@),
{
    let start = match rfind_byte(s, '@' as u8) {
        Some(i) => i + 1,
        None => 0,
    };
    let r = vstd::slice::slice_subrange(s, start, s.len());
    proof {
        if last_index(s@, '@' as u8) is None {
            assert(r@ =~= s@);
        }
    }
    r
}

/// Matches an address against a CIDR mask, e.g. `127.0.0.1` against
/// `127.0.0.0/8` or `3ffe:1:5:6::8` against `3ffe:1::0/32`; with
/// `match_with_username`, a leading `user@` on both is matched as a
/// wildcard pattern. The address holds no NUL byte, as a C string cannot.
pub fn rust_match_cidr_str(address: &str, cidr_mask: &str, match_with_username: bool) -> (r: bool)
    requires
        forall|i: int| 0 <= i < address.spec_bytes().len() ==> #[trigger] address.spec_bytes()[i] != 0,
    ensures
        r == spec_match_cidr(address.spec_bytes(), cidr_mask.spec_bytes(), match_with_username),
{
    match_cidr_bytes(address.as_bytes(), cidr_mask.as_bytes(), match_with_username)
}

/// `rust_match_cidr_str` on the bytes of the address and the mask.
pub fn match_cidr_bytes(address: &[u8], cidr_mask: &[u8], match_with_username: bool) -> (r: bool)
    requires
        forall|i: int| 0 <= i < address@.len() ==> #[trigger] address@[i] != 0,
    ensures
        r == spec_match_cidr(address@, cidr_mask@, match_with_username),
{
    if match_with_username {
        let username_mask_pos = rfind_byte(cidr_mask, '@' as u8);
        let username_addr_pos = rfind_byte(address, '@' as u8);
        match (username_mask_pos, username_addr_pos) {
            (Some(pm), Some(pa)) => {
                let map = ascii_case_insensitive_map();
                let user_a = vstd::slice::slice_subrange(address, 0, pa);
                let user_m = vstd::slice::slice_subrange(cidr_mask, 0, pm);
                proof {
                    assert(map@ =~= ascii_map_seq());
                    assert forall|i: int| 0 <= i < user_a@.len() implies map@[user_a@[i] as int]
                        != map@[0] by {
                        assert(user_a@[i] == address@[i]);
                    }
                }
                if !match_internal(user_a, user_m, map.as_slice()) {
                    return false;
                }
                let host_a = vstd::slice::slice_subrange(address, pa + 1, address.len());
                let host_m = vstd::slice::slice_subrange(cidr_mask, pm + 1, cidr_mask.len());
                return match_cidr_host(host_a, host_m);
            },
            _ => {},
        }
        let a = slice_after_last_at(address);
        let c = slice_after_last_at(cidr_mask);
        match_cidr_host(a, c)
    } else {
        match_cidr_host(address, cidr_mask)
    }
}

} // verus!
