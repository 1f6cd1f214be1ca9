//! IP addresses and socket addresses, and the grammar of IP literals.
//!
//! A literal is read as Rust's `IpAddr` parser reads it: IPv4 as four
//! decimal octets without leading zeros; IPv6 as colon-separated groups of
//! one to four hex digits, with at most one `::` standing for one or more
//! zero groups, and optionally an IPv4 address in place of the last two
//! groups.

use vstd::prelude::*;
use crate::text::{
    all_digits, copy_range, digits_value, is_digit, parse_unsigned, split_chars, split_on,
};

verus! {

/// An IP address: IPv4 as its 32-bit value, IPv6 as its 128-bit value
/// (first group most significant).
#[derive(PartialEq, Eq, Structural, Clone, Copy, Debug)]
pub enum IpAddress {
    V4(u32),
    V6(u128),
}

/// An IP address with a port.
#[derive(PartialEq, Eq, Structural, Clone, Copy, Debug)]
pub struct SocketAddress {
    pub ip: IpAddress,
    pub port: u16,
}

impl IpAddress {
    /// The IPv4 address `a.b.c.d`.
    pub fn v4(a: u8, b: u8, c: u8, d: u8) -> (r: IpAddress)
        ensures
            r == IpAddress::V4((((a as int * 256 + b) * 256 + c) * 256 + d) as u32),
    {
        let v: u32 = ((a as u32 * 256 + b as u32) * 256 + c as u32) * 256 + d as u32;
        IpAddress::V4(v)
    }

    /// The IPv6 address with the eight 16-bit groups given, first to last.
    pub fn v6(g0: u16, g1: u16, g2: u16, g3: u16, g4: u16, g5: u16, g6: u16, g7: u16) -> (r:
        IpAddress)
        ensures
            r == IpAddress::V6(
                groups_number(seq![g0 as nat, g1 as nat, g2 as nat, g3 as nat, g4 as nat, g5 as nat, g6 as nat, g7 as nat]) as u128,
            ),
    {
        let mut g: Vec<u16> = Vec::new();
        g.push(g0);
        g.push(g1);
        g.push(g2);
        g.push(g3);
        g.push(g4);
        g.push(g5);
        g.push(g6);
        g.push(g7);
        let v = fold_groups(&g);
        assert(widen(g@) =~= seq![g0 as nat, g1 as nat, g2 as nat, g3 as nat, g4 as nat, g5 as nat, g6 as nat, g7 as nat]);
        IpAddress::V6(v)
    }
}

impl SocketAddress {
    pub fn new(ip: IpAddress, port: u16) -> (r: SocketAddress)
        ensures
            r.ip == ip,
            r.port == port,
    {
        SocketAddress { ip, port }
    }
}

/// 65536 to the power `k`.
pub open spec fn group_power(k: nat) -> nat
    decreases k,
{
    if k == 0 {
        1
    } else {
        group_power((k - 1) as nat) * 65536
    }
}

/// The number that 16-bit groups write, first group most significant.
pub open spec fn groups_number(g: Seq<nat>) -> nat
    decreases g.len(),
{
    if g.len() == 0 {
        0
    } else {
        groups_number(g.drop_last()) * 65536 + g.last()
    }
}

pub open spec fn widen(g: Seq<u16>) -> Seq<nat> {
    g.map_values(|x: u16| x as nat)
}

proof fn lemma_groups_number_bound(g: Seq<nat>)
    requires
        forall|i: int| 0 <= i < g.len() ==> #[trigger] g[i] < 65536,
    ensures
        groups_number(g) < group_power(g.len()),
    decreases g.len(),
{
    if g.len() > 0 {
        let init = g.drop_last();
        assert forall|i: int| 0 <= i < init.len() implies #[trigger] init[i] < 65536 by {
            assert(init[i] == g[i]);
        }
        lemma_groups_number_bound(init);
        let a = groups_number(init);
        let p = group_power(init.len());
        let x = g.last();
        assert(x < 65536);
        assert(a * 65536 + x < p * 65536) by (nonlinear_arith)
            requires
                a < p,
                x < 65536,
        ;
    }
}

/// The value of eight or fewer 16-bit groups.
fn fold_groups(g: &Vec<u16>) -> (r: u128)
    requires
        g@.len() <= 8,
    ensures
        r as nat == groups_number(widen(g@)),
{
    let mut acc: u128 = 0;
    let mut i: usize = 0;
    while i < g.len()
        invariant
            i <= g@.len() <= 8,
            acc as nat == groups_number(widen(g@.subrange(0, i as int))),
        decreases g@.len() - i,
    {
        let ghost pre = widen(g@.subrange(0, i as int));
        let ghost next = widen(g@.subrange(0, i + 1));
        assert(next.drop_last() =~= pre);
        assert(next.last() == g@[i as int] as nat);
        proof {
            assert forall|j: int| 0 <= j < next.len() implies #[trigger] next[j] < 65536 by {}
            lemma_groups_number_bound(next);
            reveal_with_fuel(group_power, 9);
            assert(group_power(next.len()) <= group_power(8)) by {
                reveal_with_fuel(group_power, 9);
            }
        }
        acc = acc * 65536 + g[i] as u128;
        i = i + 1;
    }
    assert(g@.subrange(0, i as int) =~= g@);
    acc
}

pub open spec fn is_hex_digit(c: char) -> bool {
    is_digit(c) || ('a' <= c && c <= 'f') || ('A' <= c && c <= 'F')
}

pub open spec fn hex_digit_value(c: char) -> nat {
    if is_digit(c) {
        (c as u32 - '0' as u32) as nat
    } else if 'a' <= c && c <= 'f' {
        (c as u32 - 'a' as u32 + 10) as nat
    } else {
        (c as u32 - 'A' as u32 + 10) as nat
    }
}

pub open spec fn hex_value(s: Seq<char>) -> nat
    decreases s.len(),
{
    if s.len() == 0 {
        0
    } else {
        hex_value(s.drop_last()) * 16 + hex_digit_value(s.last())
    }
}

/// An IPv6 group: one to four hex digits.
pub open spec fn hex_group(s: Seq<char>) -> Option<nat> {
    if 1 <= s.len() <= 4 && forall|i: int| 0 <= i < s.len() ==> is_hex_digit(#[trigger] s[i]) {
        Some(hex_value(s))
    } else {
        None
    }
}

/// An IPv4 octet: one to three decimal digits, no leading zero, at most 255.
pub open spec fn octet(s: Seq<char>) -> Option<nat> {
    if 1 <= s.len() <= 3 && all_digits(s) && (s.len() == 1 || s[0] != '0') && digits_value(s)
        <= 255 {
        Some(digits_value(s))
    } else {
        None
    }
}

/// The 32-bit value of IPv4 text.
pub open spec fn ipv4_value(s: Seq<char>) -> Option<nat> {
    let p = split_on(s, '.');
    if p.len() == 4 && octet(p[0]) is Some && octet(p[1]) is Some && octet(p[2]) is Some && octet(
        p[3],
    ) is Some {
        Some(
            ((octet(p[0])->0 * 256 + octet(p[1])->0) * 256 + octet(p[2])->0) * 256 + octet(
                p[3],
            )->0,
        )
    } else {
        None
    }
}

/// The groups that colon-separated IPv6 text holds; where `tail` holds, the
/// last piece may be IPv4 text, which stands for two groups. Empty text
/// holds no groups.
pub open spec fn ipv6_groups(s: Seq<char>, tail: bool) -> Option<Seq<nat>> {
    let p = split_on(s, ':');
    let n = p.len();
    if s.len() == 0 {
        Some(Seq::empty())
    } else if forall|k: int| 0 <= k < n - 1 ==> (#[trigger] hex_group(p[k])) is Some {
        let first = Seq::new((n - 1) as nat, |k: int| hex_group(p[k])->0);
        if hex_group(p[n - 1]) is Some {
            Some(first.push(hex_group(p[n - 1])->0))
        } else if tail && ipv4_value(p[n - 1]) is Some {
            let w = ipv4_value(p[n - 1])->0;
            Some(first.push(w / 65536).push(w % 65536))
        } else {
            None
        }
    } else {
        None
    }
}

/// Position of the first `::` in `s` at or after `i`, or -1.
pub open spec fn double_colon_from(s: Seq<char>, i: int) -> int
    decreases s.len() - i,
{
    if i < 0 || i + 1 >= s.len() {
        -1
    } else if s[i] == ':' && s[i + 1] == ':' {
        i
    } else {
        double_colon_from(s, i + 1)
    }
}

/// The 128-bit value of IPv6 text.
pub open spec fn ipv6_value(s: Seq<char>) -> Option<nat> {
    let d = double_colon_from(s, 0);
    if d >= 0 {
        let h = ipv6_groups(s.subrange(0, d), false);
        let t = ipv6_groups(s.subrange(d + 2, s.len() as int), true);
        if h is Some && t is Some && h->0.len() + t->0.len() <= 7 {
            let zeros = Seq::new((8 - h->0.len() - t->0.len()) as nat, |i: int| 0nat);
            Some(groups_number(h->0 + zeros + t->0))
        } else {
            None
        }
    } else {
        let g = ipv6_groups(s, true);
        if g is Some && g->0.len() == 8 {
            Some(groups_number(g->0))
        } else {
            None
        }
    }
}

/// The address that an IP literal writes: IPv4 text first, then IPv6.
pub open spec fn ip_literal(s: Seq<char>) -> Option<IpAddress> {
    if ipv4_value(s) is Some {
        Some(IpAddress::V4(ipv4_value(s)->0 as u32))
    } else if ipv6_value(s) is Some {
        Some(IpAddress::V6(ipv6_value(s)->0 as u128))
    } else {
        None
    }
}

/// Parses an IPv4 octet.
fn parse_octet(p: &Vec<char>) -> (r: Option<u32>)
    ensures
        match r {
            Some(v) => octet(p@) == Some(v as nat),
            None => octet(p@) is None,
        },
{
    let n = p.len();
    if n < 1 || n > 3 {
        return None;
    }
    if !('0' <= p[0] && p[0] <= '9') {
        assert(!all_digits(p@)) by {
            assert(!is_digit(p@[0]));
        }
        return None;
    }
    if n > 1 && p[0] == '0' {
        return None;
    }
    assert(crate::text::unsigned_digits(p@) == p@);
    match parse_unsigned(p, 0, n, 255) {
        Some(v) => {
            assert(p@.subrange(0, n as int) =~= p@);
            Some(v as u32)
        },
        None => {
            assert(p@.subrange(0, n as int) =~= p@);
            None
        },
    }
}

/// Parses IPv4 text to its 32-bit value.
fn parse_ipv4(s: &Vec<char>) -> (r: Option<u32>)
    ensures
        match r {
            Some(v) => ipv4_value(s@) == Some(v as nat),
            None => ipv4_value(s@) is None,
        },
{
    let parts = split_chars(s, '.');
    if parts.len() != 4 {
        return None;
    }
    let a = match parse_octet(&parts[0]) {
        Some(v) => v,
        None => return None,
    };
    let b = match parse_octet(&parts[1]) {
        Some(v) => v,
        None => return None,
    };
    let c = match parse_octet(&parts[2]) {
        Some(v) => v,
        None => return None,
    };
    let d = match parse_octet(&parts[3]) {
        Some(v) => v,
        None => return None,
    };
    assert(((a as int * 256 + b) * 256 + c) * 256 + d < 0x1_0000_0000) by (nonlinear_arith)
        requires
            a <= 255,
            b <= 255,
            c <= 255,
            d <= 255,
    ;
    let v: u64 = ((a as u64 * 256 + b as u64) * 256 + c as u64) * 256 + d as u64;
    Some(v as u32)
}

/// 16 to the power `k`.
pub open spec fn hex_power(k: nat) -> nat
    decreases k,
{
    if k == 0 {
        1
    } else {
        hex_power((k - 1) as nat) * 16
    }
}

/// Parses an IPv6 group.
fn parse_hex_group(p: &Vec<char>) -> (r: Option<u16>)
    ensures
        match r {
            Some(v) => hex_group(p@) == Some(v as nat),
            None => hex_group(p@) is None,
        },
{
    let n = p.len();
    if n < 1 || n > 4 {
        return None;
    }
    let mut acc: u32 = 0;
    let mut i: usize = 0;
    while i < n
        invariant
            n == p@.len(),
            1 <= n <= 4,
            i <= n,
            forall|j: int| 0 <= j < i ==> is_hex_digit(#[trigger] p@[j]),
            acc as nat == hex_value(p@.subrange(0, i as int)),
            acc < hex_power(i as nat),
        decreases n - i,
    {
        let c = p[i];
        let dv: u32 = if '0' <= c && c <= '9' {
            c as u32 - '0' as u32
        } else if 'a' <= c && c <= 'f' {
            c as u32 - 'a' as u32 + 10
        } else if 'A' <= c && c <= 'F' {
            c as u32 - 'A' as u32 + 10
        } else {
            assert(!is_hex_digit(p@[i as int]));
            return None;
        };
        assert(p@.subrange(0, i + 1).drop_last() =~= p@.subrange(0, i as int));
        assert(p@.subrange(0, i + 1).last() == c);
        proof {
            reveal_with_fuel(hex_power, 5);
            let h = hex_power(i as nat);
            assert(acc * 16 + dv < h * 16) by (nonlinear_arith)
                requires
                    acc < h,
                    dv < 16,
            ;
        }
        acc = acc * 16 + dv;
        i = i + 1;
    }
    assert(p@.subrange(0, n as int) =~= p@);
    proof {
        reveal_with_fuel(hex_power, 5);
    }
    Some(acc as u16)
}

/// Parses colon-separated IPv6 groups; see `ipv6_groups`.
fn parse_groups(s: &Vec<char>, tail: bool) -> (r: Option<Vec<u16>>)
    ensures
        match r {
            Some(g) => ipv6_groups(s@, tail) == Some(widen(g@)),
            None => ipv6_groups(s@, tail) is None,
        },
{
    if s.len() == 0 {
        let g: Vec<u16> = Vec::new();
        assert(widen(g@) =~= Seq::<nat>::empty());
        return Some(g);
    }
    let parts = split_chars(s, ':');
    let n = parts.len();
    let ghost p = split_on(s@, ':');
    let mut g: Vec<u16> = Vec::new();
    let mut k: usize = 0;
    while k + 1 < n
        invariant
            n == parts@.len() == p.len(),
            n >= 1,
            p == split_on(s@, ':'),
            forall|j: int| 0 <= j < n ==> (#[trigger] parts@[j])@ == p[j],
            k < n,
            g@.len() == k,
            forall|j: int|
                0 <= j < k ==> (#[trigger] hex_group(p[j])) is Some && g@[j] as nat == hex_group(
                    p[j],
                )->0,
        decreases n - k,
    {
        match parse_hex_group(&parts[k]) {
            Some(v) => {
                g.push(v);
            },
            None => {
                assert(hex_group(p[k as int]) is None);
                return None;
            },
        }
        k = k + 1;
    }
    let ghost first = Seq::new((n - 1) as nat, |j: int| hex_group(p[j])->0);
    assert(widen(g@) =~= first);
    match parse_hex_group(&parts[n - 1]) {
        Some(v) => {
            g.push(v);
            assert(widen(g@) =~= first.push(v as nat));
            Some(g)
        },
        None => {
            if !tail {
                return None;
            }
            match parse_ipv4(&parts[n - 1]) {
                Some(w) => {
                    g.push((w / 65536) as u16);
                    g.push((w % 65536) as u16);
                    assert(widen(g@) =~= first.push(w as nat / 65536).push(w as nat % 65536));
                    Some(g)
                },
                None => None,
            }
        },
    }
}

/// Position of the first `::` in `s`.
fn find_double_colon(s: &Vec<char>) -> (r: Option<usize>)
    ensures
        match r {
            Some(d) => double_colon_from(s@, 0) == d as int && d + 1 < s@.len(),
            None => double_colon_from(s@, 0) == -1,
        },
{
    let mut i: usize = 0;
    while i < s.len() && i + 1 < s.len()
        invariant
            double_colon_from(s@, 0) == double_colon_from(s@, i as int),
        decreases s@.len() - i,
    {
        if s[i] == ':' && s[i + 1] == ':' {
            return Some(i);
        }
        i = i + 1;
    }
    None
}

/// Parses IPv6 text to its 128-bit value.
fn parse_ipv6(s: &Vec<char>) -> (r: Option<u128>)
    ensures
        match r {
            Some(v) => ipv6_value(s@) == Some(v as nat),
            None => ipv6_value(s@) is None,
        },
{
    match find_double_colon(s) {
        Some(d) => {
            let n = s.len();
            assert(d + 1 < n);
            let head = copy_range(s, 0, d);
            let tail = copy_range(s, d + 2, n);
            let h = match parse_groups(&head, false) {
                Some(h) => h,
                None => return None,
            };
            let t = match parse_groups(&tail, true) {
                Some(t) => t,
                None => return None,
            };
            if h.len() > 7 || t.len() > 7 || h.len() + t.len() > 7 {
                return None;
            }
            let zeros = 8 - h.len() - t.len();
            let mut all: Vec<u16> = Vec::new();
            let mut i: usize = 0;
            while i < h.len()
                invariant
                    i <= h@.len(),
                    all@ == h@.subrange(0, i as int),
                decreases h@.len() - i,
            {
                all.push(h[i]);
                i = i + 1;
                assert(all@ =~= h@.subrange(0, i as int));
            }
            let mut z: usize = 0;
            while z < zeros
                invariant
                    z <= zeros,
                    all@.len() == h@.len() + z,
                    all@.subrange(0, h@.len() as int) == h@,
                    forall|j: int| h@.len() <= j < all@.len() ==> #[trigger] all@[j] == 0,
                decreases zeros - z,
            {
                all.push(0);
                z = z + 1;
                assert(all@.subrange(0, h@.len() as int) =~= h@);
            }
            let mut j: usize = 0;
            while j < t.len()
                invariant
                    j <= t@.len(),
                    all@.len() == h@.len() + zeros + j,
                    all@.subrange(0, h@.len() as int) == h@,
                    forall|q: int| h@.len() <= q < h@.len() + zeros ==> #[trigger] all@[q] == 0,
                    all@.subrange((h@.len() + zeros) as int, all@.len() as int) == t@.subrange(
                        0,
                        j as int,
                    ),
                decreases t@.len() - j,
            {
                all.push(t[j]);
                j = j + 1;
                assert(all@.subrange(0, h@.len() as int) =~= h@);
                assert(all@.subrange((h@.len() + zeros) as int, all@.len() as int) =~= t@.subrange(
                    0,
                    j as int,
                ));
            }
            let ghost zs = Seq::new(zeros as nat, |q: int| 0nat);
            assert(widen(all@) =~= widen(h@) + zs + widen(t@)) by {
                assert(t@.subrange(0, j as int) =~= t@);
                assert forall|q: int| 0 <= q < all@.len() implies widen(all@)[q] == (widen(h@) + zs
                    + widen(t@))[q] by {
                    if q < h@.len() {
                        assert(all@[q] == all@.subrange(0, h@.len() as int)[q]);
                    } else if q >= h@.len() + zeros {
                        assert(all@[q] == all@.subrange(
                            (h@.len() + zeros) as int,
                            all@.len() as int,
                        )[q - h@.len() - zeros]);
                    }
                }
            }
            assert(head@ =~= s@.subrange(0, d as int));
            Some(fold_groups(&all))
        },
        None => {
            match parse_groups(s, true) {
                Some(g) => {
                    if g.len() == 8 {
                        Some(fold_groups(&g))
                    } else {
                        None
                    }
                },
                None => None,
            }
        },
    }
}

/// Parses an IP literal, IPv4 or IPv6 (`IpAddr::from_str`).
pub fn parse_ip(s: &Vec<char>) -> (r: Option<IpAddress>)
    ensures
        r == ip_literal(s@),
{
    match parse_ipv4(s) {
        Some(v) => Some(IpAddress::V4(v)),
        None => match parse_ipv6(s) {
            Some(v) => Some(IpAddress::V6(v)),
            None => None,
        },
    }
}

/// The IPv6 loopback address `::1`.
pub open spec fn ipv6_loopback() -> IpAddress {
    IpAddress::V6(1)
}

/// `::1` is the IPv6 loopback address.
pub proof fn lemma_loopback_literal()
    ensures
        ip_literal(seq![':', ':', '1']) == Some(ipv6_loopback()),
{
    let s = seq![':', ':', '1'];
    reveal_with_fuel(split_on, 4);
    assert(s.drop_last() =~= seq![':', ':']);
    assert(s.drop_last().drop_last() =~= seq![':']);
    assert(s.drop_last().drop_last().drop_last() =~= Seq::<char>::empty());
    assert(split_on(s, '.').len() == 1);
    assert(ipv4_value(s) is None);
    assert(double_colon_from(s, 0) == 0);
    let head = s.subrange(0, 0);
    let tail = s.subrange(2, 3);
    assert(head =~= Seq::<char>::empty());
    assert(tail =~= seq!['1']);
    assert(ipv6_groups(head, false) == Some(Seq::<nat>::empty()));
    assert(tail.drop_last() =~= Seq::<char>::empty());
    let p = split_on(tail, ':');
    assert(p =~= seq![seq!['1']]);
    reveal_with_fuel(hex_value, 2);
    assert(seq!['1'].drop_last() =~= Seq::<char>::empty());
    assert(hex_value(seq!['1']) == 1);
    assert(hex_group(p[0]) == Some(1nat));
    let first = Seq::new(0, |k: int| hex_group(p[k])->0);
    assert(first =~= Seq::<nat>::empty());
    assert(ipv6_groups(tail, true) == Some(seq![1nat])) by {
        assert(first.push(1nat) =~= seq![1nat]);
    }
    let zeros = Seq::new(7, |i: int| 0nat);
    let g = Seq::<nat>::empty() + zeros + seq![1nat];
    assert(g =~= seq![0nat, 0, 0, 0, 0, 0, 0, 1]);
    reveal_with_fuel(groups_number, 9);
    assert(g.drop_last() =~= seq![0nat, 0, 0, 0, 0, 0, 0]);
    assert(g.drop_last().drop_last() =~= seq![0nat, 0, 0, 0, 0, 0]);
    assert(g.drop_last().drop_last().drop_last() =~= seq![0nat, 0, 0, 0, 0]);
    assert(g.drop_last().drop_last().drop_last().drop_last() =~= seq![0nat, 0, 0, 0]);
    assert(g.drop_last().drop_last().drop_last().drop_last().drop_last() =~= seq![0nat, 0, 0]);
    assert(g.drop_last().drop_last().drop_last().drop_last().drop_last().drop_last() =~= seq![
        0nat,
        0,
    ]);
    assert(g.drop_last().drop_last().drop_last().drop_last().drop_last().drop_last().drop_last()
        =~= seq![0nat]);
    assert(g.drop_last().drop_last().drop_last().drop_last().drop_last().drop_last().drop_last().drop_last()
        =~= Seq::<nat>::empty());
    assert(groups_number(g) == 1);
    assert(ipv6_value(s) == Some(1nat));
}

} // verus!
