//! The network policy engine: `host:port` patterns per kind of socket use,
//! with host names resolved once, before any check.
//!
//! A pattern is split at its last `:`. The port part is `*` or a decimal
//! port; the host part is `*`, an IP literal (IPv6 within brackets), or a
//! host name. A host name never matches by itself: it matches through the
//! addresses it was resolved to when the checker was built.

use vstd::prelude::*;
use crate::address::{
    ip_literal, ipv6_loopback, lemma_loopback_literal, parse_ip, IpAddress, SocketAddress,
};
use crate::config::NetworkSpec;
use crate::text::{
    chars_of, copy_range, copy_texts, decimal_text, find_last, is_digit, last_index_of,
    lemma_decimal_text, lemma_last_index_suffix, parse_unsigned, same_text, texts, trim,
    trim_end, trim_range, trim_start, unsigned_digits, unsigned_value, CharClass,
};

verus! {

/// The kinds of socket use that the guest asks permission for.
#[derive(PartialEq, Eq, Structural, Clone, Copy, Debug)]
pub enum SocketAddrUse {
    TcpBind,
    TcpConnect,
    UdpBind,
    UdpConnect,
    UdpOutgoingDatagram,
}

/// The host part of a pattern.
#[derive(PartialEq, Eq, Structural, Clone, Copy, Debug)]
pub enum HostPattern {
    Any,
    Ip(IpAddress),
    Name,
}

/// The port part of a pattern.
#[derive(PartialEq, Eq, Structural, Clone, Copy, Debug)]
pub enum PortPattern {
    Any,
    Exact(u16),
    /// Neither `*` nor a port number: matches nothing.
    Invalid,
}

/// What a pattern text means; `None` where it holds no `:`.
pub open spec fn pattern_parts(t: Seq<char>) -> Option<(HostPattern, PortPattern)> {
    let i = last_index_of(t, ':');
    if i < 0 {
        None
    } else {
        let host = t.subrange(0, i);
        let port = t.subrange(i + 1, t.len() as int);
        let pp = if port == seq!['*'] {
            PortPattern::Any
        } else if unsigned_value(port, 65535) is Some {
            PortPattern::Exact(unsigned_value(port, 65535)->0 as u16)
        } else {
            PortPattern::Invalid
        };
        let hp = if host == seq!['*'] {
            HostPattern::Any
        } else if ip_literal(trim(host, CharClass::Bracket)) is Some {
            HostPattern::Ip(ip_literal(trim(host, CharClass::Bracket))->0)
        } else {
            HostPattern::Name
        };
        Some((hp, pp))
    }
}

pub open spec fn port_allows(pp: PortPattern, a: SocketAddress) -> bool {
    match pp {
        PortPattern::Any => true,
        PortPattern::Exact(n) => a.port == n,
        PortPattern::Invalid => false,
    }
}

pub open spec fn host_allows(hp: HostPattern, a: SocketAddress) -> bool {
    match hp {
        HostPattern::Any => true,
        HostPattern::Ip(ip) => a.ip == ip,
        HostPattern::Name => false,
    }
}

/// Whether pattern text `t` matches address `a` by itself.
pub open spec fn pattern_matches(t: Seq<char>, a: SocketAddress) -> bool {
    match pattern_parts(t) {
        None => false,
        Some((hp, pp)) => port_allows(pp, a) && host_allows(hp, a),
    }
}

/// Whether the port part of pattern text `t` admits the port of `a`.
pub open spec fn port_part_allows(t: Seq<char>, a: SocketAddress) -> bool {
    match pattern_parts(t) {
        None => false,
        Some((_, pp)) => port_allows(pp, a),
    }
}

/// The host part of pattern text `t`: what precedes its last `:`.
pub open spec fn host_part(t: Seq<char>) -> Seq<char> {
    t.subrange(0, last_index_of(t, ':'))
}

/// Whether pattern text `t` names a host to resolve: it has a host part,
/// which is neither `*` nor an IP literal (IPv6 within brackets).
pub open spec fn needs_resolution(t: Seq<char>) -> bool {
    match pattern_parts(t) {
        Some((hp, _)) => hp == HostPattern::Name,
        None => false,
    }
}

/// The IP addresses that the host of a host-name pattern resolved to.
pub struct HostResolution {
    pub pattern: String,
    pub addresses: Vec<IpAddress>,
}

pub open spec fn resolution_views(v: Seq<HostResolution>) -> Seq<(Seq<char>, Seq<IpAddress>)> {
    v.map_values(|h: HostResolution| (h.pattern@, h.addresses@))
}

/// The addresses of the first resolution of `t` in `res`.
pub open spec fn first_resolution(res: Seq<(Seq<char>, Seq<IpAddress>)>, t: Seq<char>) -> Seq<
    IpAddress,
>
    decreases res.len(),
{
    if res.len() == 0 {
        Seq::empty()
    } else if res[0].0 == t {
        res[0].1
    } else {
        first_resolution(res.drop_first(), t)
    }
}

/// The IP addresses pattern `t` stands for besides itself: those its host
/// resolved to, where it names a host.
pub open spec fn resolved_for(res: Seq<(Seq<char>, Seq<IpAddress>)>, t: Seq<char>) -> Seq<
    IpAddress,
> {
    if needs_resolution(t) {
        first_resolution(res, t)
    } else {
        Seq::empty()
    }
}

/// Whether pattern text `t` matches `a` through the addresses its host
/// resolved to: the IP is one of them, and the port part of `t` admits the port.
pub open spec fn resolved_matches(
    res: Seq<(Seq<char>, Seq<IpAddress>)>,
    t: Seq<char>,
    a: SocketAddress,
) -> bool {
    port_part_allows(t, a) && resolved_for(res, t).contains(a.ip)
}

/// Whether the pattern list `pats`, with resolutions `res`, allows `a`.
pub open spec fn policy_allows(
    pats: Seq<Seq<char>>,
    res: Seq<(Seq<char>, Seq<IpAddress>)>,
    a: SocketAddress,
) -> bool {
    exists|i: int|
        0 <= i < pats.len() && (pattern_matches(#[trigger] pats[i], a) || resolved_matches(
            res,
            pats[i],
            a,
        ))
}

/// The patterns `n` declares for use `u`.
pub open spec fn declared(n: NetworkSpec, u: SocketAddrUse) -> Seq<Seq<char>> {
    match u {
        SocketAddrUse::TcpBind => texts(n.tcp_bind@),
        SocketAddrUse::TcpConnect => texts(n.tcp_connect@),
        SocketAddrUse::UdpBind => texts(n.udp_bind@),
        SocketAddrUse::UdpConnect => texts(n.udp_connect@),
        SocketAddrUse::UdpOutgoingDatagram => texts(n.udp_outgoing@),
    }
}

/// Whether the policy of `n`, with resolutions `res`, allows `a` for use `u`.
pub open spec fn spec_allows(
    n: NetworkSpec,
    res: Seq<(Seq<char>, Seq<IpAddress>)>,
    a: SocketAddress,
    u: SocketAddrUse,
) -> bool {
    policy_allows(declared(n, u), res, a)
}

/// Whether the port part of pattern text `t` admits the port of `a`.
pub fn port_part_matches(t: &Vec<char>, a: &SocketAddress) -> (r: bool)
    ensures
        r == port_part_allows(t@, *a),
{
    let n = t.len();
    assert(t@.subrange(0, n as int) =~= t@);
    let i = match find_last(t, 0, n, ':') {
        Some(i) => i,
        None => return false,
    };
    let ghost port = t@.subrange(i + 1, n as int);
    if n - (i + 1) == 1 && t[i + 1] == '*' {
        assert(port =~= seq!['*']);
        true
    } else {
        assert(port != seq!['*']) by {
            if port == seq!['*'] {
                assert(port.len() == 1 && port[0] == t@[i + 1]);
            }
        }
        match parse_unsigned(t, i + 1, n, 65535) {
            Some(p) => p as u16 == a.port,
            None => false,
        }
    }
}

/// What the host part of pattern text `t` means; `None` where `t` holds no `:`.
fn host_pattern(t: &Vec<char>) -> (r: Option<HostPattern>)
    ensures
        match r {
            Some(hp) => match pattern_parts(t@) {
                Some((h, _)) => h == hp,
                None => false,
            },
            None => pattern_parts(t@) is None,
        },
{
    let n = t.len();
    assert(t@.subrange(0, n as int) =~= t@);
    let i = match find_last(t, 0, n, ':') {
        Some(i) => i,
        None => return None,
    };
    let ghost host = t@.subrange(0, i as int);
    if i == 1 && t[0] == '*' {
        assert(host =~= seq!['*']);
        return Some(HostPattern::Any);
    }
    assert(host != seq!['*']) by {
        if host == seq!['*'] {
            assert(host.len() == 1 && host[0] == t@[0]);
        }
    }
    let (lo, hi) = trim_range(t, 0, i, CharClass::Bracket);
    let inner = copy_range(t, lo, hi);
    match parse_ip(&inner) {
        Some(ip) => Some(HostPattern::Ip(ip)),
        None => Some(HostPattern::Name),
    }
}

/// Whether pattern text `t` matches `a` by itself.
pub fn matches_pattern(t: &Vec<char>, a: &SocketAddress) -> (r: bool)
    ensures
        r == pattern_matches(t@, *a),
{
    if !port_part_matches(t, a) {
        return false;
    }
    match host_pattern(t) {
        Some(HostPattern::Any) => true,
        Some(HostPattern::Ip(ip)) => ip == a.ip,
        _ => false,
    }
}

/// Whether pattern text `t` names a host to resolve.
pub fn pattern_needs_resolution(t: &Vec<char>) -> (r: bool)
    ensures
        r == needs_resolution(t@),
{
    match host_pattern(t) {
        Some(HostPattern::Name) => true,
        _ => false,
    }
}

/// The host to resolve for pattern `pattern`, where it names one.
pub fn resolution_host(pattern: &str) -> (r: Option<String>)
    ensures
        match r {
            Some(h) => needs_resolution(pattern@) && h@ == host_part(pattern@),
            None => !needs_resolution(pattern@),
        },
{
    let t = chars_of(pattern);
    if !pattern_needs_resolution(&t) {
        return None;
    }
    let n = t.len();
    assert(t@.subrange(0, n as int) =~= t@);
    match find_last(&t, 0, n, ':') {
        Some(i) => Some(String::from_str(pattern.substring_char(0, i))),
        None => None,
    }
}

fn find_resolution<'a>(res: &'a Vec<HostResolution>, t: &str) -> (r: Option<&'a Vec<IpAddress>>)
    ensures
        match r {
            Some(v) => v@ == first_resolution(resolution_views(res@), t@),
            None => first_resolution(resolution_views(res@), t@) == Seq::<IpAddress>::empty(),
        },
{
    let ghost rv = resolution_views(res@);
    let mut i: usize = 0;
    assert(rv.subrange(0, rv.len() as int) =~= rv);
    while i < res.len()
        invariant
            i <= res@.len(),
            rv == resolution_views(res@),
            rv.len() == res@.len(),
            first_resolution(rv, t@) == first_resolution(rv.subrange(i as int, rv.len() as int), t@),
        decreases res@.len() - i,
    {
        assert(rv.subrange(i as int, rv.len() as int).drop_first() =~= rv.subrange(
            i + 1,
            rv.len() as int,
        ));
        if same_text(res[i].pattern.as_str(), t) {
            return Some(&res[i].addresses);
        }
        i = i + 1;
    }
    None
}

fn contains_ip(v: &Vec<IpAddress>, a: &IpAddress) -> (r: bool)
    ensures
        r == v@.contains(*a),
{
    let mut i: usize = 0;
    while i < v.len()
        invariant
            i <= v@.len(),
            forall|j: int| 0 <= j < i ==> v@[j] != *a,
        decreases v@.len() - i,
    {
        if v[i] == *a {
            assert(v@[i as int] == *a);
            return true;
        }
        i = i + 1;
    }
    false
}

/// Every pattern that `n` declares, for all uses, in the order
/// TCP bind, TCP connect, UDP bind, UDP connect, UDP outgoing.
pub open spec fn all_declared(n: NetworkSpec) -> Seq<Seq<char>> {
    declared(n, SocketAddrUse::TcpBind) + declared(n, SocketAddrUse::TcpConnect) + declared(
        n,
        SocketAddrUse::UdpBind,
    ) + declared(n, SocketAddrUse::UdpConnect) + declared(n, SocketAddrUse::UdpOutgoingDatagram)
}

fn append_texts(out: &mut Vec<String>, v: &Vec<String>)
    ensures
        texts(final(out)@) == texts(old(out)@) + texts(v@),
{
    let ghost start = texts(out@);
    let mut i: usize = 0;
    assert(texts(out@).len() == out@.len());
    while i < v.len()
        invariant
            i <= v@.len(),
            out@.len() == start.len() + i,
            texts(out@) == start + texts(v@.subrange(0, i as int)),
        decreases v@.len() - i,
    {
        let ghost prev = out@;
        let c = v[i].clone();
        assert(c@ == v@[i as int]@);
        out.push(c);
        proof {
            let cur = start + texts(v@.subrange(0, i + 1));
            assert forall|j: int| 0 <= j < out@.len() implies texts(out@)[j] == cur[j] by {
                if j < prev.len() {
                    assert(texts(prev)[j] == (start + texts(v@.subrange(0, i as int)))[j]);
                }
            }
            assert(texts(out@) =~= cur);
        }
        i = i + 1;
    }
    assert(v@.subrange(0, i as int) =~= v@);
}

fn contains_text(v: &Vec<String>, t: &str) -> (r: bool)
    ensures
        r == texts(v@).contains(t@),
{
    let mut i: usize = 0;
    while i < v.len()
        invariant
            i <= v@.len(),
            forall|j: int| 0 <= j < i ==> texts(v@)[j] != t@,
        decreases v@.len() - i,
    {
        if same_text(v[i].as_str(), t) {
            assert(texts(v@)[i as int] == t@);
            return true;
        }
        i = i + 1;
    }
    false
}

/// The distinct patterns of `network`, over all uses, that name a host to
/// resolve before the checker is built.
pub fn patterns_to_resolve(network: &NetworkSpec) -> (r: Vec<String>)
    ensures
        forall|k: int|
            0 <= k < r@.len() ==> needs_resolution(#[trigger] texts(r@)[k]) && all_declared(
                *network,
            ).contains(texts(r@)[k]),
        forall|t: Seq<char>|
            all_declared(*network).contains(t) && needs_resolution(t) ==> #[trigger] texts(
                r@,
            ).contains(t),
        forall|j: int, k: int| 0 <= j < k < r@.len() ==> texts(r@)[j] != texts(r@)[k],
{
    let mut all: Vec<String> = Vec::new();
    append_texts(&mut all, &network.tcp_bind);
    append_texts(&mut all, &network.tcp_connect);
    append_texts(&mut all, &network.udp_bind);
    append_texts(&mut all, &network.udp_connect);
    append_texts(&mut all, &network.udp_outgoing);
    let ghost everything = all_declared(*network);
    assert(texts(all@) =~= everything);
    let mut r: Vec<String> = Vec::new();
    let mut i: usize = 0;
    while i < all.len()
        invariant
            i <= all@.len(),
            texts(all@) == everything,
            everything == all_declared(*network),
            forall|k: int|
                0 <= k < r@.len() ==> needs_resolution(#[trigger] texts(r@)[k])
                    && everything.contains(texts(r@)[k]),
            forall|j: int|
                0 <= j < i && needs_resolution(#[trigger] everything[j]) ==> texts(r@).contains(
                    everything[j],
                ),
            forall|j: int, k: int| 0 <= j < k < r@.len() ==> texts(r@)[j] != texts(r@)[k],
        decreases all@.len() - i,
    {
        let t = chars_of(all[i].as_str());
        assert(everything[i as int] == all@[i as int]@);
        if pattern_needs_resolution(&t) && !contains_text(&r, all[i].as_str()) {
            let ghost before = texts(r@);
            r.push(all[i].clone());
            assert(texts(r@) =~= before.push(all@[i as int]@));
            assert forall|j: int|
                0 <= j <= i && needs_resolution(#[trigger] everything[j]) implies texts(
                r@,
            ).contains(everything[j]) by {
                if j < i {
                    let w = choose|w: int| 0 <= w < before.len() && before[w] == everything[j];
                    assert(texts(r@)[w] == everything[j]);
                } else {
                    assert(texts(r@)[before.len() as int] == everything[j]);
                }
            }
        }
        i = i + 1;
    }
    proof {
        assert forall|t: Seq<char>|
            everything.contains(t) && needs_resolution(t) implies #[trigger] texts(r@).contains(t) by {
            let j = choose|j: int| 0 <= j < everything.len() && everything[j] == t;
            assert(needs_resolution(everything[j]));
        }
    }
    r
}

/// The compiled policy: the declared patterns of each use, and the
/// addresses that host-name patterns resolved to.
pub struct NetworkChecker {
    tcp_bind: Vec<String>,
    tcp_connect: Vec<String>,
    udp_bind: Vec<String>,
    udp_connect: Vec<String>,
    udp_outgoing: Vec<String>,
    resolved_patterns: Vec<HostResolution>,
}

impl NetworkChecker {
    /// The patterns of use `u`.
    pub closed spec fn patterns(&self, u: SocketAddrUse) -> Seq<Seq<char>> {
        match u {
            SocketAddrUse::TcpBind => texts(self.tcp_bind@),
            SocketAddrUse::TcpConnect => texts(self.tcp_connect@),
            SocketAddrUse::UdpBind => texts(self.udp_bind@),
            SocketAddrUse::UdpConnect => texts(self.udp_connect@),
            SocketAddrUse::UdpOutgoingDatagram => texts(self.udp_outgoing@),
        }
    }

    /// The host-name resolutions the checker was built with.
    pub closed spec fn resolutions(&self) -> Seq<(Seq<char>, Seq<IpAddress>)> {
        resolution_views(self.resolved_patterns@)
    }

    /// Whether the checker was built from `n` and resolutions `res`.
    pub open spec fn built_from(&self, n: NetworkSpec, res: Seq<(Seq<char>, Seq<IpAddress>)>) -> bool {
        &&& forall|u: SocketAddrUse| #[trigger] self.patterns(u) == declared(n, u)
        &&& self.resolutions() == res
    }

    /// Whether the checker allows `a` for use `u`.
    pub open spec fn allows(&self, a: SocketAddress, u: SocketAddrUse) -> bool {
        policy_allows(self.patterns(u), self.resolutions(), a)
    }

    /// Builds the checker of `network`, where `resolutions` gives the
    /// addresses that each host-name pattern resolved to (see
    /// `patterns_to_resolve`); a pattern that failed to resolve is left out
    /// or given no addresses, and then never matches.
    pub fn new(network: &NetworkSpec, resolutions: Vec<HostResolution>) -> (r: Self)
        ensures
            r.built_from(*network, resolution_views(resolutions@)),
    {
        NetworkChecker {
            tcp_bind: copy_texts(&network.tcp_bind),
            tcp_connect: copy_texts(&network.tcp_connect),
            udp_bind: copy_texts(&network.udp_bind),
            udp_connect: copy_texts(&network.udp_connect),
            udp_outgoing: copy_texts(&network.udp_outgoing),
            resolved_patterns: resolutions,
        }
    }

    fn get_patterns(&self, use_: SocketAddrUse) -> (r: &Vec<String>)
        ensures
            texts(r@) == self.patterns(use_),
    {
        match use_ {
            SocketAddrUse::TcpBind => &self.tcp_bind,
            SocketAddrUse::TcpConnect => &self.tcp_connect,
            SocketAddrUse::UdpBind => &self.udp_bind,
            SocketAddrUse::UdpConnect => &self.udp_connect,
            SocketAddrUse::UdpOutgoingDatagram => &self.udp_outgoing,
        }
    }

    /// Whether `addr` matches a pattern of `use_`, directly or through the
    /// addresses a host-name pattern resolved to.
    pub fn check(&self, addr: &SocketAddress, use_: SocketAddrUse) -> (r: bool)
        ensures
            r == self.allows(*addr, use_),
    {
        let patterns = self.get_patterns(use_);
        let ghost pats = self.patterns(use_);
        let mut i: usize = 0;
        while i < patterns.len()
            invariant
                i <= patterns@.len(),
                texts(patterns@) == pats,
                pats == self.patterns(use_),
                forall|j: int|
                    0 <= j < i ==> !(pattern_matches(#[trigger] pats[j], *addr) || resolved_matches(
                        self.resolutions(),
                        pats[j],
                        *addr,
                    )),
            decreases patterns@.len() - i,
        {
            let t = chars_of(patterns[i].as_str());
            assert(pats[i as int] == t@);
            if matches_pattern(&t, addr) {
                return true;
            }
            if pattern_needs_resolution(&t) && port_part_matches(&t, addr) {
                match find_resolution(&self.resolved_patterns, patterns[i].as_str()) {
                    Some(v) => {
                        if contains_ip(v, &addr.ip) {
                            return true;
                        }
                    },
                    None => {},
                }
            }
            i = i + 1;
        }
        false
    }

    /// Whether the checker holds addresses resolved for `pattern`.
    pub fn has_resolution(&self, pattern: &str) -> (r: bool)
        ensures
            r == (resolved_for(self.resolutions(), pattern@).len() > 0),
    {
        let t = chars_of(pattern);
        if !pattern_needs_resolution(&t) {
            return false;
        }
        match find_resolution(&self.resolved_patterns, pattern) {
            Some(v) => v.len() > 0,
            None => false,
        }
    }
}

/// A checker's answer depends on nothing but the declared patterns and the
/// resolutions it was built with: two checkers built from the same network
/// spec and the same resolutions give the same answer to every query.
pub proof fn policy_is_deterministic(
    n: NetworkSpec,
    res: Seq<(Seq<char>, Seq<IpAddress>)>,
    c1: NetworkChecker,
    c2: NetworkChecker,
    a: SocketAddress,
    u: SocketAddrUse,
)
    requires
        c1.built_from(n, res),
        c2.built_from(n, res),
    ensures
        c1.allows(a, u) == c2.allows(a, u),
        c1.allows(a, u) == spec_allows(n, res, a, u),
{
    assert(c1.patterns(u) == declared(n, u));
    assert(c2.patterns(u) == declared(n, u));
}

/// The answer for one use depends only on the patterns of that use: the
/// patterns of every other use can be anything. In particular a use with
/// no patterns allows nothing, whatever the other uses allow.
pub proof fn uses_are_isolated(
    n1: NetworkSpec,
    n2: NetworkSpec,
    res: Seq<(Seq<char>, Seq<IpAddress>)>,
    a: SocketAddress,
    u: SocketAddrUse,
)
    requires
        declared(n1, u) == declared(n2, u),
    ensures
        spec_allows(n1, res, a, u) == spec_allows(n2, res, a, u),
        declared(n1, u).len() == 0 ==> !spec_allows(n1, res, a, u),
{
}

pub open spec fn wildcard_text() -> Seq<char> {
    seq!['*', ':', '*']
}

/// A use whose patterns hold `*:*` allows every address.
pub proof fn wildcard_allows_all(
    n: NetworkSpec,
    res: Seq<(Seq<char>, Seq<IpAddress>)>,
    a: SocketAddress,
    u: SocketAddrUse,
)
    requires
        declared(n, u).contains(wildcard_text()),
    ensures
        spec_allows(n, res, a, u),
{
    let t = wildcard_text();
    let i = choose|i: int| 0 <= i < declared(n, u).len() && declared(n, u)[i] == t;
    reveal_with_fuel(last_index_of, 2);
    assert(t.drop_last().last() == ':');
    assert(last_index_of(t, ':') == 1);
    assert(t.subrange(0, 1) =~= seq!['*']);
    assert(t.subrange(2, 3) =~= seq!['*']);
    assert(pattern_matches(declared(n, u)[i], a));
}

/// The text `[::1]:` that opens a pattern of the IPv6 loopback.
pub open spec fn loopback_pattern_prefix() -> Seq<char> {
    seq!['[', ':', ':', '1', ']', ':']
}

/// The pattern `[::1]:P`, with `P` written in decimal, matches exactly the
/// IPv6 loopback address at port `P`, and so no IPv4 address.
pub proof fn bracketed_loopback_matches_exactly(port: u16, a: SocketAddress)
    ensures
        pattern_matches(loopback_pattern_prefix() + decimal_text(port as nat), a) <==> (a.ip
            == ipv6_loopback() && a.port == port),
        a.ip is V4 ==> !pattern_matches(loopback_pattern_prefix() + decimal_text(port as nat), a),
        !needs_resolution(loopback_pattern_prefix() + decimal_text(port as nat)),
{
    let pre = loopback_pattern_prefix();
    let d = decimal_text(port as nat);
    let t = pre + d;
    lemma_decimal_text(port as nat);
    assert forall|i: int| 0 <= i < d.len() implies #[trigger] d[i] != ':' by {
        assert(is_digit(d[i]));
    }
    lemma_last_index_suffix(pre, d, ':');
    assert(last_index_of(pre, ':') == 5);
    let host = t.subrange(0, 5);
    let port_text = t.subrange(6, t.len() as int);
    assert(host =~= seq!['[', ':', ':', '1', ']']);
    assert(port_text =~= d);
    assert(port_text != seq!['*']) by {
        assert(is_digit(d[0]));
        if port_text == seq!['*'] {
            assert(d[0] == '*');
        }
    }
    assert(is_digit(d[0]));
    assert(unsigned_digits(d) == d);
    assert(unsigned_value(port_text, 65535) == Some(port as nat));
    assert(host != seq!['*']) by {
        if host == seq!['*'] {
            assert(host.len() == 1);
        }
    }
    reveal_with_fuel(trim_start, 2);
    reveal_with_fuel(trim_end, 2);
    assert(host.drop_first() =~= seq![':', ':', '1', ']']);
    assert(trim_start(host, CharClass::Bracket) =~= seq![':', ':', '1', ']']);
    assert(seq![':', ':', '1', ']'].drop_last() =~= seq![':', ':', '1']);
    assert(trim(host, CharClass::Bracket) =~= seq![':', ':', '1']);
    lemma_loopback_literal();
}

/// A use whose only pattern is `[::1]:P` allows exactly the IPv6 loopback
/// address at port `P`, whatever resolutions the checker holds: a bracketed
/// IPv6 literal is never resolved.
pub proof fn loopback_policy_allows_exactly(
    n: NetworkSpec,
    res: Seq<(Seq<char>, Seq<IpAddress>)>,
    port: u16,
    a: SocketAddress,
    u: SocketAddrUse,
)
    requires
        declared(n, u) == seq![loopback_pattern_prefix() + decimal_text(port as nat)],
    ensures
        spec_allows(n, res, a, u) <==> (a.ip == ipv6_loopback() && a.port == port),
{
    let t = loopback_pattern_prefix() + decimal_text(port as nat);
    bracketed_loopback_matches_exactly(port, a);
    assert(resolved_for(res, t) == Seq::<IpAddress>::empty());
    assert(!resolved_for(res, t).contains(a.ip));
    assert(declared(n, u)[0] == t);
    if a.ip == ipv6_loopback() && a.port == port {
        assert(pattern_matches(declared(n, u)[0], a));
    }
}

/// A host-name pattern with port `*` matches every port of each address its
/// host resolved to.
pub proof fn resolved_wildcard_port_matches_every_port(
    pats: Seq<Seq<char>>,
    res: Seq<(Seq<char>, Seq<IpAddress>)>,
    i: int,
    host: Seq<char>,
    a: SocketAddress,
)
    requires
        0 <= i < pats.len(),
        pats[i] == host + seq![':', '*'],
        needs_resolution(pats[i]),
        resolved_for(res, pats[i]).contains(a.ip),
    ensures
        policy_allows(pats, res, a),
{
    let t = pats[i];
    reveal_with_fuel(last_index_of, 3);
    assert(t.drop_last() =~= host + seq![':']);
    assert(t.drop_last().last() == ':');
    assert(last_index_of(t, ':') == host.len());
    assert(t.subrange(host.len() as int + 1, t.len() as int) =~= seq!['*']);
    assert(port_part_allows(t, a));
    assert(resolved_matches(res, pats[i], a));
}

} // verus!
