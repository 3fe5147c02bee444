//! Addresses: IPv4 and IPv6 addresses, socket addresses, and their text.

use vstd::prelude::*;
use crate::text;

verus! {

/// An IPv4 address, as its four octets from left to right.
#[derive(Clone, Copy, PartialEq, Eq, Structural, Hash)]
pub struct Ipv4Addr {
    pub a: u8,
    pub b: u8,
    pub c: u8,
    pub d: u8,
}

/// An IPv6 address, as its eight 16-bit groups from left to right.
#[derive(Clone, Copy, PartialEq, Eq, Structural, Hash)]
pub struct Ipv6Addr {
    pub s0: u16,
    pub s1: u16,
    pub s2: u16,
    pub s3: u16,
    pub s4: u16,
    pub s5: u16,
    pub s6: u16,
    pub s7: u16,
}

#[derive(Clone, Copy, PartialEq, Eq, Structural, Hash)]
pub struct SocketAddrV4 {
    pub ip: Ipv4Addr,
    pub port: u16,
}

#[derive(Clone, Copy, PartialEq, Eq, Structural, Hash)]
pub struct SocketAddrV6 {
    pub ip: Ipv6Addr,
    pub port: u16,
    pub flowinfo: u32,
    pub scope_id: u32,
}

/// An address and a port.
#[derive(Clone, Copy, PartialEq, Eq, Structural, Hash)]
pub enum SocketAddr {
    V4(SocketAddrV4),
    V6(SocketAddrV6),
}

/// The more significant byte of a 16-bit number.
pub open spec fn high(n: u16) -> u8 {
    (n / 256) as u8
}

/// The less significant byte of a 16-bit number.
pub open spec fn low(n: u16) -> u8 {
    (n % 256) as u8
}

/// The number whose more significant byte is `h` and whose less significant byte is `l`.
pub open spec fn word(h: u8, l: u8) -> u16 {
    (h * 256 + l) as u16
}

/// A 16-bit number in network byte order.
pub open spec fn be(n: u16) -> Seq<u8> {
    seq![high(n), low(n)]
}

pub fn high_byte(n: u16) -> (r: u8)
    ensures
        r == high(n),
{
    (n / 256) as u8
}

pub fn low_byte(n: u16) -> (r: u8)
    ensures
        r == low(n),
{
    (n % 256) as u8
}

pub fn word_of(h: u8, l: u8) -> (r: u16)
    ensures
        r == word(h, l),
{
    h as u16 * 256 + l as u16
}

/// The two bytes of a 16-bit number give it back.
pub proof fn word_of_its_bytes(n: u16)
    ensures
        word(high(n), low(n)) == n,
{
}

impl Ipv4Addr {
    pub fn new(a: u8, b: u8, c: u8, d: u8) -> (r: Ipv4Addr)
        ensures
            r == (Ipv4Addr { a, b, c, d }),
    {
        Ipv4Addr { a, b, c, d }
    }

    pub open spec fn bytes(self) -> Seq<u8> {
        seq![self.a, self.b, self.c, self.d]
    }

    pub fn octets(&self) -> (r: [u8; 4])
        ensures
            r@ == self.bytes(),
    {
        [self.a, self.b, self.c, self.d]
    }

    /// The address as a number, the first octet the most significant.
    pub open spec fn number(self) -> nat {
        (self.a * 0x100_0000 + self.b * 0x1_0000 + self.c * 0x100 + self.d) as nat
    }

    /// The address with the given number.
    pub open spec fn of_number(n: u32) -> Ipv4Addr {
        Ipv4Addr {
            a: (n / 0x100_0000) as u8,
            b: (n / 0x1_0000 % 0x100) as u8,
            c: (n / 0x100 % 0x100) as u8,
            d: (n % 0x100) as u8,
        }
    }

    pub fn to_u32(&self) -> (r: u32)
        ensures
            r == self.number(),
    {
        self.a as u32 * 0x100_0000 + self.b as u32 * 0x1_0000 + self.c as u32 * 0x100 + self.d as u32
    }

    pub fn from_u32(n: u32) -> (r: Ipv4Addr)
        ensures
            r == Ipv4Addr::of_number(n),
            r.number() == n,
    {
        Ipv4Addr {
            a: (n / 0x100_0000) as u8,
            b: (n / 0x1_0000 % 0x100) as u8,
            c: (n / 0x100 % 0x100) as u8,
            d: (n % 0x100) as u8,
        }
    }

    /// The addresses of 127.0.0.0/8.
    pub open spec fn loopback(self) -> bool {
        self.a == 127
    }

    pub fn is_loopback(&self) -> (r: bool)
        ensures
            r == self.loopback(),
    {
        self.a == 127
    }

    /// The address in dotted decimal.
    pub open spec fn text(self) -> Seq<char> {
        text::dec(self.a as nat) + seq!['.'] + text::dec(self.b as nat) + seq!['.'] + text::dec(self.c as nat) + seq!['.']
            + text::dec(self.d as nat)
    }

    /// The address in dotted decimal.
    pub fn to_text(&self) -> (r: String)
        ensures
            r@ == self.text(),
    {
        let mut r = String::new();
        text::push_dec(&mut r, self.a as u64);
        r.push('.');
        text::push_dec(&mut r, self.b as u64);
        r.push('.');
        text::push_dec(&mut r, self.c as u64);
        r.push('.');
        text::push_dec(&mut r, self.d as u64);
        assert(r@ =~= self.text());
        r
    }

    /// The address that the text is the dotted decimal form of, if there is one.
    pub open spec fn of_text(s: Seq<char>) -> Option<Ipv4Addr> {
        if exists|ip: Ipv4Addr| #[trigger] ip.text() == s {
            Some(choose|ip: Ipv4Addr| #[trigger] ip.text() == s)
        } else {
            None
        }
    }

    /// The address whose dotted decimal form the text is: four decimal numbers of at most 255, without
    /// leading zeros, with a dot between them.
    pub fn parse(s: &str) -> (r: Option<Ipv4Addr>)
        ensures
            r == Ipv4Addr::of_text(s@),
            match r {
                Some(ip) => ip.text() == s@,
                None => forall|ip: Ipv4Addr| #[trigger] ip.text() != s@,
            },
    {
        let found = Ipv4Addr::parse_loosely(s);
        match found {
            Some(ip) => {
                let t = ip.to_text();
                if text::same(&t, s) {
                    proof {
                        let chosen = choose|ip: Ipv4Addr| #[trigger] ip.text() == s@;
                        lemma_ipv4_text_parts(chosen);
                        lemma_ipv4_text_parts(ip);
                    }
                    Some(ip)
                } else {
                    proof {
                        assert forall|other: Ipv4Addr| #[trigger] other.text() != s@ by {
                            lemma_ipv4_text_parts(other);
                        }
                    }
                    None
                }
            },
            None => {
                proof {
                    assert forall|other: Ipv4Addr| #[trigger] other.text() != s@ by {
                        lemma_ipv4_text_parts(other);
                    }
                }
                None
            },
        }
    }

    /// Four numbers of at most 255 with a dot between them.
    fn parse_loosely(s: &str) -> (r: Option<Ipv4Addr>)
        ensures
            r == loose(s@),
    {
        let (p0, r0) = text::cut(s, '.');
        let r0 = match r0 {
            Some(t) => t,
            None => {
                return None;
            },
        };
        let (p1, r1) = text::cut(&r0, '.');
        let r1 = match r1 {
            Some(t) => t,
            None => {
                return None;
            },
        };
        let (p2, r2) = text::cut(&r1, '.');
        let r2 = match r2 {
            Some(t) => t,
            None => {
                return None;
            },
        };
        let a = text::parse_unsigned(&p0, 255);
        let b = text::parse_unsigned(&p1, 255);
        let c = text::parse_unsigned(&p2, 255);
        let d = text::parse_unsigned(&r2, 255);
        match (a, b, c, d) {
            (Some(a), Some(b), Some(c), Some(d)) => Some(
                Ipv4Addr { a: a as u8, b: b as u8, c: c as u8, d: d as u8 },
            ),
            _ => None,
        }
    }
}

/// Four numbers of at most 255 with a dot between them.
spec fn loose(s: Seq<char>) -> Option<Ipv4Addr> {
    match text::after(s, '.') {
        Some(r0) => match text::after(r0, '.') {
            Some(r1) => match text::after(r1, '.') {
                Some(r2) => match (
                    text::unsigned(text::before(s, '.'), 255),
                    text::unsigned(text::before(r0, '.'), 255),
                    text::unsigned(text::before(r1, '.'), 255),
                    text::unsigned(r2, 255),
                ) {
                    (Some(a), Some(b), Some(c), Some(d)) => Some(
                        Ipv4Addr { a: a as u8, b: b as u8, c: c as u8, d: d as u8 },
                    ),
                    _ => None,
                },
                None => None,
            },
            None => None,
        },
        None => None,
    }
}

/// The dotted decimal form of an address is read back as that address.
proof fn lemma_ipv4_text_parts(ip: Ipv4Addr)
    ensures
        loose(ip.text()) == Some(ip),
{
    let a = text::dec(ip.a as nat);
    let b = text::dec(ip.b as nat);
    let c = text::dec(ip.c as nat);
    let d = text::dec(ip.d as nat);
    let dot = seq!['.'];
    text::dec_is_read_back(ip.a as nat, 255);
    text::dec_is_read_back(ip.b as nat, 255);
    text::dec_is_read_back(ip.c as nat, 255);
    text::dec_is_read_back(ip.d as nat, 255);
    let r1 = c + dot + d;
    let r0 = b + dot + r1;
    assert(ip.text() =~= a + dot + r0);
    text::cut_of_joined(a, '.', r0);
    text::cut_of_joined(b, '.', r1);
    text::cut_of_joined(c, '.', d);
}

/// The number of an address gives it back.
pub proof fn ipv4_of_its_number(ip: Ipv4Addr)
    ensures
        ip.number() <= u32::MAX,
        Ipv4Addr::of_number(ip.number() as u32) == ip,
{
    let n = ip.number();
    assert(n / 0x100_0000 == ip.a);
    assert(n / 0x1_0000 == ip.a * 256 + ip.b);
    assert(n / 0x100 == (ip.a * 256 + ip.b) * 256 + ip.c);
}

/// The dotted decimal form names one address only, and gives it back.
pub proof fn ipv4_of_its_text(ip: Ipv4Addr)
    ensures
        Ipv4Addr::of_text(ip.text()) == Some(ip),
{
    let found = choose|other: Ipv4Addr| #[trigger] other.text() == ip.text();
    lemma_ipv4_text_parts(ip);
    lemma_ipv4_text_parts(found);
}

impl Ipv6Addr {
    pub fn new(s0: u16, s1: u16, s2: u16, s3: u16, s4: u16, s5: u16, s6: u16, s7: u16) -> (r: Ipv6Addr)
        ensures
            r == (Ipv6Addr { s0, s1, s2, s3, s4, s5, s6, s7 }),
    {
        Ipv6Addr { s0, s1, s2, s3, s4, s5, s6, s7 }
    }

    pub open spec fn groups(self) -> Seq<u16> {
        seq![self.s0, self.s1, self.s2, self.s3, self.s4, self.s5, self.s6, self.s7]
    }

    pub fn segments(&self) -> (r: [u16; 8])
        ensures
            r@ == self.groups(),
    {
        [self.s0, self.s1, self.s2, self.s3, self.s4, self.s5, self.s6, self.s7]
    }

    pub open spec fn bytes(self) -> Seq<u8> {
        be(self.s0) + be(self.s1) + be(self.s2) + be(self.s3) + be(self.s4) + be(self.s5) + be(self.s6) + be(self.s7)
    }

    pub fn octets(&self) -> (r: [u8; 16])
        ensures
            r@ == self.bytes(),
    {
        let r = [
            high_byte(self.s0),
            low_byte(self.s0),
            high_byte(self.s1),
            low_byte(self.s1),
            high_byte(self.s2),
            low_byte(self.s2),
            high_byte(self.s3),
            low_byte(self.s3),
            high_byte(self.s4),
            low_byte(self.s4),
            high_byte(self.s5),
            low_byte(self.s5),
            high_byte(self.s6),
            low_byte(self.s6),
            high_byte(self.s7),
            low_byte(self.s7),
        ];
        assert(r@ =~= self.bytes());
        r
    }

    /// The address with the given sixteen bytes.
    pub open spec fn of_bytes(b: Seq<u8>) -> Ipv6Addr {
        Ipv6Addr {
            s0: word(b[0], b[1]),
            s1: word(b[2], b[3]),
            s2: word(b[4], b[5]),
            s3: word(b[6], b[7]),
            s4: word(b[8], b[9]),
            s5: word(b[10], b[11]),
            s6: word(b[12], b[13]),
            s7: word(b[14], b[15]),
        }
    }

    pub fn from_bytes(b: &[u8]) -> (r: Ipv6Addr)
        requires
            b@.len() == 16,
        ensures
            r == Ipv6Addr::of_bytes(b@),
    {
        Ipv6Addr {
            s0: word_of(b[0], b[1]),
            s1: word_of(b[2], b[3]),
            s2: word_of(b[4], b[5]),
            s3: word_of(b[6], b[7]),
            s4: word_of(b[8], b[9]),
            s5: word_of(b[10], b[11]),
            s6: word_of(b[12], b[13]),
            s7: word_of(b[14], b[15]),
        }
    }

    /// The address `::1`.
    pub open spec fn loopback(self) -> bool {
        self == (Ipv6Addr { s0: 0, s1: 0, s2: 0, s3: 0, s4: 0, s5: 0, s6: 0, s7: 1 })
    }

    pub fn is_loopback(&self) -> (r: bool)
        ensures
            r == self.loopback(),
    {
        *self == (Ipv6Addr { s0: 0, s1: 0, s2: 0, s3: 0, s4: 0, s5: 0, s6: 0, s7: 1 })
    }

    /// The IPv4 address that the address stands for, where it is of `::ffff:0:0/96`.
    pub open spec fn mapped(self) -> Option<Ipv4Addr> {
        if self.s0 == 0 && self.s1 == 0 && self.s2 == 0 && self.s3 == 0 && self.s4 == 0 && self.s5 == 0xffff {
            Some(Ipv4Addr { a: high(self.s6), b: low(self.s6), c: high(self.s7), d: low(self.s7) })
        } else {
            None
        }
    }

    pub fn to_ipv4_mapped(&self) -> (r: Option<Ipv4Addr>)
        ensures
            r == self.mapped(),
    {
        if self.s0 == 0 && self.s1 == 0 && self.s2 == 0 && self.s3 == 0 && self.s4 == 0 && self.s5 == 0xffff {
            Some(
                Ipv4Addr {
                    a: high_byte(self.s6),
                    b: low_byte(self.s6),
                    c: high_byte(self.s7),
                    d: low_byte(self.s7),
                },
            )
        } else {
            None
        }
    }

    /// The address in its canonical form: lower-case hexadecimal groups without leading zeros, the
    /// first of the longest runs of two or more zero groups written `::`, and an IPv4-mapped address
    /// with its last two groups in dotted decimal.
    pub open spec fn text(self) -> Seq<char> {
        match self.mapped() {
            Some(v4) => seq![':', ':', 'f', 'f', 'f', 'f', ':'] + v4.text(),
            None => {
                let g = self.groups();
                let (start, len) = longest_zeros(g, 0);
                if len > 1 {
                    group_text(g.subrange(0, start)) + seq![':', ':'] + group_text(
                        g.subrange(start + len, 8),
                    )
                } else {
                    group_text(g)
                }
            },
        }
    }

    /// The address in its canonical form.
    pub fn to_text(&self) -> (r: String)
        ensures
            r@ == self.text(),
    {
        let mut r = String::new();
        match self.to_ipv4_mapped() {
            Some(v4) => {
                r.push(':');
                r.push(':');
                r.push('f');
                r.push('f');
                r.push('f');
                r.push('f');
                r.push(':');
                let t = v4.to_text();
                r.append(&t);
                assert(r@ =~= self.text());
            },
            None => {
                let g = self.segments();
                let mut start: usize = 8;
                let mut len: usize = 0;
                let mut zeros: usize = 0;
                let mut i: usize = 8;
                while i > 0
                    invariant
                        i <= 8,
                        g@ == self.groups(),
                        zeros as nat == zeros_from(g@, i as int),
                        zeros <= 8 - i,
                        (start as int, len as int) == longest_zeros(g@, i as int),
                        start + len <= 8,
                        len <= 8,
                    decreases i,
                {
                    i = i - 1;
                    if g[i] == 0 {
                        zeros = zeros + 1;
                    } else {
                        zeros = 0;
                    }
                    if zeros > 0 && zeros >= len {
                        start = i;
                        len = zeros;
                    }
                }
                if len > 1 {
                    push_groups(&mut r, &g, 0, start);
                    r.push(':');
                    r.push(':');
                    push_groups(&mut r, &g, start + len, 8);
                    assert(r@ =~= self.text());
                } else {
                    push_groups(&mut r, &g, 0, 8);
                    assert(g@.subrange(0, 8) =~= g@);
                    assert(r@ =~= self.text());
                }
            },
        }
        r
    }
}

/// The number of zero groups in a row from `i` on.
pub open spec fn zeros_from(g: Seq<u16>, i: int) -> nat
    decreases g.len() - i,
{
    if 0 <= i < g.len() && g[i] == 0 {
        1 + zeros_from(g, i + 1)
    } else {
        0
    }
}

/// The start and the length of the longest run of zero groups that starts at `i` or behind it, the
/// first one where several are as long.
pub open spec fn longest_zeros(g: Seq<u16>, i: int) -> (int, int)
    decreases g.len() - i,
{
    if 0 <= i < g.len() {
        let later = longest_zeros(g, i + 1);
        let here = zeros_from(g, i);
        if here > 0 && here >= later.1 {
            (i, here as int)
        } else {
            later
        }
    } else {
        (g.len() as int, 0)
    }
}

/// The groups in hexadecimal with a colon between them.
pub open spec fn group_text(g: Seq<u16>) -> Seq<char>
    decreases g.len(),
{
    if g.len() == 0 {
        Seq::empty()
    } else if g.len() == 1 {
        text::hex(g[0] as nat)
    } else {
        group_text(g.drop_last()) + seq![':'] + text::hex(g.last() as nat)
    }
}

fn push_groups(s: &mut String, g: &[u16; 8], from: usize, to: usize)
    requires
        from <= to <= 8,
    ensures
        final(s)@ == old(s)@ + group_text(g@.subrange(from as int, to as int)),
{
    let mut i: usize = from;
    assert(old(s)@ + group_text(g@.subrange(from as int, from as int)) =~= s@);
    while i < to
        invariant
            from <= i <= to <= 8,
            s@ == old(s)@ + group_text(g@.subrange(from as int, i as int)),
        decreases to - i,
    {
        let ghost part = g@.subrange(from as int, i + 1);
        assert(part.drop_last() =~= g@.subrange(from as int, i as int));
        if i > from {
            s.push(':');
        }
        text::push_hex(s, g[i]);
        assert(s@ =~= old(s)@ + group_text(part));
        i = i + 1;
    }
}

impl SocketAddrV4 {
    pub fn new(ip: Ipv4Addr, port: u16) -> (r: SocketAddrV4)
        ensures
            r == (SocketAddrV4 { ip, port }),
    {
        SocketAddrV4 { ip, port }
    }
}

impl SocketAddrV6 {
    pub fn new(ip: Ipv6Addr, port: u16, flowinfo: u32, scope_id: u32) -> (r: SocketAddrV6)
        ensures
            r == (SocketAddrV6 { ip, port, flowinfo, scope_id }),
    {
        SocketAddrV6 { ip, port, flowinfo, scope_id }
    }
}

impl SocketAddr {
    /// The address without the port, as text.
    pub open spec fn host(self) -> Seq<char> {
        match self {
            SocketAddr::V4(v4) => v4.ip.text(),
            SocketAddr::V6(v6) => v6.ip.text(),
        }
    }

    pub open spec fn port_number(self) -> u16 {
        match self {
            SocketAddr::V4(v4) => v4.port,
            SocketAddr::V6(v6) => v6.port,
        }
    }

    /// `address:port`; an IPv6 address stands in square brackets, with its scope where it has one.
    pub open spec fn text(self) -> Seq<char> {
        match self {
            SocketAddr::V4(v4) => v4.ip.text() + seq![':'] + text::dec(v4.port as nat),
            SocketAddr::V6(v6) => {
                let scope = if v6.scope_id == 0 {
                    Seq::empty()
                } else {
                    seq!['%'] + text::dec(v6.scope_id as nat)
                };
                seq!['['] + v6.ip.text() + scope + seq![']', ':'] + text::dec(v6.port as nat)
            },
        }
    }

    pub fn port(&self) -> (r: u16)
        ensures
            r == self.port_number(),
    {
        match self {
            SocketAddr::V4(v4) => v4.port,
            SocketAddr::V6(v6) => v6.port,
        }
    }

    /// The address without the port, as text.
    pub fn host_text(&self) -> (r: String)
        ensures
            r@ == self.host(),
    {
        match self {
            SocketAddr::V4(v4) => v4.ip.to_text(),
            SocketAddr::V6(v6) => v6.ip.to_text(),
        }
    }

    /// `address:port`; an IPv6 address stands in square brackets.
    pub fn to_text(&self) -> (r: String)
        ensures
            r@ == self.text(),
    {
        match self {
            SocketAddr::V4(v4) => {
                let mut r = v4.ip.to_text();
                r.push(':');
                text::push_dec(&mut r, v4.port as u64);
                assert(r@ =~= self.text());
                r
            },
            SocketAddr::V6(v6) => {
                let mut r = String::new();
                r.push('[');
                let t = v6.ip.to_text();
                r.append(&t);
                if v6.scope_id != 0 {
                    r.push('%');
                    text::push_dec(&mut r, v6.scope_id as u64);
                }
                r.push(']');
                r.push(':');
                text::push_dec(&mut r, v6.port as u64);
                assert(r@ =~= self.text());
                r
            },
        }
    }
}

// An address is shown as its text.

impl std::fmt::Debug for Ipv4Addr {
    fn fmt(&self, f: &mut std::fmt::Formatter<'_>) -> (r: std::fmt::Result)
        ensures
            r is Ok ==> text::written(*final(f)) == text::written(*old(f)) + self.text(),
    {
        text::write_text(f, &self.to_text())
    }
}

impl std::fmt::Debug for Ipv6Addr {
    fn fmt(&self, f: &mut std::fmt::Formatter<'_>) -> (r: std::fmt::Result)
        ensures
            r is Ok ==> text::written(*final(f)) == text::written(*old(f)) + self.text(),
    {
        text::write_text(f, &self.to_text())
    }
}

impl std::fmt::Debug for SocketAddrV4 {
    fn fmt(&self, f: &mut std::fmt::Formatter<'_>) -> (r: std::fmt::Result)
        ensures
            r is Ok ==> text::written(*final(f)) == text::written(*old(f)) + SocketAddr::V4(*self).text(),
    {
        text::write_text(f, &SocketAddr::V4(*self).to_text())
    }
}

impl std::fmt::Debug for SocketAddrV6 {
    fn fmt(&self, f: &mut std::fmt::Formatter<'_>) -> (r: std::fmt::Result)
        ensures
            r is Ok ==> text::written(*final(f)) == text::written(*old(f)) + SocketAddr::V6(*self).text(),
    {
        text::write_text(f, &SocketAddr::V6(*self).to_text())
    }
}

impl std::fmt::Debug for SocketAddr {
    fn fmt(&self, f: &mut std::fmt::Formatter<'_>) -> (r: std::fmt::Result)
        ensures
            r is Ok ==> text::written(*final(f)) == text::written(*old(f)) + self.text(),
    {
        text::write_text(f, &self.to_text())
    }
}

// Recognising addresses.

/// One to four hexadecimal digits.
pub open spec fn hex_group(s: Seq<char>) -> bool {
    1 <= s.len() <= 4 && forall|i: int| 0 <= i < s.len() ==> is_hex(#[trigger] s[i])
}

pub open spec fn is_hex(c: char) -> bool {
    '0' <= c <= '9' || 'a' <= c <= 'f' || 'A' <= c <= 'F'
}

/// The number of 16-bit groups that the text writes out with a colon between them. Where `v4` holds
/// the last two may be written as an IPv4 address.
pub open spec fn group_count(s: Seq<char>, v4: bool) -> Option<nat>
    decreases s.len(),
{
    let head = text::before(s, ':');
    match text::after(s, ':') {
        None => if hex_group(head) {
            Some(1)
        } else if v4 && Ipv4Addr::of_text(head) is Some {
            Some(2)
        } else {
            None
        },
        Some(rest) => {
            proof {
                text::after_is_shorter(s, ':');
            }
            if hex_group(head) {
                match group_count(rest, v4) {
                    Some(n) => Some(n + 1),
                    None => None,
                }
            } else {
                None
            }
        },
    }
}

/// As `group_count`, where no text writes no group.
pub open spec fn side_count(s: Seq<char>, v4: bool) -> Option<nat> {
    if s.len() == 0 {
        Some(0)
    } else {
        group_count(s, v4)
    }
}

/// `s` has `::` at `k`, with at most seven groups written on its two sides and no IPv4 address on
/// the left one.
pub open spec fn elided_at(s: Seq<char>, k: int) -> bool {
    &&& 0 <= k <= s.len() - 2
    &&& s[k] == ':' && s[k + 1] == ':'
    &&& match (side_count(s.subrange(0, k), false), side_count(s.subrange(k + 2, s.len() as int), true)) {
        (Some(h), Some(t)) => h + t <= 7,
        _ => false,
    }
}

/// The text writes an IPv6 address: eight groups, or fewer with `::` once in place of the others.
pub open spec fn ipv6_literal(s: Seq<char>) -> bool {
    group_count(s, true) == Some(8nat) || exists|k: int| elided_at(s, k)
}

/// The text writes an IPv4 or an IPv6 address.
pub open spec fn ip_literal(s: Seq<char>) -> bool {
    Ipv4Addr::of_text(s) is Some || ipv6_literal(s)
}

fn is_hex_group(s: &str) -> (r: bool)
    ensures
        r == hex_group(s@),
{
    let v = text::chars_of(s);
    if v.len() < 1 || v.len() > 4 {
        return false;
    }
    let mut i: usize = 0;
    while i < v.len()
        invariant
            v@ == s@,
            i <= v@.len(),
            forall|j: int| 0 <= j < i ==> is_hex(#[trigger] v@[j]),
        decreases v@.len() - i,
    {
        let c = v[i];
        if !(('0' <= c && c <= '9') || ('a' <= c && c <= 'f') || ('A' <= c && c <= 'F')) {
            return false;
        }
        i = i + 1;
    }
    true
}

/// The number of groups that the text writes, counted no further than nine.
fn count_groups(s: &str, v4: bool) -> (r: Option<u8>)
    ensures
        match group_count(s@, v4) {
            Some(c) => r == Some(if c < 9 {
                c as u8
            } else {
                9u8
            }),
            None => r is None,
        },
    decreases s@.len(),
{
    let (head, rest) = text::cut(s, ':');
    match rest {
        None => {
            if is_hex_group(&head) {
                Some(1)
            } else if v4 && Ipv4Addr::parse(&head).is_some() {
                Some(2)
            } else {
                None
            }
        },
        Some(rest) => {
            proof {
                text::after_is_shorter(s@, ':');
            }
            if !is_hex_group(&head) {
                return None;
            }
            match count_groups(&rest, v4) {
                Some(n) => if n < 9 {
                    Some(n + 1)
                } else {
                    Some(9)
                },
                None => None,
            }
        },
    }
}

fn count_side(s: &str, v4: bool) -> (r: Option<u8>)
    ensures
        match side_count(s@, v4) {
            Some(c) => r == Some(if c < 9 {
                c as u8
            } else {
                9u8
            }),
            None => r is None,
        },
{
    if text::chars_of(s).len() == 0 {
        Some(0)
    } else {
        count_groups(s, v4)
    }
}

fn is_ipv6_literal(s: &str) -> (r: bool)
    ensures
        r == ipv6_literal(s@),
{
    if count_groups(s, true) == Some(8u8) {
        return true;
    }
    let v = text::chars_of(s);
    let mut k: usize = 0;
    while k < v.len() && v.len() - k >= 2
        invariant
            v@ == s@,
            k <= v@.len(),
            forall|j: int| 0 <= j < k ==> !elided_at(s@, j),
        decreases v@.len() - k,
    {
        if v[k] == ':' && v[k + 1] == ':' {
            let head = text::text_of(&v, 0, k);
            let tail = text::text_of(&v, k + 2, v.len());
            match (count_side(&head, false), count_side(&tail, true)) {
                (Some(h), Some(t)) => {
                    if h + t <= 7 {
                        assert(elided_at(s@, k as int));
                        return true;
                    }
                },
                _ => {},
            }
        }
        k = k + 1;
    }
    false
}

/// The text writes an IPv4 or an IPv6 address.
pub fn is_ip_literal(s: &str) -> (r: bool)
    ensures
        r == ip_literal(s@),
{
    Ipv4Addr::parse(s).is_some() || is_ipv6_literal(s)
}

// Laws.

/// Network byte order puts the more significant byte first.
pub proof fn network_order(n: u16, h: u8, l: u8)
    ensures
        be(n).len() == 2,
        be(n)[0] * 256 + be(n)[1] == n,
        word(h, l) == h * 256 + l,
        be(word(h, l)) == seq![h, l],
{
    assert(be(word(h, l)) =~= seq![h, l]);
}

/// The octets of an address are the digits of its number to the base 256, and every number is that of one
/// address.
pub proof fn octets_make_the_number(ip: Ipv4Addr, n: u32)
    ensures
        ip.bytes() == seq![ip.a, ip.b, ip.c, ip.d],
        ip.number() == ((ip.a * 256 + ip.b) * 256 + ip.c) * 256 + ip.d,
        Ipv4Addr::of_number(n).number() == n,
        ip.loopback() <==> 0x7f00_0000 <= ip.number() <= 0x7fff_ffff,
{
}

/// The bytes of an IPv6 address are those of its groups, each in network byte order, and give it back. The
/// loopback address is fifteen zeros and a one.
pub proof fn ipv6_bytes(ip: Ipv6Addr, b: Seq<u8>)
    requires
        b.len() == 16,
    ensures
        ip.bytes().len() == 16,
        forall|i: int| 0 <= i < 8 ==> ip.bytes()[2 * i] * 256 + ip.bytes()[2 * i + 1] == #[trigger] ip.groups()[i],
        Ipv6Addr::of_bytes(ip.bytes()) == ip,
        Ipv6Addr::of_bytes(b).bytes() == b,
        Ipv6Addr::of_bytes(b).loopback() <==> b == seq![0u8, 0, 0, 0, 0, 0, 0, 0, 0, 0, 0, 0, 0, 0, 0, 1],
        Ipv6Addr::of_bytes(b).mapped() is Some <==> b.subrange(0, 12) == seq![0u8, 0, 0, 0, 0, 0, 0, 0, 0, 0, 255, 255],
        Ipv6Addr::of_bytes(b).mapped() is Some ==> Ipv6Addr::of_bytes(b).mapped()->0.bytes() == b.subrange(12, 16),
{
    let x = Ipv6Addr::of_bytes(b);
    assert(x.bytes() =~= b);
    let one = seq![0u8, 0, 0, 0, 0, 0, 0, 0, 0, 0, 0, 0, 0, 0, 0, 1];
    if x.loopback() {
        assert(b[0] == 0 && b[1] == 0 && b[2] == 0 && b[3] == 0 && b[4] == 0 && b[5] == 0 && b[6] == 0 && b[7] == 0);
        assert(b[8] == 0 && b[9] == 0 && b[10] == 0 && b[11] == 0 && b[12] == 0 && b[13] == 0 && b[14] == 0);
        assert(b =~= one);
    }
    let p = b.subrange(0, 12);
    let head = seq![0u8, 0, 0, 0, 0, 0, 0, 0, 0, 0, 255, 255];
    assert(forall|i: int| 0 <= i < 12 ==> p[i] == b[i]);
    if x.mapped() is Some {
        assert(b[0] == 0 && b[1] == 0 && b[2] == 0 && b[3] == 0 && b[4] == 0 && b[5] == 0 && b[6] == 0 && b[7] == 0);
        assert(b[8] == 0 && b[9] == 0 && b[10] == 255 && b[11] == 255);
        assert(p =~= head);
        assert(x.mapped()->0.bytes() =~= b.subrange(12, 16));
    }
    if p == head {
        assert(b[0] == head[0] && b[1] == head[1] && b[2] == head[2] && b[3] == head[3] && b[4] == head[4]);
        assert(b[5] == head[5] && b[6] == head[6] && b[7] == head[7] && b[8] == head[8] && b[9] == head[9]);
        assert(b[10] == head[10] && b[11] == head[11]);
    }
}

/// The run that is written `::` holds zero groups only and is the first of the longest.
pub proof fn longest_run_of_zeros(g: Seq<u16>, i: int, k: int)
    requires
        0 <= i <= g.len(),
        i <= k <= g.len(),
    ensures
        ({
            let (start, len) = longest_zeros(g, i);
            &&& i <= start && 0 <= len && start + len <= g.len()
            &&& forall|j: int| start <= j < start + len ==> #[trigger] g[j] == 0
            &&& zeros_from(g, k) <= len
            &&& k < start && len > 0 ==> zeros_from(g, k) < len
        }),
    decreases g.len() - i,
{
    if i < g.len() {
        longest_run_of_zeros(g, i + 1, if k > i {
            k
        } else {
            i + 1
        });
        lemma_zeros_from(g, i);
    }
}

proof fn lemma_zeros_from(g: Seq<u16>, i: int)
    requires
        0 <= i <= g.len(),
    ensures
        i + zeros_from(g, i) <= g.len(),
        forall|j: int| i <= j < i + zeros_from(g, i) ==> #[trigger] g[j] == 0,
    decreases g.len() - i,
{
    if i < g.len() && g[i] == 0 {
        lemma_zeros_from(g, i + 1);
    }
}

/// Zero groups in a row are all counted.
pub proof fn zeros_are_counted(g: Seq<u16>, i: int, n: nat)
    requires
        0 <= i,
        i + n <= g.len(),
        forall|j: int| i <= j < i + n ==> #[trigger] g[j] == 0,
    ensures
        zeros_from(g, i) >= n,
    decreases n,
{
    if n > 0 {
        assert(g[i] == 0);
        zeros_are_counted(g, i + 1, (n - 1) as nat);
    }
}

/// Texts with a colon between them.
pub open spec fn colon_joined(g: Seq<Seq<char>>) -> Seq<char>
    decreases g.len(),
{
    if g.len() == 0 {
        Seq::empty()
    } else if g.len() == 1 {
        g[0]
    } else {
        g[0] + seq![':'] + colon_joined(g.drop_first())
    }
}

/// The characters 0 to 9, a to f and A to F, by their codes.
pub open spec fn hexadecimal_code(c: char) -> bool {
    let n = c as int;
    48 <= n <= 57 || 97 <= n <= 102 || 65 <= n <= 70
}

/// One to four hexadecimal digits.
pub open spec fn short_hexadecimal(s: Seq<char>) -> bool {
    1 <= s.len() <= 4 && forall|i: int| 0 <= i < s.len() ==> hexadecimal_code(#[trigger] s[i])
}

proof fn lemma_short_hexadecimal(s: Seq<char>)
    ensures
        short_hexadecimal(s) <==> hex_group(s),
        hex_group(s) ==> text::before(s, ':') == s && text::after(s, ':') is None,
        hex_group(s) ==> forall|rest: Seq<char>| #![trigger s + seq![':'] + rest]
            text::before(s + seq![':'] + rest, ':') == s && text::after(s + seq![':'] + rest, ':') == Some(rest),
{
    if short_hexadecimal(s) {
        assert forall|i: int| 0 <= i < s.len() implies is_hex(#[trigger] s[i]) by {
            assert(hexadecimal_code(s[i]));
        }
    }
    if hex_group(s) {
        assert forall|i: int| 0 <= i < s.len() implies hexadecimal_code(#[trigger] s[i]) by {
            assert(is_hex(s[i]));
        }
        assert forall|i: int| 0 <= i < s.len() implies #[trigger] s[i] != ':' by {
            assert(is_hex(s[i]));
        }
        text::text_is_cut_at_the_first(s, ':');
        if text::after(s, ':') is Some {
            let b = text::before(s, ':');
            assert(s[b.len() as int] == ':');
        }
        assert forall|rest: Seq<char>| #![trigger s + seq![':'] + rest]
            text::before(s + seq![':'] + rest, ':') == s && text::after(s + seq![':'] + rest, ':') == Some(rest) by {
            text::cut_of_joined(s, ':', rest);
        }
    }
}

proof fn lemma_ipv4_text_letters(ip: Ipv4Addr)
    ensures
        ip.text().len() >= 7,
        forall|i: int| 0 <= i < ip.text().len() ==> text::is_digit(#[trigger] ip.text()[i]) || ip.text()[i] == '.',
        ip.text().contains('.'),
        text::before(ip.text(), ':') == ip.text(),
        text::after(ip.text(), ':') is None,
        !hex_group(ip.text()),
{
    text::dec_is_read_back(ip.a as nat, 255);
    text::dec_is_read_back(ip.b as nat, 255);
    text::dec_is_read_back(ip.c as nat, 255);
    text::dec_is_read_back(ip.d as nat, 255);
    let a = text::dec(ip.a as nat);
    let b = text::dec(ip.b as nat);
    let c = text::dec(ip.c as nat);
    let d = text::dec(ip.d as nat);
    let dot = seq!['.'];
    let t = ip.text();
    assert(t =~= a + dot + b + dot + c + dot + d);
    let n1 = a.len() as int;
    let n2 = n1 + 1 + b.len();
    let n3 = n2 + 1 + c.len();
    assert forall|i: int| 0 <= i < t.len() implies text::is_digit(#[trigger] t[i]) || t[i] == '.' by {
        if i < n1 {
            assert(t[i] == a[i]);
        } else if i == n1 {
        } else if i < n2 {
            assert(t[i] == b[i - n1 - 1]);
        } else if i == n2 {
        } else if i < n3 {
            assert(t[i] == c[i - n2 - 1]);
        } else if i == n3 {
        } else {
            assert(t[i] == d[i - n3 - 1]);
        }
    }
    assert(t[n1] == '.');
    text::text_is_cut_at_the_first(t, ':');
    if text::after(t, ':') is Some {
        let k = text::before(t, ':').len() as int;
        assert(t[k] == ':');
        assert(text::is_digit(t[k]) || t[k] == '.');
    }
    if hex_group(t) {
        assert(is_hex(t[n1]));
    }
}

proof fn lemma_joined_count(g: Seq<Seq<char>>, v4: bool)
    requires
        g.len() > 0,
        forall|i: int| 0 <= i < g.len() ==> short_hexadecimal(#[trigger] g[i]),
    ensures
        group_count(colon_joined(g), v4) == Some(g.len()),
        colon_joined(g).len() > 0,
    decreases g.len(),
{
    lemma_short_hexadecimal(g[0]);
    assert(short_hexadecimal(g[0]));
    if g.len() > 1 {
        let t = g.drop_first();
        assert forall|i: int| 0 <= i < t.len() implies short_hexadecimal(#[trigger] t[i]) by {
            assert(t[i] == g[i + 1]);
        }
        lemma_joined_count(t, v4);
        assert(colon_joined(g) == g[0] + seq![':'] + colon_joined(t));
    }
}

proof fn lemma_joined_count_with_ipv4(g: Seq<Seq<char>>, ip: Ipv4Addr)
    requires
        forall|i: int| 0 <= i < g.len() ==> short_hexadecimal(#[trigger] g[i]),
    ensures
        group_count(colon_joined(g.push(ip.text())), true) == Some(g.len() + 2),
        colon_joined(g.push(ip.text())).len() > 0,
    decreases g.len(),
{
    lemma_ipv4_text_letters(ip);
    ipv4_of_its_text(ip);
    let all = g.push(ip.text());
    if g.len() == 0 {
        assert(all[0] == ip.text());
    } else {
        lemma_short_hexadecimal(g[0]);
        assert(short_hexadecimal(g[0]));
        let t = g.drop_first();
        assert forall|i: int| 0 <= i < t.len() implies short_hexadecimal(#[trigger] t[i]) by {
            assert(t[i] == g[i + 1]);
        }
        lemma_joined_count_with_ipv4(t, ip);
        assert(all.drop_first() =~= t.push(ip.text()));
        assert(colon_joined(all) == g[0] + seq![':'] + colon_joined(all.drop_first()));
    }
}

/// Eight groups of one to four hexadecimal digits in either case, with a colon between them, are an address,
/// and so are six of them and an IPv4 address.
pub proof fn groups_written_out_are_an_address(g: Seq<Seq<char>>, ip: Ipv4Addr)
    requires
        forall|i: int| 0 <= i < g.len() ==> short_hexadecimal(#[trigger] g[i]),
    ensures
        g.len() == 8 ==> ip_literal(colon_joined(g)),
        g.len() == 6 ==> ip_literal(colon_joined(g.push(ip.text()))),
{
    if g.len() == 8 {
        lemma_joined_count(g, true);
    }
    if g.len() == 6 {
        lemma_joined_count_with_ipv4(g, ip);
    }
}

/// Where fewer groups are written out, `::` once in their midst or at an end makes them an address.
pub proof fn elided_groups_are_an_address(left: Seq<Seq<char>>, right: Seq<Seq<char>>, ip: Ipv4Addr)
    requires
        forall|i: int| 0 <= i < left.len() ==> short_hexadecimal(#[trigger] left[i]),
        forall|i: int| 0 <= i < right.len() ==> short_hexadecimal(#[trigger] right[i]),
    ensures
        left.len() + right.len() <= 7 ==> ip_literal(colon_joined(left) + seq![':', ':'] + colon_joined(right)),
        left.len() + right.len() <= 5 ==> ip_literal(
            colon_joined(left) + seq![':', ':'] + colon_joined(right.push(ip.text())),
        ),
{
    let a = colon_joined(left);
    let b = colon_joined(right);
    let c = colon_joined(right.push(ip.text()));
    let k = a.len() as int;
    if left.len() > 0 {
        lemma_joined_count(left, false);
    }
    if right.len() > 0 {
        lemma_joined_count(right, true);
    }
    lemma_joined_count_with_ipv4(right, ip);
    let s = a + seq![':', ':'] + b;
    assert(s.subrange(0, k) =~= a);
    assert(s.subrange(k + 2, s.len() as int) =~= b);
    let t = a + seq![':', ':'] + c;
    assert(t.subrange(0, k) =~= a);
    assert(t.subrange(k + 2, t.len() as int) =~= c);
    if left.len() + right.len() <= 7 {
        assert(elided_at(s, k));
    }
    if left.len() + right.len() <= 5 {
        assert(elided_at(t, k));
    }
}

proof fn lemma_hex_is_short(n: u16)
    ensures
        short_hexadecimal(text::hex(n as nat)),
{
    let n = n as nat;
    reveal_with_fuel(text::hex, 4);
    let h = text::hex(n);
    assert(h.len() <= 4);
    assert forall|i: int| 0 <= i < h.len() implies hexadecimal_code(#[trigger] h[i]) by {
    }
}

pub open spec fn hexadecimals(g: Seq<u16>) -> Seq<Seq<char>> {
    Seq::new(g.len(), |i: int| text::hex(g[i] as nat))
}

proof fn lemma_group_text_is_joined(g: Seq<u16>)
    ensures
        group_text(g) == colon_joined(hexadecimals(g)),
        forall|i: int| 0 <= i < g.len() ==> short_hexadecimal(#[trigger] hexadecimals(g)[i]),
    decreases g.len(),
{
    let h = hexadecimals(g);
    assert forall|i: int| 0 <= i < g.len() implies short_hexadecimal(#[trigger] h[i]) by {
        lemma_hex_is_short(g[i]);
    }
    if g.len() >= 2 {
        let t = g.drop_last();
        lemma_group_text_is_joined(t);
        assert(h.drop_last() =~= hexadecimals(t));
        lemma_joined_at_the_end(h);
    }
}

proof fn lemma_joined_at_the_end(h: Seq<Seq<char>>)
    requires
        h.len() >= 2,
    ensures
        colon_joined(h) == colon_joined(h.drop_last()) + seq![':'] + h.last(),
    decreases h.len(),
{
    let t = h.drop_first();
    reveal_with_fuel(colon_joined, 2);
    if h.len() == 2 {
        assert(t[0] == h.last());
        assert(h.drop_last()[0] == h[0]);
    } else {
        lemma_joined_at_the_end(t);
        assert(t.drop_last() =~= h.drop_last().drop_first());
        assert(h.drop_last()[0] == h[0]);
        assert(colon_joined(h) =~= colon_joined(h.drop_last()) + seq![':'] + h.last());
    }
}

/// The text of an IPv6 address shows its groups in hexadecimal in their order, with `::` in place of zero
/// groups where two or more stand in a row, and only there; one that stands for an IPv4 address shows that.
pub proof fn ipv6_text_shows_the_groups(ip: Ipv6Addr)
    ensures
        ({
            let g = ip.groups();
            let (start, len) = longest_zeros(g, 0);
            &&& ip.mapped() is Some ==> ip.text() == seq![':', ':', 'f', 'f', 'f', 'f', ':'] + ip.mapped()->0.text()
            &&& ip.mapped() is None && len >= 2 ==> ip.text() == colon_joined(hexadecimals(g.subrange(0, start)))
                + seq![':', ':'] + colon_joined(hexadecimals(g.subrange(start + len, 8)))
            &&& ip.mapped() is None && len < 2 ==> ip.text() == colon_joined(hexadecimals(g))
        }),
{
    let g = ip.groups();
    let (start, len) = longest_zeros(g, 0);
    longest_run_of_zeros(g, 0, 0);
    lemma_group_text_is_joined(g);
    lemma_group_text_is_joined(g.subrange(0, start));
    lemma_group_text_is_joined(g.subrange(start + len, 8));
}

/// The text of every address is that of an address.
pub proof fn address_texts_are_addresses(v4: Ipv4Addr, v6: Ipv6Addr)
    ensures
        ip_literal(v4.text()),
        ip_literal(v6.text()),
{
    ipv4_of_its_text(v4);
    let g = v6.groups();
    let (start, len) = longest_zeros(g, 0);
    longest_run_of_zeros(g, 0, 0);
    lemma_group_text_is_joined(g);
    lemma_group_text_is_joined(g.subrange(0, start));
    lemma_group_text_is_joined(g.subrange(start + len, 8));
    match v6.mapped() {
        Some(ip) => {
            let ffff = seq![seq!['f', 'f', 'f', 'f']];
            assert(short_hexadecimal(ffff[0]));
            elided_groups_are_an_address(Seq::empty(), ffff, ip);
            let all = ffff.push(ip.text());
            reveal_with_fuel(colon_joined, 2);
            assert(all.drop_first()[0] == ip.text());
            assert(colon_joined(all) =~= seq!['f', 'f', 'f', 'f'] + seq![':'] + ip.text());
            assert(v6.text() =~= colon_joined(Seq::empty()) + seq![':', ':'] + colon_joined(all));
        },
        None => {
            if len > 1 {
                elided_groups_are_an_address(
                    hexadecimals(g.subrange(0, start)),
                    hexadecimals(g.subrange(start + len, 8)),
                    v4,
                );
            } else {
                groups_written_out_are_an_address(hexadecimals(g), v4);
            }
        },
    }
}

/// The characters that an address is written with, by their codes: digits, the letters a to f in either
/// case, the colon and the dot.
pub open spec fn address_character(c: char) -> bool {
    let n = c as int;
    48 <= n <= 57 || 97 <= n <= 102 || 65 <= n <= 70 || n == 58 || n == 46
}

proof fn lemma_group_letters(s: Seq<char>, v4: bool)
    requires
        group_count(s, v4) is Some,
    ensures
        forall|i: int| 0 <= i < s.len() ==> address_character(#[trigger] s[i]),
        group_count(s, v4)->0 > 2 ==> s.contains(':'),
    decreases s.len(),
{
    let head = text::before(s, ':');
    text::text_is_cut_at_the_first(s, ':');
    if hex_group(head) {
        lemma_short_hexadecimal(head);
    } else {
        let ip = choose|ip: Ipv4Addr| #[trigger] ip.text() == head;
        assert(Ipv4Addr::of_text(head) is Some);
        lemma_ipv4_text_letters(ip);
    }
    match text::after(s, ':') {
        None => {
            assert forall|i: int| 0 <= i < s.len() implies address_character(#[trigger] s[i]) by {
                assert(s[i] == head[i]);
            }
        },
        Some(rest) => {
            text::after_is_shorter(s, ':');
            lemma_group_letters(rest, v4);
            assert(s[head.len() as int] == ':');
            assert forall|i: int| 0 <= i < s.len() implies address_character(#[trigger] s[i]) by {
                if i < head.len() {
                    assert(s[i] == head[i]);
                } else if i > head.len() {
                    assert(s[i] == rest[i - head.len() - 1]);
                }
            }
        },
    }
}

/// An address is written with the characters of addresses only, and is an IPv4 address in dotted decimal or
/// holds a colon.
pub proof fn only_addresses_are_addresses(s: Seq<char>)
    requires
        ip_literal(s),
    ensures
        forall|i: int| 0 <= i < s.len() ==> address_character(#[trigger] s[i]),
        (exists|ip: Ipv4Addr| #[trigger] ip.text() == s) || s.contains(':'),
{
    if Ipv4Addr::of_text(s) is Some {
        let ip = choose|ip: Ipv4Addr| #[trigger] ip.text() == s;
        lemma_ipv4_text_letters(ip);
        assert forall|i: int| 0 <= i < s.len() implies address_character(#[trigger] s[i]) by {
            assert(text::is_digit(s[i]) || s[i] == '.');
        }
    } else if group_count(s, true) == Some(8nat) {
        lemma_group_letters(s, true);
    } else {
        let k = choose|k: int| elided_at(s, k);
        let a = s.subrange(0, k);
        let b = s.subrange(k + 2, s.len() as int);
        if a.len() > 0 {
            lemma_group_letters(a, false);
        }
        if b.len() > 0 {
            lemma_group_letters(b, true);
        }
        assert(s[k] == ':');
        assert forall|i: int| 0 <= i < s.len() implies address_character(#[trigger] s[i]) by {
            if i < k {
                assert(s[i] == a[i]);
            } else if i >= k + 2 {
                assert(s[i] == b[i - k - 2]);
            }
        }
    }
}

/// A socket address shows its address and its port, with a colon between them; an IPv6 address stands in
/// brackets.
pub proof fn socket_address_text(v4: SocketAddrV4, v6: SocketAddrV6)
    ensures
        SocketAddr::V4(v4).host() == v4.ip.text(),
        SocketAddr::V6(v6).host() == v6.ip.text(),
        SocketAddr::V4(v4).port_number() == v4.port,
        SocketAddr::V6(v6).port_number() == v6.port,
        SocketAddr::V4(v4).text() == v4.ip.text() + seq![':'] + text::dec(v4.port as nat),
        v6.scope_id == 0 ==> SocketAddr::V6(v6).text() == seq!['['] + v6.ip.text() + seq![']', ':'] + text::dec(
            v6.port as nat,
        ),
        v6.scope_id != 0 ==> SocketAddr::V6(v6).text() == seq!['['] + v6.ip.text() + seq!['%'] + text::dec(
            v6.scope_id as nat,
        ) + seq![']', ':'] + text::dec(v6.port as nat),
{
    assert(seq!['['] + v6.ip.text() + Seq::<char>::empty() =~= seq!['['] + v6.ip.text());
    assert(seq!['['] + v6.ip.text() + (seq!['%'] + text::dec(v6.scope_id as nat)) =~= seq!['['] + v6.ip.text()
        + seq!['%'] + text::dec(v6.scope_id as nat));
}

/// The texts write `n` groups of an IPv6 address: each is one to four hexadecimal digits, but the last may be an
/// IPv4 address where `v4` holds, and stands for two.
pub open spec fn groups_written(g: Seq<Seq<char>>, v4: bool, n: nat) -> bool {
    ||| g.len() == n && forall|i: int| 0 <= i < g.len() ==> short_hexadecimal(#[trigger] g[i])
    ||| v4 && g.len() >= 1 && g.len() + 1 == n && (forall|i: int|
        0 <= i < g.len() - 1 ==> short_hexadecimal(#[trigger] g[i])) && exists|ip: Ipv4Addr| #[trigger]
        ip.text() == g.last()
}

proof fn lemma_groups_written(s: Seq<char>, v4: bool) -> (g: Seq<Seq<char>>)
    requires
        group_count(s, v4) is Some,
    ensures
        g.len() > 0,
        s == colon_joined(g),
        groups_written(g, v4, group_count(s, v4)->0),
    decreases s.len(),
{
    let head = text::before(s, ':');
    text::text_is_cut_at_the_first(s, ':');
    lemma_short_hexadecimal(head);
    match text::after(s, ':') {
        None => {
            if !hex_group(head) {
                let ip = choose|ip: Ipv4Addr| #[trigger] ip.text() == head;
                assert(Ipv4Addr::of_text(head) is Some);
                assert(ip.text() == seq![head].last());
            }
            seq![head]
        },
        Some(rest) => {
            text::after_is_shorter(s, ':');
            let more = lemma_groups_written(rest, v4);
            let g = seq![head] + more;
            assert(g.drop_first() =~= more);
            assert(g.last() == more.last());
            assert forall|i: int| 0 < i < g.len() implies #[trigger] g[i] == more[i - 1] by {}
            g
        },
    }
}

/// What is taken for an address and is no IPv4 address is eight groups with a colon between them, or up to
/// seven, on the two sides of a double colon.
pub proof fn other_addresses_are_made_of_groups(s: Seq<char>) -> (r: (Seq<Seq<char>>, Seq<Seq<char>>, nat, nat))
    requires
        ip_literal(s),
        forall|ip: Ipv4Addr| #[trigger] ip.text() != s,
    ensures
        s == colon_joined(r.0) && groups_written(r.0, true, 8) || s == colon_joined(r.0) + seq![':', ':'] + colon_joined(r.1)
            && groups_written(r.0, false, r.2) && groups_written(r.1, true, r.3) && r.2 + r.3 <= 7,
{
    if group_count(s, true) == Some(8nat) {
        (lemma_groups_written(s, true), Seq::empty(), 0, 0)
    } else {
        let k = choose|k: int| elided_at(s, k);
        let a = s.subrange(0, k);
        let b = s.subrange(k + 2, s.len() as int);
        assert(s =~= a + seq![':', ':'] + b);
        let left = if a.len() > 0 {
            lemma_groups_written(a, false)
        } else {
            assert(colon_joined(Seq::empty()) =~= a);
            Seq::empty()
        };
        let right = if b.len() > 0 {
            lemma_groups_written(b, true)
        } else {
            assert(colon_joined(Seq::empty()) =~= b);
            Seq::empty()
        };
        (left, right, side_count(a, false)->0, side_count(b, true)->0)
    }
}

} // verus!
