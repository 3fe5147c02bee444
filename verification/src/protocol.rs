//! The target of a connection, and the frame that announces it to the relay.

use vstd::prelude::*;
use vstd::utf8::*;
use crate::bytes;
use crate::net;
use crate::net::{high_byte, low_byte, word_of, Ipv4Addr, Ipv6Addr, SocketAddr, SocketAddrV4, SocketAddrV6};
use crate::text;

verus! {

/// The longest domain name that fits a frame, in bytes.
pub const MAX_DOMAIN_LEN: usize = 255;

/// What a frame starts with: `GHST`.
pub open spec fn magic() -> Seq<u8> {
    seq![0x47u8, 0x48, 0x53, 0x54]
}

#[derive(Clone, Copy, PartialEq, Eq, Structural, Debug)]
pub enum IoErrorKind {
    NotFound,
    UnexpectedEof,
    InvalidData,
    TimedOut,
    Other,
}

/// A failed read, write or connection attempt.
#[derive(Debug)]
pub struct IoError {
    pub kind: IoErrorKind,
    pub message: String,
}

#[derive(Debug)]
pub enum ProtocolError {
    Io(IoError),
    InvalidMagic([u8; 4]),
    UnsupportedAddressType(u8),
    DomainTooLong(usize),
    /// Holds what the decoder said of the bytes.
    InvalidUtf8(String),
    Socks5(String),
}

/// What a `ProtocolError` says.
pub enum ProtocolFault {
    Io(IoErrorKind, Seq<char>),
    InvalidMagic(Seq<u8>),
    UnsupportedAddressType(u8),
    DomainTooLong(usize),
    InvalidUtf8(Seq<char>),
    Socks5(Seq<char>),
}

impl View for ProtocolError {
    type V = ProtocolFault;

    open spec fn view(&self) -> ProtocolFault {
        match self {
            ProtocolError::Io(e) => ProtocolFault::Io(e.kind, e.message@),
            ProtocolError::InvalidMagic(m) => ProtocolFault::InvalidMagic(m@),
            ProtocolError::UnsupportedAddressType(t) => ProtocolFault::UnsupportedAddressType(*t),
            ProtocolError::DomainTooLong(n) => ProtocolFault::DomainTooLong(*n),
            ProtocolError::InvalidUtf8(m) => ProtocolFault::InvalidUtf8(m@),
            ProtocolError::Socks5(m) => ProtocolFault::Socks5(m@),
        }
    }
}

impl ProtocolFault {
    /// The message that a user reads.
    pub open spec fn text(self) -> Seq<char> {
        match self {
            ProtocolFault::Io(_, m) => "I/O 错误: "@ + m,
            ProtocolFault::InvalidMagic(m) => "无效的魔数包头: ["@ + text::dec(m[0] as nat) + ", "@ + text::dec(
                m[1] as nat,
            ) + ", "@ + text::dec(m[2] as nat) + ", "@ + text::dec(m[3] as nat) + "]"@,
            ProtocolFault::UnsupportedAddressType(t) => "不支持的地址类型: "@ + text::dec(t as nat),
            ProtocolFault::DomainTooLong(n) => "域名长度超过限制: "@ + text::dec(n as nat),
            ProtocolFault::InvalidUtf8(m) => "无效的 UTF-8 域名: "@ + m,
            ProtocolFault::Socks5(m) => "SOCKS5 协议错误: "@ + m,
        }
    }
}

impl ProtocolError {
    /// The message that a user reads.
    pub fn message(&self) -> (r: String)
        ensures
            r@ == self@.text(),
    {
        match self {
            ProtocolError::Io(e) => text::join("I/O 错误: ", &e.message),
            ProtocolError::InvalidMagic(m) => {
                let mut r = text::copy_text("无效的魔数包头: [");
                text::push_dec(&mut r, m[0] as u64);
                r.append(", ");
                text::push_dec(&mut r, m[1] as u64);
                r.append(", ");
                text::push_dec(&mut r, m[2] as u64);
                r.append(", ");
                text::push_dec(&mut r, m[3] as u64);
                r.append("]");
                r
            },
            ProtocolError::UnsupportedAddressType(t) => text::join("不支持的地址类型: ", &text::dec_text(*t as u64)),
            ProtocolError::DomainTooLong(n) => text::join("域名长度超过限制: ", &text::dec_text(*n as u64)),
            ProtocolError::InvalidUtf8(m) => text::join("无效的 UTF-8 域名: ", m),
            ProtocolError::Socks5(m) => text::join("SOCKS5 协议错误: ", m),
        }
    }
}

/// Where a connection is meant to go: an address, or a domain name and a port.
#[derive(PartialEq, Eq)]
pub enum TargetAddr {
    Ip(SocketAddr),
    Domain(String, u16),
}

pub enum TargetModel {
    Ip(SocketAddr),
    Domain(Seq<char>, u16),
}

impl View for TargetAddr {
    type V = TargetModel;

    open spec fn view(&self) -> TargetModel {
        match self {
            TargetAddr::Ip(sa) => TargetModel::Ip(*sa),
            TargetAddr::Domain(host, port) => TargetModel::Domain(host@, *port),
        }
    }
}

impl std::fmt::Debug for TargetAddr {
    fn fmt(&self, f: &mut std::fmt::Formatter<'_>) -> (r: std::fmt::Result)
        ensures
            r is Ok ==> text::written(*final(f)) == text::written(*old(f)) + self@.text(),
    {
        text::write_text(f, &self.to_text())
    }
}

impl Clone for TargetAddr {
    fn clone(&self) -> (r: TargetAddr)
        ensures
            r@ == self@,
    {
        match self {
            TargetAddr::Ip(sa) => TargetAddr::Ip(*sa),
            TargetAddr::Domain(host, port) => TargetAddr::Domain(text::copy_text(host), *port),
        }
    }
}

impl TargetModel {
    pub open spec fn port(self) -> u16 {
        match self {
            TargetModel::Ip(sa) => sa.port_number(),
            TargetModel::Domain(_, port) => port,
        }
    }

    /// `host:port`.
    pub open spec fn text(self) -> Seq<char> {
        match self {
            TargetModel::Ip(sa) => sa.text(),
            TargetModel::Domain(host, port) => host + seq![':'] + text::dec(port as nat),
        }
    }

    /// The address as SOCKS5 writes it: a type byte, the address, and the port in network byte order.
    /// A domain name stands behind a length byte and is cut off at `MAX_DOMAIN_LEN` bytes.
    pub open spec fn address(self) -> Seq<u8> {
        match self {
            TargetModel::Ip(SocketAddr::V4(v4)) => seq![1u8] + v4.ip.bytes() + net::be(v4.port),
            TargetModel::Ip(SocketAddr::V6(v6)) => seq![4u8] + v6.ip.bytes() + net::be(v6.port),
            TargetModel::Domain(host, port) => {
                let name = bytes::clipped(encode_utf8(host), MAX_DOMAIN_LEN as nat);
                seq![3u8, name.len() as u8] + name + net::be(port)
            },
        }
    }

    /// The frame that announces the target: the magic bytes and the address.
    pub open spec fn frame(self) -> Seq<u8> {
        magic() + self.address()
    }

    /// The targets that a frame can carry: not a domain name that is empty, too long, or holds a
    /// control character or a space, and not an IPv6 address with flow information or a scope.
    pub open spec fn carried(self) -> bool {
        match self {
            TargetModel::Ip(SocketAddr::V4(_)) => true,
            TargetModel::Ip(SocketAddr::V6(v6)) => v6.flowinfo == 0 && v6.scope_id == 0,
            TargetModel::Domain(host, _) => 0 < encode_utf8(host).len() <= MAX_DOMAIN_LEN && printable(host),
        }
    }
}

/// The text holds no control character and no space.
pub open spec fn printable(s: Seq<char>) -> bool {
    forall|i: int| 0 <= i < s.len() ==> !(text::control(#[trigger] s[i]) || s[i] == ' ')
}

fn is_printable(s: &str) -> (r: bool)
    ensures
        r == printable(s@),
{
    let v = text::chars_of(s);
    let mut i: usize = 0;
    while i < v.len()
        invariant
            v@ == s@,
            i <= v@.len(),
            forall|j: int| 0 <= j < i ==> !(text::control(#[trigger] v@[j]) || v@[j] == ' '),
        decreases v@.len() - i,
    {
        let c = v[i];
        if text::is_control(c) || c == ' ' {
            assert(text::control(s@[i as int]) || s@[i as int] == ' ');
            return false;
        }
        i = i + 1;
    }
    true
}

/// Appends the first `MAX_DOMAIN_LEN` bytes of the name behind a length byte.
fn push_name(v: &mut Vec<u8>, name: &[u8])
    ensures
        final(v)@ == old(v)@ + seq![bytes::clipped(name@, 255).len() as u8] + bytes::clipped(name@, 255),
{
    let len: usize = if name.len() <= 255 {
        name.len()
    } else {
        255
    };
    v.push(len as u8);
    let p = bytes::part(name, 0, len);
    assert(p@ =~= bytes::clipped(name@, 255));
    bytes::push_all(v, &p);
    assert(v@ =~= old(v)@ + seq![bytes::clipped(name@, 255).len() as u8] + bytes::clipped(name@, 255));
}

fn push_port(v: &mut Vec<u8>, port: u16)
    ensures
        final(v)@ == old(v)@ + net::be(port),
{
    v.push(high_byte(port));
    v.push(low_byte(port));
    assert(v@ =~= old(v)@ + net::be(port));
}

impl TargetAddr {
    pub fn port(&self) -> (r: u16)
        ensures
            r == self@.port(),
    {
        match self {
            TargetAddr::Ip(sa) => sa.port(),
            TargetAddr::Domain(_, port) => *port,
        }
    }

    /// `host:port`.
    pub fn to_text(&self) -> (r: String)
        ensures
            r@ == self@.text(),
    {
        match self {
            TargetAddr::Ip(sa) => sa.to_text(),
            TargetAddr::Domain(host, port) => {
                let mut r = text::copy_text(host);
                r.push(':');
                text::push_dec(&mut r, *port as u64);
                assert(r@ =~= self@.text());
                r
            },
        }
    }

    /// Appends the address as SOCKS5 writes it.
    pub(crate) fn push_address(&self, v: &mut Vec<u8>)
        ensures
            final(v)@ == old(v)@ + self@.address(),
    {
        match self {
            TargetAddr::Ip(SocketAddr::V4(v4)) => {
                v.push(1);
                bytes::push_all(v, &v4.ip.octets());
                push_port(v, v4.port);
            },
            TargetAddr::Ip(SocketAddr::V6(v6)) => {
                v.push(4);
                bytes::push_all(v, &v6.ip.octets());
                push_port(v, v6.port);
            },
            TargetAddr::Domain(host, port) => {
                v.push(3);
                push_name(v, host.as_str().as_bytes());
                push_port(v, *port);
            },
        }
        assert(v@ =~= old(v)@ + self@.address());
    }

    /// The frame that announces the target to the relay.
    pub fn encode(&self) -> (r: Vec<u8>)
        ensures
            r@ == self@.frame(),
    {
        let mut v: Vec<u8> = Vec::new();
        v.push(0x47);
        v.push(0x48);
        v.push(0x53);
        v.push(0x54);
        assert(v@ =~= magic());
        self.push_address(&mut v);
        v
    }
}

/// What the bytes received so far say of the frame.
pub enum FrameModel {
    /// The frame goes on for at least this many bytes.
    Short(nat),
    /// The frame is complete and is this many bytes long.
    Ready(TargetModel, nat),
    /// No frame starts like this.
    Failed(ProtocolFault),
}

pub open spec fn ip_frame(b: Seq<u8>, ip: nat, sa: SocketAddr) -> FrameModel {
    if b.len() < 5 + ip {
        FrameModel::Short((5 + ip - b.len()) as nat)
    } else if b.len() < 7 + ip {
        FrameModel::Short((7 + ip - b.len()) as nat)
    } else {
        FrameModel::Ready(TargetModel::Ip(sa), 7 + ip)
    }
}

pub open spec fn domain_frame(b: Seq<u8>) -> FrameModel {
    if b.len() < 6 {
        FrameModel::Short(1)
    } else if b[5] == 0 {
        FrameModel::Failed(ProtocolFault::Io(IoErrorKind::InvalidData, "目标域名长度不能为 0"@))
    } else {
        let len = b[5] as int;
        let name = b.subrange(6, 6 + len);
        if b.len() < 6 + len {
            FrameModel::Short((6 + len - b.len()) as nat)
        } else if b.len() < 8 + len {
            FrameModel::Short((8 + len - b.len()) as nat)
        } else if !valid_utf8(name) {
            FrameModel::Failed(ProtocolFault::InvalidUtf8(text::utf8_complaint(name)))
        } else if !printable(decode_utf8(name)) {
            FrameModel::Failed(ProtocolFault::Io(IoErrorKind::InvalidData, "目标域名包含非法控制字符或空格"@))
        } else {
            FrameModel::Ready(
                TargetModel::Domain(decode_utf8(name), net::word(b[6 + len], b[7 + len])),
                (8 + len) as nat,
            )
        }
    }
}

/// What the bytes received so far say of the frame: the magic bytes are looked at first, then the
/// type byte, then the address and the port.
pub open spec fn frame_of(b: Seq<u8>) -> FrameModel {
    if b.len() < 4 {
        FrameModel::Short((4 - b.len()) as nat)
    } else if b.subrange(0, 4) != magic() {
        FrameModel::Failed(ProtocolFault::InvalidMagic(b.subrange(0, 4)))
    } else if b.len() < 5 {
        FrameModel::Short(1)
    } else if b[4] == 1 {
        ip_frame(
            b,
            4,
            SocketAddr::V4(
                SocketAddrV4 { ip: Ipv4Addr { a: b[5], b: b[6], c: b[7], d: b[8] }, port: net::word(b[9], b[10]) },
            ),
        )
    } else if b[4] == 4 {
        ip_frame(
            b,
            16,
            SocketAddr::V6(
                SocketAddrV6 {
                    ip: Ipv6Addr::of_bytes(b.subrange(5, 21)),
                    port: net::word(b[21], b[22]),
                    flowinfo: 0,
                    scope_id: 0,
                },
            ),
        )
    } else if b[4] == 3 {
        domain_frame(b)
    } else {
        FrameModel::Failed(ProtocolFault::UnsupportedAddressType(b[4]))
    }
}

/// What to do with the bytes received so far.
#[derive(Debug)]
pub enum FrameStep {
    /// Read this many bytes more.
    Read(usize),
    /// The frame is complete and is this many bytes long.
    Ready(TargetAddr, usize),
    Failed(ProtocolError),
}

impl View for FrameStep {
    type V = FrameModel;

    open spec fn view(&self) -> FrameModel {
        match self {
            FrameStep::Read(n) => FrameModel::Short(*n as nat),
            FrameStep::Ready(t, n) => FrameModel::Ready(t@, *n as nat),
            FrameStep::Failed(e) => FrameModel::Failed(e@),
        }
    }
}

fn invalid_data(message: &str) -> (r: ProtocolError)
    ensures
        r@ == ProtocolFault::Io(IoErrorKind::InvalidData, message@),
{
    ProtocolError::Io(IoError { kind: IoErrorKind::InvalidData, message: text::copy_text(message) })
}

fn domain_step(b: &[u8]) -> (r: FrameStep)
    requires
        b@.len() >= 5,
    ensures
        r@ == domain_frame(b@),
{
    if b.len() < 6 {
        return FrameStep::Read(1);
    }
    if b[5] == 0 {
        return FrameStep::Failed(invalid_data("目标域名长度不能为 0"));
    }
    let len: usize = b[5] as usize;
    if b.len() < 6 + len {
        return FrameStep::Read(6 + len - b.len());
    }
    if b.len() < 8 + len {
        return FrameStep::Read(8 + len - b.len());
    }
    let name = bytes::part(b, 6, 6 + len);
    match text::text_of_utf8(name) {
        Err(m) => FrameStep::Failed(ProtocolError::InvalidUtf8(m)),
        Ok(host) => {
            if !is_printable(&host) {
                FrameStep::Failed(invalid_data("目标域名包含非法控制字符或空格"))
            } else {
                FrameStep::Ready(TargetAddr::Domain(host, word_of(b[6 + len], b[7 + len])), 8 + len)
            }
        },
    }
}

/// Looks at the bytes of a frame received so far: how many more to read, the target, or the error.
pub fn frame_step(b: &[u8]) -> (r: FrameStep)
    ensures
        r@ == frame_of(b@),
{
    if b.len() < 4 {
        return FrameStep::Read(4 - b.len());
    }
    let start = [b[0], b[1], b[2], b[3]];
    assert(start@ =~= b@.subrange(0, 4));
    if !(b[0] == 0x47 && b[1] == 0x48 && b[2] == 0x53 && b[3] == 0x54) {
        assert(b@.subrange(0, 4) != magic()) by {
            if b@.subrange(0, 4) == magic() {
                assert(start@[0] == magic()[0] && start@[1] == magic()[1] && start@[2] == magic()[2] && start@[3]
                    == magic()[3]);
            }
        }
        return FrameStep::Failed(ProtocolError::InvalidMagic(start));
    }
    assert(b@.subrange(0, 4) =~= magic());
    if b.len() < 5 {
        return FrameStep::Read(1);
    }
    let kind: u8 = b[4];
    if kind == 1 {
        if b.len() < 9 {
            FrameStep::Read(9 - b.len())
        } else if b.len() < 11 {
            FrameStep::Read(11 - b.len())
        } else {
            let ip = Ipv4Addr::new(b[5], b[6], b[7], b[8]);
            let port: u16 = word_of(b[9], b[10]);
            FrameStep::Ready(TargetAddr::Ip(SocketAddr::V4(SocketAddrV4::new(ip, port))), 11)
        }
    } else if kind == 4 {
        if b.len() < 21 {
            FrameStep::Read(21 - b.len())
        } else if b.len() < 23 {
            FrameStep::Read(23 - b.len())
        } else {
            let ip = Ipv6Addr::from_bytes(vstd::slice::slice_subrange(b, 5, 21));
            let port: u16 = word_of(b[21], b[22]);
            FrameStep::Ready(TargetAddr::Ip(SocketAddr::V6(SocketAddrV6::new(ip, port, 0, 0))), 23)
        }
    } else if kind == 3 {
        domain_step(b)
    } else {
        FrameStep::Failed(ProtocolError::UnsupportedAddressType(kind))
    }
}

/// What is said of bytes that end before the frame does: the single bytes and the port are missed in
/// other words than what has a length of its own.
pub open spec fn cut_short(b: Seq<u8>) -> Seq<char> {
    let in_a_field = if b.len() < 5 {
        b.len() < 4
    } else if b[4] == 1 {
        b.len() < 9
    } else if b[4] == 4 {
        b.len() < 21
    } else {
        6 <= b.len() < 6 + b[5]
    };
    if in_a_field {
        "early eof"@
    } else {
        "unexpected end of file"@
    }
}

/// What is said of bytes that end before the frame does.
fn cut_short_text(b: &[u8]) -> (r: String)
    ensures
        r@ == cut_short(b@),
{
    let in_a_field: bool = if b.len() < 5 {
        b.len() < 4
    } else if b[4] == 1 {
        b.len() < 9
    } else if b[4] == 4 {
        b.len() < 21
    } else {
        6 <= b.len() && b.len() < 6 + b[5] as usize
    };
    if in_a_field {
        text::copy_text("early eof")
    } else {
        text::copy_text("unexpected end of file")
    }
}

impl TargetAddr {
    /// Reads the frame that the bytes start with: the target and the length of the frame.
    pub fn decode(b: &[u8]) -> (r: Result<(TargetAddr, usize), ProtocolError>)
        ensures
            match frame_of(b@) {
                FrameModel::Short(_) => r is Err && r->Err_0@ == ProtocolFault::Io(
                    IoErrorKind::UnexpectedEof,
                    cut_short(b@),
                ),
                FrameModel::Ready(t, n) => r is Ok && r->Ok_0.0@ == t && r->Ok_0.1 == n,
                FrameModel::Failed(e) => r is Err && r->Err_0@ == e,
            },
    {
        match frame_step(b) {
            FrameStep::Read(_) => Err(
                ProtocolError::Io(IoError { kind: IoErrorKind::UnexpectedEof, message: cut_short_text(b) }),
            ),
            FrameStep::Ready(t, n) => Ok((t, n)),
            FrameStep::Failed(e) => Err(e),
        }
    }
}

/// Decoding undoes encoding: a frame followed by any bytes is read back as its target, and exactly
/// the frame is consumed.
pub proof fn decode_undoes_encode(t: TargetModel, rest: Seq<u8>)
    requires
        t.carried(),
    ensures
        frame_of(t.frame() + rest) == FrameModel::Ready(t, t.frame().len()),
{
    let f = t.frame();
    let b = f + rest;
    assert(b.subrange(0, 4) =~= magic());
    match t {
        TargetModel::Ip(SocketAddr::V4(v4)) => {
            net::word_of_its_bytes(v4.port);
        },
        TargetModel::Ip(SocketAddr::V6(v6)) => {
            let ip = v6.ip;
            net::word_of_its_bytes(v6.port);
            net::word_of_its_bytes(ip.s0);
            net::word_of_its_bytes(ip.s1);
            net::word_of_its_bytes(ip.s2);
            net::word_of_its_bytes(ip.s3);
            net::word_of_its_bytes(ip.s4);
            net::word_of_its_bytes(ip.s5);
            net::word_of_its_bytes(ip.s6);
            net::word_of_its_bytes(ip.s7);
            assert(b.subrange(5, 21) =~= ip.bytes());
        },
        TargetModel::Domain(host, port) => {
            let name = encode_utf8(host);
            net::word_of_its_bytes(port);
            encode_utf8_valid_utf8(host);
            encode_utf8_decode_utf8(host);
            assert(b.subrange(6, 6 + name.len() as int) =~= name);
        },
    }
}

/// Reading goes on: bytes that come later do not change what is known.
pub proof fn frame_is_settled_by_its_bytes(b: Seq<u8>, more: Seq<u8>)
    ensures
        !(frame_of(b) is Short) ==> frame_of(b + more) == frame_of(b),
        frame_of(b) is Short && more.len() < frame_of(b)->Short_0 ==> frame_of(b + more) == FrameModel::Short(
            (frame_of(b)->Short_0 - more.len()) as nat,
        ),
{
    let c = b + more;
    if c.len() >= 4 && b.len() >= 4 {
        assert(c.subrange(0, 4) =~= b.subrange(0, 4));
    }
    if b.len() >= 23 {
        assert(c.subrange(5, 21) =~= b.subrange(5, 21));
    }
    if b.len() >= 6 && b.len() >= 6 + b[5] {
        assert(c.subrange(6, 6 + b[5] as int) =~= b.subrange(6, 6 + b[5] as int));
    }
}

/// Whoever reads just what `frame_step` asks for takes nothing that stands behind the frame.
pub proof fn frame_is_read_to_its_end(b: Seq<u8>, more: Seq<u8>)
    requires
        frame_of(b) is Short,
        more.len() == frame_of(b)->Short_0,
    ensures
        match frame_of(b + more) {
            FrameModel::Ready(_, n) => n == b.len() + more.len(),
            _ => true,
        },
{
}

/// The bytes of a frame: `GHST`, the type, the address and the port with its more significant byte first. A
/// domain name stands behind its length in bytes.
pub proof fn frame_bytes(t: TargetModel)
    ensures
        match t {
            TargetModel::Ip(SocketAddr::V4(v4)) => t.frame() == seq![
                0x47u8,
                0x48,
                0x53,
                0x54,
                1,
                v4.ip.a,
                v4.ip.b,
                v4.ip.c,
                v4.ip.d,
                (v4.port / 256) as u8,
                (v4.port % 256) as u8,
            ],
            TargetModel::Ip(SocketAddr::V6(v6)) => t.frame() == seq![0x47u8, 0x48, 0x53, 0x54, 4] + v6.ip.bytes()
                + seq![(v6.port / 256) as u8, (v6.port % 256) as u8],
            TargetModel::Domain(host, port) => {
                let name = encode_utf8(host);
                let n = if name.len() <= 255 {
                    name.len() as int
                } else {
                    255
                };
                t.frame() == seq![0x47u8, 0x48, 0x53, 0x54, 3, n as u8] + name.subrange(0, n) + seq![
                    (port / 256) as u8,
                    (port % 256) as u8,
                ]
            },
        },
        t.address() == t.frame().subrange(4, t.frame().len() as int),
{
    match t {
        TargetModel::Ip(SocketAddr::V4(v4)) => {
            assert(t.frame() =~= seq![
                0x47u8,
                0x48,
                0x53,
                0x54,
                1,
                v4.ip.a,
                v4.ip.b,
                v4.ip.c,
                v4.ip.d,
                (v4.port / 256) as u8,
                (v4.port % 256) as u8,
            ]);
        },
        TargetModel::Ip(SocketAddr::V6(v6)) => {
            assert(t.frame() =~= seq![0x47u8, 0x48, 0x53, 0x54, 4] + v6.ip.bytes() + seq![
                (v6.port / 256) as u8,
                (v6.port % 256) as u8,
            ]);
        },
        TargetModel::Domain(host, port) => {
            let name = encode_utf8(host);
            let n = if name.len() <= 255 {
                name.len() as int
            } else {
                255
            };
            assert(bytes::clipped(name, 255) =~= name.subrange(0, n));
            assert(t.frame() =~= seq![0x47u8, 0x48, 0x53, 0x54, 3, n as u8] + name.subrange(0, n) + seq![
                (port / 256) as u8,
                (port % 256) as u8,
            ]);
        },
    }
    assert(t.address() =~= t.frame().subrange(4, t.frame().len() as int));
}

/// Encoding undoes decoding: the bytes that were read as a frame are the frame of the target, which is one
/// that a frame can carry.
pub proof fn encode_undoes_decode(b: Seq<u8>)
    requires
        frame_of(b) is Ready,
    ensures
        ({
            let t = frame_of(b)->Ready_0;
            let n = frame_of(b)->Ready_1 as int;
            n <= b.len() && t.frame() == b.subrange(0, n) && t.carried()
        }),
{
    let t = frame_of(b)->Ready_0;
    let n = frame_of(b)->Ready_1 as int;
    assert(b.subrange(0, 4)[0] == b[0] && b.subrange(0, 4)[1] == b[1] && b.subrange(0, 4)[2] == b[2] && b.subrange(
        0,
        4,
    )[3] == b[3]);
    match t {
        TargetModel::Ip(SocketAddr::V4(v4)) => {
            net::network_order(v4.port, b[9], b[10]);
            assert(t.frame() =~= b.subrange(0, n));
        },
        TargetModel::Ip(SocketAddr::V6(v6)) => {
            net::network_order(v6.port, b[21], b[22]);
            net::ipv6_bytes(v6.ip, b.subrange(5, 21));
            assert(t.frame() =~= b.subrange(0, n));
        },
        TargetModel::Domain(host, port) => {
            let len = b[5] as int;
            let name = b.subrange(6, 6 + len);
            decode_utf8_encode_utf8(name);
            net::network_order(port, b[6 + len], b[7 + len]);
            assert(bytes::clipped(name, 255) =~= name);
            assert(t.frame() =~= b.subrange(0, n));
        },
    }
}

/// What is no frame, and why: other bytes than `GHST` at the start, another type than 1, 3 and 4, a name
/// without a byte, one that is no text, and one with a control character or a space. Nothing else is refused.
pub proof fn frames_that_are_refused(b: Seq<u8>)
    ensures
        ({
            let known = b.len() >= 4 && b[0] == 0x47 && b[1] == 0x48 && b[2] == 0x53 && b[3] == 0x54;
            let named = known && b.len() >= 6 && b[4] == 3;
            let whole = named && b[5] > 0 && b.len() >= 8 + b[5];
            let name = b.subrange(6, 6 + b[5] as int);
            let dirty = exists|i: int|
                0 <= i < decode_utf8(name).len() && {
                    let n = #[trigger] decode_utf8(name)[i] as int;
                    n <= 32 || 127 <= n <= 159
                };
            let kinds = b[4] == 1 || b[4] == 3 || b[4] == 4;
            &&& b.len() >= 4 && !known ==> frame_of(b) == FrameModel::Failed(
                ProtocolFault::InvalidMagic(b.subrange(0, 4)),
            )
            &&& known && b.len() >= 5 && !kinds ==> frame_of(b) == FrameModel::Failed(
                ProtocolFault::UnsupportedAddressType(b[4]),
            )
            &&& (frame_of(b) is Failed && frame_of(b)->Failed_0 is InvalidUtf8) <==> whole && !valid_utf8(name)
            &&& frame_of(b) matches FrameModel::Failed(ProtocolFault::Io(k, _)) ==> k == IoErrorKind::InvalidData
            &&& (frame_of(b) is Failed && frame_of(b)->Failed_0 is Io) <==> (named && b[5] == 0) || (whole
                && valid_utf8(name) && dirty)
            &&& frame_of(b) is Failed <==> (b.len() >= 4 && !known) || (known && b.len() >= 5 && !kinds) || (named && b[5]
                == 0) || (whole && (!valid_utf8(name) || dirty))
        }),
{
    let m = b.subrange(0, 4);
    if b.len() >= 4 {
        assert(m[0] == b[0] && m[1] == b[1] && m[2] == b[2] && m[3] == b[3]);
        if b[0] == 0x47 && b[1] == 0x48 && b[2] == 0x53 && b[3] == 0x54 {
            assert(m =~= magic());
        } else {
            assert(magic()[0] == 0x47 && magic()[1] == 0x48 && magic()[2] == 0x53 && magic()[3] == 0x54);
        }
    }
    let s = decode_utf8(b.subrange(6, 6 + b[5] as int));
    if exists|i: int| 0 <= i < s.len() && {
        let n = #[trigger] s[i] as int;
        n <= 32 || 127 <= n <= 159
    } {
        let i = choose|i: int| 0 <= i < s.len() && {
            let n = #[trigger] s[i] as int;
            n <= 32 || 127 <= n <= 159
        };
        lemma_spoils(s[i]);
        assert(!printable(s));
    }
    if !printable(s) {
        let i = choose|i: int| 0 <= i < s.len() && (text::control(#[trigger] s[i]) || s[i] == ' ');
        lemma_spoils(s[i]);
        let n = s[i] as int;
        assert(n <= 32 || 127 <= n <= 159);
    }
}

proof fn lemma_spoils(c: char)
    ensures
        (text::control(c) || c == ' ') <==> (c as int <= 32 || 127 <= c as int <= 159),
{
}

/// A frame is short where its bytes are not all there, and then what is missing of the part that is being read
/// is asked for; where they are all there it is not.
pub proof fn frames_that_are_short(b: Seq<u8>)
    ensures
        frame_of(b) is Short ==> frame_of(b)->Short_0 > 0,
        b.len() < 4 ==> frame_of(b) == FrameModel::Short((4 - b.len()) as nat),
        b.len() == 4 && !(frame_of(b) is Failed) ==> frame_of(b) == FrameModel::Short(1),
        b.len() >= 5 && !(frame_of(b) is Failed) && b[4] == 1 ==> (frame_of(b) is Short <==> b.len() < 11),
        b.len() >= 5 && !(frame_of(b) is Failed) && b[4] == 4 ==> (frame_of(b) is Short <==> b.len() < 23),
        b.len() >= 6 && !(frame_of(b) is Failed) && b[4] == 3 ==> (frame_of(b) is Short <==> b.len() < 8 + b[5]),
        b.len() == 5 && !(frame_of(b) is Failed) ==> frame_of(b) is Short,
{
}

/// A target's port and its text, host first.
pub proof fn target_text(t: TargetModel)
    ensures
        match t {
            TargetModel::Ip(SocketAddr::V4(v4)) => t.port() == v4.port && t.text() == v4.ip.text() + seq![':'] + text::dec(
                v4.port as nat,
            ),
            TargetModel::Ip(SocketAddr::V6(v6)) => t.port() == v6.port && t.text() == SocketAddr::V6(v6).text(),
            TargetModel::Domain(host, port) => t.port() == port && t.text() == host + seq![':'] + text::dec(port as nat),
        },
{
}

/// What a message reports stands at its end; the four bytes of a wrong start stand in brackets.
pub proof fn messages_end_in_what_they_report(kind: IoErrorKind, m: Seq<char>, n: usize, t: u8, b: Seq<u8>)
    requires
        b.len() == 4,
    ensures
        text::ends_with(ProtocolFault::Io(kind, m).text(), m),
        text::ends_with(ProtocolFault::InvalidUtf8(m).text(), m),
        text::ends_with(ProtocolFault::Socks5(m).text(), m),
        text::ends_with(ProtocolFault::DomainTooLong(n).text(), text::dec(n as nat)),
        text::ends_with(ProtocolFault::UnsupportedAddressType(t).text(), text::dec(t as nat)),
        text::ends_with(
            ProtocolFault::InvalidMagic(b).text(),
            seq!['['] + text::dec(b[0] as nat) + seq![',', ' '] + text::dec(b[1] as nat) + seq![',', ' '] + text::dec(
                b[2] as nat,
            ) + seq![',', ' '] + text::dec(b[3] as nat) + seq![']'],
        ),
{
    reveal_strlit("无效的魔数包头: [");
    reveal_strlit(", ");
    reveal_strlit("]");
    text::ends_of_a_text(m, m, "I/O 错误: "@);
    text::ends_of_a_text(m, m, "无效的 UTF-8 域名: "@);
    text::ends_of_a_text(m, m, "SOCKS5 协议错误: "@);
    text::ends_of_a_text(m, text::dec(n as nat), "域名长度超过限制: "@);
    text::ends_of_a_text(m, text::dec(t as nat), "不支持的地址类型: "@);
    let list = seq!['['] + text::dec(b[0] as nat) + seq![',', ' '] + text::dec(b[1] as nat) + seq![',', ' ']
        + text::dec(b[2] as nat) + seq![',', ' '] + text::dec(b[3] as nat) + seq![']'];
    let whole = ProtocolFault::InvalidMagic(b).text();
    let start = "无效的魔数包头: ["@;
    assert(", "@ =~= seq![',', ' ']);
    assert("]"@ =~= seq![']']);
    assert(start =~= start.drop_last() + seq!['[']);
    assert(whole =~= start.drop_last() + list);
    text::ends_of_a_text(whole, list, start.drop_last());
}

/// Bytes that end within what has a length of its own, the magic number, an address or a name, are said to end
/// early; those that end before a single byte or within the port are said to end unexpectedly.
pub proof fn ends_are_told_apart(b: Seq<u8>)
    ensures
        b.len() < 4 ==> cut_short(b) == "early eof"@,
        b.len() == 4 ==> cut_short(b) == "unexpected end of file"@,
        b.len() >= 5 && b[4] == 1 && b.len() <= 8 ==> cut_short(b) == "early eof"@,
        b.len() >= 5 && b[4] == 1 && b.len() >= 9 ==> cut_short(b) == "unexpected end of file"@,
        b.len() >= 5 && b[4] == 4 && b.len() <= 20 ==> cut_short(b) == "early eof"@,
        b.len() >= 5 && b[4] == 4 && b.len() >= 21 ==> cut_short(b) == "unexpected end of file"@,
        b.len() == 5 && b[4] == 3 ==> cut_short(b) == "unexpected end of file"@,
        b.len() >= 6 && b[4] == 3 ==> cut_short(b) == (if b.len() - 6 < b[5] {
            "early eof"@
        } else {
            "unexpected end of file"@
        }),
{
}

} // verus!
