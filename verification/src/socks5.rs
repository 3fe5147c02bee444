//! The client side of a SOCKS5 handshake (RFC 1928, RFC 1929), as a function of what the server has
//! sent so far.

use vstd::prelude::*;
use vstd::utf8::*;
use crate::bytes;
use crate::net::SocketAddr;
use crate::protocol::{ProtocolError, ProtocolFault, TargetAddr, TargetModel};
use crate::text;

verus! {

/// How far the handshake has come.
pub enum HandshakeModel {
    /// The server owes at least this many bytes.
    Waiting(nat),
    /// The tunnel stands. The server's part of the handshake is this many bytes long.
    Connected(nat),
    Failed(ProtocolFault),
}

pub open spec fn refused(message: Seq<char>) -> HandshakeModel {
    HandshakeModel::Failed(ProtocolFault::Socks5(message))
}

/// The methods on offer: none, and user name and password where there are credentials.
pub open spec fn greeting(auth: Option<(Seq<char>, Seq<char>)>) -> Seq<u8> {
    if auth is Some {
        seq![5u8, 2, 0, 2]
    } else {
        seq![5u8, 1, 0]
    }
}

/// A text behind a length byte, cut off at 255 bytes.
pub open spec fn field(s: Seq<char>) -> Seq<u8> {
    let b = bytes::clipped(encode_utf8(s), 255);
    seq![b.len() as u8] + b
}

/// The user name and the password.
pub open spec fn credentials(user: Seq<char>, pass: Seq<char>) -> Seq<u8> {
    seq![1u8] + field(user) + field(pass)
}

/// The request to connect to the target.
pub open spec fn request(target: TargetModel) -> Seq<u8> {
    seq![5u8, 1, 0] + target.address()
}

/// What a reply code other than success means.
pub open spec fn reply_text(code: u8) -> Seq<char> {
    if code == 1 {
        "SOCKS5 服务端常规失败 (0x01)"@
    } else if code == 2 {
        "连接被规则集阻断 (0x02)"@
    } else if code == 3 {
        "网络不可达 (0x03)"@
    } else if code == 4 {
        "主机不可达 (0x04)"@
    } else if code == 5 {
        "目标连接被拒绝 (0x05)"@
    } else if code == 6 {
        "TTL 超时 (0x06)"@
    } else if code == 7 {
        "不支持的命令 (0x07)"@
    } else if code == 8 {
        "不支持的地址类型 (0x08)"@
    } else {
        "SOCKS5 未知错误代码: 0x"@ + text::hex2(code as nat)
    }
}

/// How far the reply to the request has come, where it starts at `at`: version, code, a reserved
/// byte, an address and a port.
pub open spec fn reply_of(got: Seq<u8>, at: int) -> HandshakeModel {
    if got.len() < at + 4 {
        HandshakeModel::Waiting((at + 4 - got.len()) as nat)
    } else if got[at] != 5 {
        refused("CONNECT 响应版本无效"@)
    } else if got[at + 1] != 0 {
        refused(reply_text(got[at + 1]))
    } else if got[at + 3] == 1 {
        ending(got, at + 10)
    } else if got[at + 3] == 4 {
        ending(got, at + 22)
    } else if got[at + 3] == 3 {
        if got.len() < at + 5 {
            HandshakeModel::Waiting(1)
        } else {
            ending(got, at + 7 + got[at + 4])
        }
    } else {
        HandshakeModel::Failed(ProtocolFault::UnsupportedAddressType(got[at + 3]))
    }
}

/// The handshake is over when `end` bytes are there.
pub open spec fn ending(got: Seq<u8>, end: int) -> HandshakeModel {
    if got.len() < end {
        HandshakeModel::Waiting((end - got.len()) as nat)
    } else {
        HandshakeModel::Connected(end as nat)
    }
}

/// What the client has sent, from the first byte on, and how far the handshake has come, when the
/// server has sent `got`.
pub open spec fn handshake(
    got: Seq<u8>,
    target: TargetModel,
    auth: Option<(Seq<char>, Seq<char>)>,
) -> (Seq<u8>, HandshakeModel) {
    let hello = greeting(auth);
    if got.len() < 2 {
        (hello, HandshakeModel::Waiting((2 - got.len()) as nat))
    } else if got[0] != 5 {
        (hello, refused("非 SOCKS5 协议版本: 0x"@ + text::hex2(got[0] as nat)))
    } else if got[1] == 0 {
        (hello + request(target), reply_of(got, 2))
    } else if got[1] == 2 {
        match auth {
            Some((user, pass)) => {
                let login = hello + credentials(user, pass);
                if got.len() < 4 {
                    (login, HandshakeModel::Waiting((4 - got.len()) as nat))
                } else if got[3] != 0 {
                    (login, refused("SOCKS5 用户名/密码验证失败"@))
                } else {
                    (login + request(target), reply_of(got, 4))
                }
            },
            None => (hello, refused("服务端要求认证但未提供凭据"@)),
        }
    } else if got[1] == 0xff {
        (hello, refused("服务端拒绝了所有可用的认证方式"@))
    } else {
        (hello, refused("不支持的认证类型: 0x"@ + text::hex2(got[1] as nat)))
    }
}

/// How far the handshake has come.
#[derive(Debug)]
pub enum HandshakeState {
    /// Read this many bytes more.
    Read(usize),
    /// The tunnel stands. The server's part of the handshake is this many bytes long.
    Connected(usize),
    Failed(ProtocolError),
}

impl View for HandshakeState {
    type V = HandshakeModel;

    open spec fn view(&self) -> HandshakeModel {
        match self {
            HandshakeState::Read(n) => HandshakeModel::Waiting(*n as nat),
            HandshakeState::Connected(n) => HandshakeModel::Connected(*n as nat),
            HandshakeState::Failed(e) => HandshakeModel::Failed(e@),
        }
    }
}

/// What to do next: everything that is to be sent, from the first byte on, is in `sent`; what was
/// sent before is at its start.
#[derive(Debug)]
pub struct Handshake {
    pub sent: Vec<u8>,
    pub state: HandshakeState,
}

pub open spec fn auth_model(auth: Option<(&str, &str)>) -> Option<(Seq<char>, Seq<char>)> {
    match auth {
        Some((user, pass)) => Some((user@, pass@)),
        None => None,
    }
}

fn refuse(message: &str) -> (r: HandshakeState)
    ensures
        r@ == refused(message@),
{
    HandshakeState::Failed(ProtocolError::Socks5(text::copy_text(message)))
}

fn refuse_code(message: &str, code: u8) -> (r: HandshakeState)
    ensures
        r@ == refused(message@ + text::hex2(code as nat)),
{
    let mut m = text::copy_text(message);
    text::push_hex2(&mut m, code);
    HandshakeState::Failed(ProtocolError::Socks5(m))
}

fn push_field(v: &mut Vec<u8>, s: &str)
    ensures
        final(v)@ == old(v)@ + field(s@),
{
    let b = s.as_bytes();
    let len: usize = if b.len() <= 255 {
        b.len()
    } else {
        255
    };
    v.push(len as u8);
    let p = bytes::part(b, 0, len);
    assert(p@ =~= bytes::clipped(encode_utf8(s@), 255));
    bytes::push_all(v, &p);
    assert(v@ =~= old(v)@ + field(s@));
}

fn push_request(v: &mut Vec<u8>, target: &TargetAddr)
    ensures
        final(v)@ == old(v)@ + request(target@),
{
    v.push(5);
    v.push(1);
    v.push(0);
    target.push_address(v);
    assert(v@ =~= old(v)@ + request(target@));
}

fn end_at(got: &[u8], end: usize) -> (r: HandshakeState)
    ensures
        r@ == ending(got@, end as int),
{
    if got.len() < end {
        HandshakeState::Read(end - got.len())
    } else {
        HandshakeState::Connected(end)
    }
}

/// The meaning of a reply code other than success.
fn reply_error(code: u8) -> (r: HandshakeState)
    ensures
        r@ == refused(reply_text(code)),
{
    match code {
        1 => refuse("SOCKS5 服务端常规失败 (0x01)"),
        2 => refuse("连接被规则集阻断 (0x02)"),
        3 => refuse("网络不可达 (0x03)"),
        4 => refuse("主机不可达 (0x04)"),
        5 => refuse("目标连接被拒绝 (0x05)"),
        6 => refuse("TTL 超时 (0x06)"),
        7 => refuse("不支持的命令 (0x07)"),
        8 => refuse("不支持的地址类型 (0x08)"),
        _ => refuse_code("SOCKS5 未知错误代码: 0x", code),
    }
}

fn reply(got: &[u8], at: usize) -> (r: HandshakeState)
    requires
        at <= 4,
    ensures
        r@ == reply_of(got@, at as int),
{
    if got.len() < at + 4 {
        return HandshakeState::Read(at + 4 - got.len());
    }
    if got[at] != 5 {
        return refuse("CONNECT 响应版本无效");
    }
    if got[at + 1] != 0 {
        return reply_error(got[at + 1]);
    }
    let kind: u8 = got[at + 3];
    if kind == 1 {
        end_at(got, at + 10)
    } else if kind == 4 {
        end_at(got, at + 22)
    } else if kind == 3 {
        if got.len() < at + 5 {
            HandshakeState::Read(1)
        } else {
            end_at(got, at + 7 + got[at + 4] as usize)
        }
    } else {
        HandshakeState::Failed(ProtocolError::UnsupportedAddressType(kind))
    }
}

/// The client's part of the handshake that asks the server for a tunnel to the target, when the
/// server has sent `got`.
pub fn socks5_connect(got: &[u8], target: &TargetAddr, auth: Option<(&str, &str)>) -> (r: Handshake)
    ensures
        (r.sent@, r.state@) == handshake(got@, target@, auth_model(auth)),
{
    let mut sent: Vec<u8> = Vec::new();
    sent.push(5);
    match auth {
        Some(_) => {
            sent.push(2);
            sent.push(0);
            sent.push(2);
        },
        None => {
            sent.push(1);
            sent.push(0);
        },
    }
    assert(sent@ =~= greeting(auth_model(auth)));
    if got.len() < 2 {
        return Handshake { sent, state: HandshakeState::Read(2 - got.len()) };
    }
    if got[0] != 5 {
        return Handshake { sent, state: refuse_code("非 SOCKS5 协议版本: 0x", got[0]) };
    }
    let method: u8 = got[1];
    if method == 0 {
        push_request(&mut sent, target);
        return Handshake { sent, state: reply(got, 2) };
    }
    if method == 2 {
        match auth {
            Some((user, pass)) => {
                let ghost hello = sent@;
                sent.push(1);
                push_field(&mut sent, user);
                push_field(&mut sent, pass);
                assert(sent@ =~= hello + credentials(user@, pass@));
                if got.len() < 4 {
                    Handshake { sent, state: HandshakeState::Read(4 - got.len()) }
                } else if got[3] != 0 {
                    Handshake { sent, state: refuse("SOCKS5 用户名/密码验证失败") }
                } else {
                    push_request(&mut sent, target);
                    Handshake { sent, state: reply(got, 4) }
                }
            },
            None => Handshake { sent, state: refuse("服务端要求认证但未提供凭据") },
        }
    } else if method == 0xff {
        Handshake { sent, state: refuse("服务端拒绝了所有可用的认证方式") }
    } else {
        Handshake { sent, state: refuse_code("不支持的认证类型: 0x", method) }
    }
}

/// What was sent is never taken back, and what later bytes say does not change what is settled.
pub proof fn handshake_goes_forward(
    got: Seq<u8>,
    more: Seq<u8>,
    target: TargetModel,
    auth: Option<(Seq<char>, Seq<char>)>,
)
    ensures
        handshake(got, target, auth).0.is_prefix_of(handshake(got + more, target, auth).0),
        !(handshake(got, target, auth).1 is Waiting) ==> handshake(got + more, target, auth) == handshake(
            got,
            target,
            auth,
        ),
{
}

/// Nothing new is sent before the bytes that were asked for are there.
pub proof fn handshake_waits_for_the_server(
    got: Seq<u8>,
    more: Seq<u8>,
    target: TargetModel,
    auth: Option<(Seq<char>, Seq<char>)>,
)
    requires
        handshake(got, target, auth).1 is Waiting,
        more.len() < handshake(got, target, auth).1->Waiting_0,
    ensures
        handshake(got + more, target, auth).0 == handshake(got, target, auth).0,
        handshake(got + more, target, auth).1 == HandshakeModel::Waiting(
            (handshake(got, target, auth).1->Waiting_0 - more.len()) as nat,
        ),
{
}

/// Whoever reads just what the handshake asks for takes nothing of the tunnel's own bytes.
pub proof fn handshake_is_read_to_its_end(
    got: Seq<u8>,
    more: Seq<u8>,
    target: TargetModel,
    auth: Option<(Seq<char>, Seq<char>)>,
)
    requires
        handshake(got, target, auth).1 is Waiting,
        more.len() == handshake(got, target, auth).1->Waiting_0,
    ensures
        match handshake(got + more, target, auth).1 {
            HandshakeModel::Connected(n) => n == got.len() + more.len(),
            _ => true,
        },
{
}

/// A request that the server turns down fails with the reason that the server gave, whatever it sends
/// besides.
pub proof fn refused_request_is_reported(
    got: Seq<u8>,
    target: TargetModel,
    auth: Option<(Seq<char>, Seq<char>)>,
)
    requires
        got.len() >= 6,
        got[0] == 5 && got[1] == 0,
        got[2] == 5 && got[3] != 0,
    ensures
        handshake(got, target, auth) == (greeting(auth) + request(target), refused(reply_text(got[3]))),
{
}

/// A request that the server grants opens the tunnel, and exactly the reply is consumed, whatever form
/// the address in it has.
pub proof fn granted_request_opens_the_tunnel(
    bound: TargetModel,
    reserved: u8,
    rest: Seq<u8>,
    target: TargetModel,
    auth: Option<(Seq<char>, Seq<char>)>,
)
    ensures
        ({
            let reply = seq![5u8, 0, 5, 0, reserved] + bound.address();
            handshake(reply + rest, target, auth) == (
                greeting(auth) + request(target),
                HandshakeModel::Connected(reply.len()),
            )
        }),
{
    let reply = seq![5u8, 0, 5, 0, reserved] + bound.address();
    let got = reply + rest;
    assert(got[0] == 5 && got[1] == 0 && got[2] == 5 && got[3] == 0);
    match bound {
        TargetModel::Ip(SocketAddr::V4(v4)) => {
            assert(reply.len() == 12);
            assert(got[5] == 1);
        },
        TargetModel::Ip(SocketAddr::V6(v6)) => {
            assert(reply.len() == 24);
            assert(got[5] == 4);
        },
        TargetModel::Domain(host, port) => {
            let name = bytes::clipped(encode_utf8(host), 255);
            assert(reply.len() == 9 + name.len());
            assert(got[5] == 3);
            assert(got[6] == name.len());
        },
    }
}

/// The credentials are sent only to a server that chose to ask for them.
pub proof fn credentials_are_sent_on_demand(
    got: Seq<u8>,
    target: TargetModel,
    auth: Option<(Seq<char>, Seq<char>)>,
)
    requires
        !(got.len() >= 2 && got[0] == 5 && got[1] == 2),
    ensures
        handshake(got, target, auth).0 == greeting(auth) || handshake(got, target, auth).0 == greeting(auth) + request(
            target,
        ),
{
}

/// What the client sends, byte by byte: the methods, the user name and the password behind their lengths, and
/// the request.
pub proof fn client_bytes(user: Seq<char>, pass: Seq<char>, target: TargetModel)
    ensures
        greeting(None) == seq![5u8, 1, 0],
        greeting(Some((user, pass))) == seq![5u8, 2, 0, 2],
        ({
            let u = encode_utf8(user);
            let p = encode_utf8(pass);
            u.len() <= 255 && p.len() <= 255 ==> credentials(user, pass) == seq![1u8, u.len() as u8] + u + seq![
                p.len() as u8,
            ] + p
        }),
        encode_utf8(user).len() > 255 ==> field(user) == seq![255u8] + encode_utf8(user).subrange(0, 255),
        request(target) == seq![5u8, 1, 0] + target.frame().subrange(4, target.frame().len() as int),
{
    let u = encode_utf8(user);
    let p = encode_utf8(pass);
    if u.len() <= 255 && p.len() <= 255 {
        assert(credentials(user, pass) =~= seq![1u8, u.len() as u8] + u + seq![p.len() as u8] + p);
    }
    crate::protocol::frame_bytes(target);
}

/// A tunnel stands only where the server chose no login, or a login that it was given and took, and answered
/// the request with version 5 and the code 0; the handshake then ends behind the address and the port of the
/// reply.
pub proof fn tunnel_needs_a_grant(got: Seq<u8>, target: TargetModel, auth: Option<(Seq<char>, Seq<char>)>)
    ensures
        handshake(got, target, auth).1 matches HandshakeModel::Connected(n) ==> {
            let at = if got[1] == 0 {
                2int
            } else {
                4int
            };
            &&& got.len() >= n && n >= at + 7
            &&& got[0] == 5
            &&& got[1] == 0 || (got[1] == 2 && auth is Some && got[3] == 0)
            &&& got[at] == 5 && got[at + 1] == 0
            &&& n == at + (if got[at + 3] == 1 {
                10
            } else if got[at + 3] == 4 {
                22
            } else {
                7 + got[at + 4]
            })
            &&& got[at + 3] == 1 || got[at + 3] == 3 || got[at + 3] == 4
        },
{
}

/// Where the server takes the login and turns the request down, the handshake has failed with the reason for
/// its code, as without a login.
pub proof fn refused_request_is_reported_after_a_login(
    got: Seq<u8>,
    target: TargetModel,
    user: Seq<char>,
    pass: Seq<char>,
)
    requires
        got.len() >= 8,
        got[0] == 5 && got[1] == 2 && got[3] == 0,
        got[4] == 5 && got[5] != 0,
    ensures
        handshake(got, target, Some((user, pass))) == (
            seq![5u8, 2, 0, 2] + credentials(user, pass) + request(target),
            HandshakeModel::Failed(ProtocolFault::Socks5(reply_text(got[5]))),
        ),
{
}

/// A login makes no difference to the reply: what the server sends behind it is taken as it is without one.
pub proof fn login_makes_no_difference_to_the_reply(
    reply: Seq<u8>,
    version: u8,
    target: TargetModel,
    user: Seq<char>,
    pass: Seq<char>,
)
    ensures
        ({
            let auth = Some((user, pass));
            let plain = handshake(seq![5u8, 0] + reply, target, auth);
            let login = handshake(seq![5u8, 2, version, 0] + reply, target, auth);
            &&& login.0 == greeting(auth) + credentials(user, pass) + request(target)
            &&& plain.0 == greeting(auth) + request(target)
            &&& match plain.1 {
                HandshakeModel::Waiting(n) => login.1 == HandshakeModel::Waiting(n),
                HandshakeModel::Connected(n) => login.1 == HandshakeModel::Connected(n + 2),
                HandshakeModel::Failed(e) => login.1 == HandshakeModel::Failed(e),
            }
        }),
{
    let a = seq![5u8, 0] + reply;
    let b = seq![5u8, 2, version, 0] + reply;
    assert(a[0] == 5 && a[1] == 0);
    assert(b[0] == 5 && b[1] == 2 && b[3] == 0);
    assert(forall|i: int| 0 <= i < reply.len() ==> a[i + 2] == #[trigger] reply[i] && b[i + 4] == reply[i]);
    if reply.len() >= 4 {
        assert(a[2] == reply[0] && b[4] == reply[0] && a[3] == reply[1] && b[5] == reply[1]);
        assert(a[5] == reply[3] && b[7] == reply[3]);
    }
    if reply.len() >= 5 {
        assert(a[6] == reply[4] && b[8] == reply[4]);
    }
}

/// Where the server speaks another version, asks for a login that there is none for, takes no method, or
/// turns the login down, the handshake has failed, and the request was never sent.
pub proof fn handshake_fails_before_the_request(
    got: Seq<u8>,
    target: TargetModel,
    auth: Option<(Seq<char>, Seq<char>)>,
)
    requires
        got.len() >= 2,
        got[0] != 5 || (got[1] != 0 && got[1] != 2) || (got[1] == 2 && auth is None) || (got[1] == 2 && got.len() >= 4
            && got[3] != 0),
    ensures
        handshake(got, target, auth).1 matches HandshakeModel::Failed(ProtocolFault::Socks5(_)),
        handshake(got, target, auth).0 == greeting(auth) || match auth {
            Some((user, pass)) => got[0] == 5 && got[1] == 2 && handshake(got, target, auth).0 == greeting(auth)
                + credentials(user, pass),
            None => false,
        },
{
}

/// A reply of another version or with an address of an unknown type fails, and so does every code but 0;
/// until the reply is there it is waited for.
pub proof fn replies_that_fail(got: Seq<u8>, target: TargetModel, auth: Option<(Seq<char>, Seq<char>)>)
    requires
        got.len() >= 6,
        got[0] == 5 && got[1] == 0,
    ensures
        handshake(got, target, auth).1 is Failed <==> got[2] != 5 || got[3] != 0 || (got[5] != 1 && got[5] != 3 && got[5]
            != 4),
        got[2] == 5 && got[3] == 0 && got[5] != 1 && got[5] != 3 && got[5] != 4 ==> handshake(got, target, auth).1
            == HandshakeModel::Failed(ProtocolFault::UnsupportedAddressType(got[5])),
{
}

/// The reason for a code ends in the code, in hexadecimal.
pub proof fn reasons_name_the_code(code: u8)
    requires
        code != 0,
    ensures
        code <= 8 ==> text::ends_with(
            reply_text(code),
            seq!['(', '0', 'x', '0', (48 + code) as char, ')'],
        ),
        code > 8 ==> text::ends_with(reply_text(code), seq!['0', 'x'] + text::hex2(code as nat)),
{
    let r = reply_text(code);
    reveal_strlit("SOCKS5 服务端常规失败 (0x01)");
    reveal_strlit("连接被规则集阻断 (0x02)");
    reveal_strlit("网络不可达 (0x03)");
    reveal_strlit("主机不可达 (0x04)");
    reveal_strlit("目标连接被拒绝 (0x05)");
    reveal_strlit("TTL 超时 (0x06)");
    reveal_strlit("不支持的命令 (0x07)");
    reveal_strlit("不支持的地址类型 (0x08)");
    reveal_strlit("SOCKS5 未知错误代码: 0x");
    if code <= 8 {
        let t = seq!['(', '0', 'x', '0', (48 + code) as char, ')'];
        assert(r.subrange(r.len() - 6, r.len() as int) =~= t);
    } else {
        let t = seq!['0', 'x'] + text::hex2(code as nat);
        assert(r.subrange(r.len() - 4, r.len() as int) =~= t);
    }
}

} // verus!
