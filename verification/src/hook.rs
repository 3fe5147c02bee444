//! The decisions of the socket hooks: which calls of a process go through untouched, which are
//! redirected to the relay, and which are refused.

use vstd::prelude::*;
use vstd::utf8::*;
use crate::bytes;
use crate::fakeip;
use crate::fakeip::FakeIpPool;
use crate::net;
use crate::net::{word_of, Ipv4Addr, Ipv6Addr, SocketAddr, SocketAddrV4, SocketAddrV6};
use crate::protocol;
use crate::protocol::{FrameModel, TargetAddr, TargetModel};
use crate::relay::{ActionModel, ConnectionModel, EventModel};
use crate::router;
use crate::router::{RouteAction, RuleModel};
use crate::socks5;
use crate::text;
use crate::utf16;

verus! {

/// The address family of IPv4.
pub const AF_INET: u16 = 2;

/// The address family of IPv6.
pub const AF_INET6: u16 = 23;

/// The error of a connection that would have to wait.
pub const WSAEWOULDBLOCK: i32 = 10035;

/// The error of a name that cannot be resolved.
pub const WSAHOST_NOT_FOUND: i32 = 11001;

/// The port of the relay where none is set.
pub const DEFAULT_RELAY_PORT: u16 = 10808;

/// A name of this many UTF-16 units or more is taken for endless.
pub const MAX_NAME_UNITS: usize = 1024;

// Targets.

/// Where a redirected call was going to.
#[derive(PartialEq, Eq, Debug)]
pub enum HookTarget {
    Ip(SocketAddr),
    Domain(String, u16),
}

impl Clone for HookTarget {
    fn clone(&self) -> (r: HookTarget)
        ensures
            r@ == self@,
    {
        match self {
            HookTarget::Ip(sa) => HookTarget::Ip(*sa),
            HookTarget::Domain(host, port) => HookTarget::Domain(text::copy_text(host), *port),
        }
    }
}

impl View for HookTarget {
    type V = TargetModel;

    open spec fn view(&self) -> TargetModel {
        match self {
            HookTarget::Ip(sa) => TargetModel::Ip(*sa),
            HookTarget::Domain(host, port) => TargetModel::Domain(host@, *port),
        }
    }
}

impl HookTarget {
    /// The frame that announces the target to the relay: the same that the relay's own encoder makes.
    pub fn encode(&self) -> (r: Vec<u8>)
        ensures
            r@ == self@.frame(),
    {
        let target = match self {
            HookTarget::Ip(sa) => TargetAddr::Ip(*sa),
            HookTarget::Domain(host, port) => TargetAddr::Domain(text::copy_text(host), *port),
        };
        target.encode()
    }
}

// Socket addresses in memory.

/// The port of a socket address: the bytes 2 and 3, in network byte order, of an IPv4 address of at
/// least 16 bytes or an IPv6 address of at least 28.
pub open spec fn sockaddr_port(family: u16, b: Seq<u8>) -> Option<u16> {
    if (family == AF_INET && b.len() >= 16) || (family == AF_INET6 && b.len() >= 28) {
        Some(net::word(b[2], b[3]))
    } else {
        None
    }
}

/// The address and the port of a socket address.
pub open spec fn sockaddr_target(family: u16, b: Seq<u8>) -> Option<SocketAddr> {
    if family == AF_INET && b.len() >= 16 {
        Some(
            SocketAddr::V4(
                SocketAddrV4 { ip: Ipv4Addr { a: b[4], b: b[5], c: b[6], d: b[7] }, port: net::word(b[2], b[3]) },
            ),
        )
    } else if family == AF_INET6 && b.len() >= 28 {
        Some(
            SocketAddr::V6(
                SocketAddrV6 {
                    ip: Ipv6Addr::of_bytes(b.subrange(8, 24)),
                    port: net::word(b[2], b[3]),
                    flowinfo: 0,
                    scope_id: 0,
                },
            ),
        )
    } else {
        None
    }
}

/// The port of a socket address in memory.
pub fn port_of(family: u16, b: &[u8]) -> (r: Option<u16>)
    ensures
        r == sockaddr_port(family, b@),
{
    if (family == AF_INET && b.len() >= 16) || (family == AF_INET6 && b.len() >= 28) {
        Some(word_of(b[2], b[3]))
    } else {
        None
    }
}

fn target_of(family: u16, b: &[u8]) -> (r: Option<SocketAddr>)
    ensures
        r == sockaddr_target(family, b@),
{
    if family == AF_INET && b.len() >= 16 {
        let ip = Ipv4Addr::new(b[4], b[5], b[6], b[7]);
        Some(SocketAddr::V4(SocketAddrV4::new(ip, word_of(b[2], b[3]))))
    } else if family == AF_INET6 && b.len() >= 28 {
        let ip = Ipv6Addr::from_bytes(vstd::slice::slice_subrange(b, 8, 24));
        Some(SocketAddr::V6(SocketAddrV6::new(ip, word_of(b[2], b[3]), 0, 0)))
    } else {
        None
    }
}

/// The relay's own address, as it is laid out in memory behind the family: the port in network byte
/// order, 127.0.0.1 and eight zeros.
pub open spec fn relay_sockaddr(port: u16) -> Seq<u8> {
    net::be(port) + seq![127u8, 0, 0, 1, 0, 0, 0, 0, 0, 0, 0, 0]
}

pub fn relay_address(port: u16) -> (r: [u8; 14])
    ensures
        r@ == relay_sockaddr(port),
{
    let r = [net::high_byte(port), net::low_byte(port), 127, 0, 0, 1, 0, 0, 0, 0, 0, 0, 0, 0];
    assert(r@ =~= relay_sockaddr(port));
    r
}

// Datagrams.

/// Datagrams to this port are refused: port 443, which carries QUIC, and in strict mode port 53,
/// which carries DNS.
pub open spec fn udp_blocked(port: u16, strict_dns: bool) -> bool {
    port == 443 || (port == 53 && strict_dns)
}

/// Whether datagrams to this port are refused.
pub fn check_udp_security_block(port: u16, strict_dns: bool) -> (r: bool)
    ensures
        r == udp_blocked(port, strict_dns),
{
    port == 443 || (port == 53 && strict_dns)
}

/// Whether a datagram is refused. It goes to the address in the call, or to the socket's peer where
/// the call names none.
pub open spec fn datagram_refused(to: Option<(u16, Seq<u8>)>, peer_port: Option<u16>, strict_dns: bool) -> bool {
    let port = match to {
        Some((family, b)) => sockaddr_port(family, b),
        None => peer_port,
    };
    port is Some && udp_blocked(port->0, strict_dns)
}

pub open spec fn address_model(a: Option<(u16, &[u8])>) -> Option<(u16, Seq<u8>)> {
    match a {
        Some((family, b)) => Some((family, b@)),
        None => None,
    }
}

/// Whether a datagram is refused.
pub fn plan_sendto(to: Option<(u16, &[u8])>, peer_port: Option<u16>, strict_dns: bool) -> (r: bool)
    ensures
        r == datagram_refused(address_model(to), peer_port, strict_dns),
{
    let port = match to {
        Some((family, b)) => port_of(family, b),
        None => peer_port,
    };
    match port {
        Some(port) => check_udp_security_block(port, strict_dns),
        None => false,
    }
}

// Connections.

/// What becomes of a call that connects a socket.
#[derive(Debug)]
pub enum ConnectPlan {
    /// It goes through untouched.
    PassThrough,
    /// It fails.
    Refuse,
    /// It goes to the relay, which is told the target.
    Redirect(HookTarget),
}

pub enum ConnectModel {
    PassThrough,
    Refuse,
    Redirect(TargetModel),
}

impl View for ConnectPlan {
    type V = ConnectModel;

    open spec fn view(&self) -> ConnectModel {
        match self {
            ConnectPlan::PassThrough => ConnectModel::PassThrough,
            ConnectPlan::Refuse => ConnectModel::Refuse,
            ConnectPlan::Redirect(t) => ConnectModel::Redirect(t@),
        }
    }
}

/// A stream goes to the relay, but for one to a loopback address and one whose address is not
/// understood. A fake address is announced as the name that it stands for.
pub open spec fn stream_plan(address: Option<(u16, Seq<u8>)>, pairs: fakeip::Pairs) -> ConnectModel {
    match address {
        None => ConnectModel::PassThrough,
        Some((family, b)) => match sockaddr_target(family, b) {
            None => ConnectModel::PassThrough,
            Some(SocketAddr::V4(v4)) => if v4.ip.loopback() {
                ConnectModel::PassThrough
            } else {
                match fakeip::domain_of(pairs, v4.ip) {
                    Some(domain) => ConnectModel::Redirect(TargetModel::Domain(domain, v4.port)),
                    None => ConnectModel::Redirect(TargetModel::Ip(SocketAddr::V4(v4))),
                }
            },
            Some(SocketAddr::V6(v6)) => if v6.ip.loopback() {
                ConnectModel::PassThrough
            } else {
                ConnectModel::Redirect(TargetModel::Ip(SocketAddr::V6(v6)))
            },
        },
    }
}

/// A datagram socket is refused or left alone, never redirected.
pub open spec fn datagram_plan(address: Option<(u16, Seq<u8>)>, strict_dns: bool) -> ConnectModel {
    match address {
        Some((family, b)) => if sockaddr_port(family, b) is Some && udp_blocked(
            sockaddr_port(family, b)->0,
            strict_dns,
        ) {
            ConnectModel::Refuse
        } else {
            ConnectModel::PassThrough
        },
        None => ConnectModel::PassThrough,
    }
}

pub open spec fn connect_plan(
    address: Option<(u16, Seq<u8>)>,
    datagram: bool,
    strict_dns: bool,
    pairs: fakeip::Pairs,
) -> ConnectModel {
    if datagram {
        datagram_plan(address, strict_dns)
    } else {
        stream_plan(address, pairs)
    }
}

/// The plan for a stream. The address is the family and the bytes that the call names, if any.
pub fn plan_stream(address: Option<(u16, &[u8])>, pool: &FakeIpPool) -> (r: ConnectPlan)
    requires
        pool.wf(),
    ensures
        r@ == stream_plan(address_model(address), pool@),
{
    let (family, b) = match address {
        Some(a) => a,
        None => {
            return ConnectPlan::PassThrough;
        },
    };
    match target_of(family, b) {
        None => ConnectPlan::PassThrough,
        Some(SocketAddr::V4(v4)) => {
            if v4.ip.is_loopback() {
                ConnectPlan::PassThrough
            } else {
                match fakeip::lookup_domain_by_ip(pool, &v4.ip) {
                    Some(domain) => ConnectPlan::Redirect(HookTarget::Domain(domain, v4.port)),
                    None => ConnectPlan::Redirect(HookTarget::Ip(SocketAddr::V4(v4))),
                }
            }
        },
        Some(SocketAddr::V6(v6)) => {
            if v6.ip.is_loopback() {
                ConnectPlan::PassThrough
            } else {
                ConnectPlan::Redirect(HookTarget::Ip(SocketAddr::V6(v6)))
            }
        },
    }
}

/// The plan for `connect` and `WSAConnect`.
pub fn plan_connect(address: Option<(u16, &[u8])>, datagram: bool, strict_dns: bool, pool: &FakeIpPool) -> (r:
    ConnectPlan)
    requires
        pool.wf(),
    ensures
        r@ == connect_plan(address_model(address), datagram, strict_dns, pool@),
{
    if datagram {
        match address {
            Some((family, b)) => match port_of(family, b) {
                Some(port) => if check_udp_security_block(port, strict_dns) {
                    ConnectPlan::Refuse
                } else {
                    ConnectPlan::PassThrough
                },
                None => ConnectPlan::PassThrough,
            },
            None => ConnectPlan::PassThrough,
        }
    } else {
        plan_stream(address, pool)
    }
}

/// How a connection to the relay came out.
#[derive(Clone, Copy, PartialEq, Eq, Structural, Debug)]
pub enum RelayConnect {
    /// It stands, and this many bytes of the frame were sent, or fewer than one where sending failed.
    Connected { sent: i32 },
    /// It failed with this error.
    Failed { error: i32 },
}

/// What is left of the frame to be sent before the process's own data.
pub open spec fn frame_left(frame: Seq<u8>, outcome: RelayConnect) -> Option<Seq<u8>> {
    match outcome {
        RelayConnect::Connected { sent } => if sent == frame.len() {
            None
        } else if 0 < sent < frame.len() {
            Some(frame.subrange(sent as int, frame.len() as int))
        } else {
            Some(frame)
        },
        RelayConnect::Failed { error } => if error == WSAEWOULDBLOCK {
            Some(frame)
        } else {
            None
        },
    }
}

/// What is left of the frame to be sent before the process's own data.
pub fn unsent_frame(frame: Vec<u8>, outcome: RelayConnect) -> (r: Option<Vec<u8>>)
    requires
        frame@.len() <= i32::MAX,
    ensures
        match r {
            Some(left) => frame_left(frame@, outcome) == Some(left@),
            None => frame_left(frame@, outcome) is None,
        },
{
    match outcome {
        RelayConnect::Connected { sent } => {
            if sent == frame.len() as i32 {
                None
            } else if sent > 0 && (sent as usize) < frame.len() {
                Some(bytes::part(&frame, sent as usize, frame.len()))
            } else {
                Some(frame)
            }
        },
        RelayConnect::Failed { error } => {
            if error == WSAEWOULDBLOCK {
                Some(frame)
            } else {
                None
            }
        },
    }
}

/// What becomes of a call of `ConnectEx`.
#[derive(Debug)]
pub enum ConnectExPlan {
    PassThrough,
    /// It goes to the relay. The frame is sent before the process's own data, which stands behind it
    /// where the call brings data along; the call then connects without data and reports as many
    /// bytes as sent as it brought.
    Redirect { frame: Vec<u8>, reported: Option<u32> },
}

pub enum ConnectExModel {
    PassThrough,
    Redirect(Seq<u8>, Option<u32>),
}

impl View for ConnectExPlan {
    type V = ConnectExModel;

    open spec fn view(&self) -> ConnectExModel {
        match self {
            ConnectExPlan::PassThrough => ConnectExModel::PassThrough,
            ConnectExPlan::Redirect { frame, reported } => ConnectExModel::Redirect(frame@, *reported),
        }
    }
}

pub open spec fn connectex_plan(
    address: Option<(u16, Seq<u8>)>,
    data: Seq<u8>,
    pairs: fakeip::Pairs,
) -> ConnectExModel {
    match stream_plan(address, pairs) {
        ConnectModel::Redirect(t) => ConnectExModel::Redirect(
            t.frame() + data,
            if data.len() > 0 {
                Some(data.len() as u32)
            } else {
                None
            },
        ),
        _ => ConnectExModel::PassThrough,
    }
}

/// The plan for `ConnectEx`, with the data that the call brings along.
pub fn plan_connectex(address: Option<(u16, &[u8])>, data: &[u8], pool: &FakeIpPool) -> (r: ConnectExPlan)
    requires
        pool.wf(),
        data@.len() <= u32::MAX,
    ensures
        r@ == connectex_plan(address_model(address), data@, pool@),
{
    match plan_stream(address, pool) {
        ConnectPlan::Redirect(t) => {
            let mut frame = t.encode();
            bytes::push_all(&mut frame, data);
            let reported = if data.len() > 0 {
                Some(data.len() as u32)
            } else {
                None
            };
            ConnectExPlan::Redirect { frame, reported }
        },
        _ => ConnectExPlan::PassThrough,
    }
}

// Names.

/// What becomes of a call that resolves a name.
#[derive(Clone, Copy, PartialEq, Eq, Structural, Debug)]
pub enum ResolvePlan {
    PassThrough,
    /// It fails with this error.
    Fail(i32),
    /// The loopback address is resolved in place of the name, and this address put in its place.
    Fake(Ipv4Addr),
}

/// The names that are resolved as ever: `localhost` and addresses.
pub open spec fn resolved_locally(name: Seq<char>) -> bool {
    text::same_ignoring_case(name, "localhost"@) || net::ip_literal(name)
}

fn plan_name(name: &str, strict_dns: bool, pool: &mut FakeIpPool) -> (r: ResolvePlan)
    requires
        old(pool).wf(),
        old(pool).clock() < u64::MAX,
    ensures
        resolution(Some(name@), strict_dns, *old(pool), *final(pool), r),
        final(pool).clock() <= old(pool).clock() + 1,
{
    if text::eq_ignore_ascii_case(name, "localhost") || net::is_ip_literal(name) {
        return ResolvePlan::PassThrough;
    }
    if strict_dns {
        ResolvePlan::Fake(fakeip::get_or_allocate_fake_ip(pool, name))
    } else {
        ResolvePlan::PassThrough
    }
}

/// The plan for a name; `None` stands for one that is no text. In strict mode nothing but the names
/// that are resolved as ever reaches a resolver.
pub open spec fn resolution(
    name: Option<Seq<char>>,
    strict_dns: bool,
    before: FakeIpPool,
    after: FakeIpPool,
    plan: ResolvePlan,
) -> bool {
    match name {
        None => after == before && plan == (if strict_dns {
            ResolvePlan::Fail(WSAHOST_NOT_FOUND)
        } else {
            ResolvePlan::PassThrough
        }),
        Some(name) => if !strict_dns || resolved_locally(name) {
            after == before && plan == ResolvePlan::PassThrough
        } else {
            &&& after.wf()
            &&& plan is Fake
            &&& fakeip::assignable(plan->Fake_0)
            &&& fakeip::fake(plan->Fake_0)
            &&& match fakeip::ip_of(before@, text::lower(name)) {
                Some(ip) => plan->Fake_0 == ip && after@ == fakeip::moved_to_end(
                    before@,
                    fakeip::place_of_domain(before@, text::lower(name)),
                ) && after.next_number() == before.next_number(),
                None => plan->Fake_0 == Ipv4Addr::of_number(fakeip::due(before.next_number())) && after@
                    == fakeip::with_pair(
                    before@,
                    text::lower(name),
                    fakeip::MAX_FAKE_IP_ENTRIES as nat,
                    plan->Fake_0,
                ) && after.next_number() == fakeip::due(before.next_number()) + 1,
            }
        },
    }
}

/// The name that the bytes write, where they do.
pub open spec fn narrow_name(b: Seq<u8>) -> Option<Seq<char>> {
    if valid_utf8(b) {
        Some(decode_utf8(b))
    } else {
        None
    }
}

/// The plan for `getaddrinfo` on the bytes of a name.
pub fn plan_getaddrinfo(name: &[u8], strict_dns: bool, pool: &mut FakeIpPool) -> (r: ResolvePlan)
    requires
        old(pool).wf(),
        old(pool).clock() < u64::MAX,
    ensures
        resolution(narrow_name(name@), strict_dns, *old(pool), *final(pool), r),
        final(pool).clock() <= old(pool).clock() + 1,
{
    match text::text_of_utf8(vstd::slice::slice_to_vec(name)) {
        Ok(name) => plan_name(&name, strict_dns, pool),
        Err(_) => if strict_dns {
            ResolvePlan::Fail(WSAHOST_NOT_FOUND)
        } else {
            ResolvePlan::PassThrough
        },
    }
}

/// The name that the units write, where they do and it is not endless.
pub open spec fn wide_name(units: Seq<u16>, strict_dns: bool) -> Option<Seq<char>> {
    if utf16::well_paired(units) && !(units.len() >= MAX_NAME_UNITS && strict_dns) {
        Some(utf16::decoded(units))
    } else {
        None
    }
}

/// The plan for `GetAddrInfoW` on the units of a name, cut off at `MAX_NAME_UNITS`. In strict mode a
/// name of that many is refused.
pub fn plan_getaddrinfow(name: &[u16], strict_dns: bool, pool: &mut FakeIpPool) -> (r: ResolvePlan)
    requires
        old(pool).wf(),
        old(pool).clock() < u64::MAX,
    ensures
        resolution(wide_name(name@, strict_dns), strict_dns, *old(pool), *final(pool), r),
        final(pool).clock() <= old(pool).clock() + 1,
{
    if name.len() >= MAX_NAME_UNITS && strict_dns {
        return ResolvePlan::Fail(WSAHOST_NOT_FOUND);
    }
    match utf16::from_utf16(name) {
        Some(name) => plan_name(&name, strict_dns, pool),
        None => if strict_dns {
            ResolvePlan::Fail(WSAHOST_NOT_FOUND)
        } else {
            ResolvePlan::PassThrough
        },
    }
}

// Laws.

/// A datagram socket is never redirected to the relay, which carries streams only.
pub proof fn datagrams_are_never_redirected(
    address: Option<(u16, Seq<u8>)>,
    strict_dns: bool,
    pairs: fakeip::Pairs,
)
    ensures
        !(connect_plan(address, true, strict_dns, pairs) is Redirect),
{
}

/// A stream to a loopback address, the relay's own among them, is never redirected.
pub proof fn loopback_is_never_redirected(family: u16, b: Seq<u8>, strict_dns: bool, pairs: fakeip::Pairs)
    requires
        match sockaddr_target(family, b) {
            Some(SocketAddr::V4(v4)) => v4.ip.loopback(),
            Some(SocketAddr::V6(v6)) => v6.ip.loopback(),
            None => true,
        },
    ensures
        connect_plan(Some((family, b)), false, strict_dns, pairs) is PassThrough,
{
}

/// The relay's own address is a loopback address with the relay's port.
pub proof fn relay_address_is_loopback(port: u16, family_bytes: Seq<u8>)
    requires
        family_bytes.len() == 2,
    ensures
        sockaddr_target(AF_INET, family_bytes + relay_sockaddr(port)) == Some(
            SocketAddr::V4(SocketAddrV4 { ip: Ipv4Addr { a: 127, b: 0, c: 0, d: 1 }, port }),
        ),
{
    net::word_of_its_bytes(port);
}

/// In strict mode no name reaches a resolver but `localhost` and addresses.
pub proof fn strict_mode_leaks_no_name(
    name: Option<Seq<char>>,
    before: FakeIpPool,
    after: FakeIpPool,
    plan: ResolvePlan,
)
    requires
        resolution(name, true, before, after, plan),
        plan is PassThrough,
    ensures
        name is Some && resolved_locally(name->0),
{
}

/// In strict mode datagrams to the port of DNS are refused, to whatever address they go.
pub proof fn strict_mode_refuses_dns_datagrams(
    family: u16,
    b: Seq<u8>,
    peer_port: Option<u16>,
    pairs: fakeip::Pairs,
)
    requires
        sockaddr_port(family, b) == Some(53u16),
    ensures
        connect_plan(Some((family, b)), true, true, pairs) is Refuse,
        datagram_refused(Some((family, b)), peer_port, true),
{
}

/// Datagrams to the port of QUIC are refused in either mode, whether the call names their target or the
/// socket is connected to it.
pub proof fn quic_datagrams_are_refused(
    family: u16,
    b: Seq<u8>,
    peer_port: Option<u16>,
    strict_dns: bool,
    pairs: fakeip::Pairs,
)
    requires
        sockaddr_port(family, b) == Some(443u16),
    ensures
        connect_plan(Some((family, b)), true, strict_dns, pairs) is Refuse,
        datagram_refused(Some((family, b)), peer_port, strict_dns),
        datagram_refused(None, Some(443u16), strict_dns),
{
}

/// A stream to the fake address that a name was given is announced to the relay as that name.
pub proof fn fake_address_is_announced_as_its_name(
    name: Seq<char>,
    before: FakeIpPool,
    after: FakeIpPool,
    plan: ResolvePlan,
    b: Seq<u8>,
)
    requires
        before.wf(),
        resolution(Some(name), true, before, after, plan),
        plan is Fake,
        b.len() >= 16,
        b.subrange(4, 8) == plan->Fake_0.bytes(),
    ensures
        stream_plan(Some((AF_INET, b)), after@) == ConnectModel::Redirect(
            TargetModel::Domain(text::lower(name), net::word(b[2], b[3])),
        ),
{
    let ip = plan->Fake_0;
    let d = text::lower(name);
    let part = b.subrange(4, 8);
    assert(part[0] == b[4] && part[1] == b[5] && part[2] == b[6] && part[3] == b[7]);
    assert(part[0] == ip.a && part[1] == ip.b && part[2] == ip.c && part[3] == ip.d);
    before.addresses_are_not_shared();
    match fakeip::ip_of(before@, d) {
        Some(_) => {
            let k = fakeip::place_of_domain(before@, d);
            fakeip::use_keeps_every_pair(before@, k, d, ip);
            fakeip::pair_leads_both_ways(before@, k);
        },
        None => {
            fakeip::allocated_address_leads_back(
                before@,
                d,
                fakeip::MAX_FAKE_IP_ENTRIES as nat,
                ip,
            );
        },
    }
}

/// In strict mode a name that the rules send through the proxy is resolved by the proxy and by nobody
/// else: its fake address leads to the relay, which is told the name, and which asks the upstream proxy
/// for a tunnel to the name.
pub proof fn name_is_resolved_by_the_proxy(
    name: Seq<char>,
    before: FakeIpPool,
    after: FakeIpPool,
    plan: ResolvePlan,
    b: Seq<u8>,
    rest: Seq<u8>,
    rules: Seq<RuleModel>,
    connection: ConnectionModel,
    upstream: SocketAddr,
    id: u64,
)
    requires
        before.wf(),
        resolution(Some(name), true, before, after, plan),
        plan is Fake,
        b.len() >= 16,
        b.subrange(4, 8) == plan->Fake_0.bytes(),
        TargetModel::Domain(text::lower(name), net::word(b[2], b[3])).carried(),
        router::decide(rules, TargetModel::Domain(text::lower(name), net::word(b[2], b[3]))).action
            == RouteAction::Proxy,
    ensures
        ({
            let target = TargetModel::Domain(text::lower(name), net::word(b[2], b[3]));
            let known = connection.after(EventModel::Header(target), rules, id);
            let utf8 = encode_utf8(text::lower(name));
            &&& stream_plan(Some((AF_INET, b)), after@) == ConnectModel::Redirect(target)
            &&& protocol::frame_of(target.frame() + rest) == FrameModel::Ready(target, target.frame().len())
            &&& connection.reaction(EventModel::Header(target), rules, upstream) == ActionModel::ConnectUpstream(upstream)
            &&& known.reaction(EventModel::Connected, rules, upstream) == ActionModel::Handshake(target)
            &&& socks5::request(target) == seq![5u8, 1, 0, 3, utf8.len() as u8] + utf8 + seq![b[2], b[3]]
        }),
{
    let target = TargetModel::Domain(text::lower(name), net::word(b[2], b[3]));
    let utf8 = encode_utf8(text::lower(name));
    fake_address_is_announced_as_its_name(name, before, after, plan, b);
    protocol::decode_undoes_encode(target, rest);
    assert(net::be(net::word(b[2], b[3])) =~= seq![b[2], b[3]]);
    assert(socks5::request(target) =~= seq![5u8, 1, 0, 3, utf8.len() as u8] + utf8 + seq![b[2], b[3]]);
}

/// A stream to an IPv4 address goes to the relay whatever its port is, and is announced as the name that the
/// address stands for or else as the address itself, with its port; only a stream to 127.0.0.0/8 goes
/// through untouched. The mode makes no difference.
pub proof fn ipv4_streams_go_to_the_relay(b: Seq<u8>, strict_dns: bool, pairs: fakeip::Pairs)
    requires
        b.len() >= 16,
    ensures
        ({
            let ip = Ipv4Addr { a: b[4], b: b[5], c: b[6], d: b[7] };
            let port = (b[2] * 256 + b[3]) as u16;
            let plan = connect_plan(Some((2u16, b)), false, strict_dns, pairs);
            &&& plan is PassThrough <==> b[4] == 127
            &&& plan is Redirect <==> b[4] != 127
            &&& b[4] != 127 && (forall|i: int| 0 <= i < pairs.len() ==> (#[trigger] pairs[i]).ip != ip) ==> plan
                == ConnectModel::Redirect(TargetModel::Ip(SocketAddr::V4(SocketAddrV4 { ip, port })))
            &&& forall|i: int|
                b[4] != 127 && fakeip::distinct(pairs) && 0 <= i < pairs.len() && (#[trigger] pairs[i]).ip == ip
                    ==> plan == ConnectModel::Redirect(TargetModel::Domain(pairs[i].domain, port))
        }),
{
    let ip = Ipv4Addr { a: b[4], b: b[5], c: b[6], d: b[7] };
    assert forall|i: int|
        b[4] != 127 && fakeip::distinct(pairs) && 0 <= i < pairs.len() && (#[trigger] pairs[i]).ip
            == ip implies fakeip::domain_of(pairs, ip) == Some(pairs[i].domain) by {
        fakeip::pair_leads_both_ways(pairs, i);
    }
}

/// A stream to an IPv6 address goes to the relay whatever its port is, and is announced as that address and
/// port; only a stream to `::1` goes through untouched. The mode makes no difference.
pub proof fn ipv6_streams_go_to_the_relay(b: Seq<u8>, strict_dns: bool, pairs: fakeip::Pairs)
    requires
        b.len() >= 28,
    ensures
        ({
            let plan = connect_plan(Some((23u16, b)), false, strict_dns, pairs);
            let own = b.subrange(8, 24) == seq![0u8, 0, 0, 0, 0, 0, 0, 0, 0, 0, 0, 0, 0, 0, 0, 1];
            &&& plan is PassThrough <==> own
            &&& !own ==> match plan {
                ConnectModel::Redirect(TargetModel::Ip(SocketAddr::V6(v6))) => v6.port == b[2] * 256 + b[3]
                    && v6.ip.bytes() == b.subrange(8, 24) && v6.flowinfo == 0 && v6.scope_id == 0,
                _ => false,
            }
        }),
{
    net::ipv6_bytes(Ipv6Addr::of_bytes(b.subrange(8, 24)), b.subrange(8, 24));
}

/// A call that names no address, one of another family or too few bytes for its family goes through
/// untouched, whatever kind of socket it is.
pub proof fn unknown_addresses_pass_through(
    family: u16,
    b: Seq<u8>,
    datagram: bool,
    strict_dns: bool,
    pairs: fakeip::Pairs,
)
    ensures
        connect_plan(None, datagram, strict_dns, pairs) is PassThrough,
        !(family == 2 && b.len() >= 16) && !(family == 23 && b.len() >= 28) ==> connect_plan(
            Some((family, b)),
            datagram,
            strict_dns,
            pairs,
        ) is PassThrough,
{
}

/// A datagram that is understood is refused where its port is 443, or is 53 in strict mode, and goes through
/// untouched otherwise, whether its socket is connected first or not.
pub proof fn datagrams_are_refused_by_their_port(
    family: u16,
    b: Seq<u8>,
    peer: Option<u16>,
    strict_dns: bool,
    pairs: fakeip::Pairs,
)
    requires
        (family == 2 && b.len() >= 16) || (family == 23 && b.len() >= 28),
    ensures
        ({
            let port = b[2] * 256 + b[3];
            let bad = port == 443 || (strict_dns && port == 53);
            &&& connect_plan(Some((family, b)), true, strict_dns, pairs) == (if bad {
                ConnectModel::Refuse
            } else {
                ConnectModel::PassThrough
            })
            &&& datagram_refused(Some((family, b)), peer, strict_dns) == bad
        }),
        datagram_refused(None, peer, strict_dns) <==> peer == Some(443u16) || (strict_dns && peer == Some(53u16)),
{
}

/// A datagram to an address that is not understood is let through, and so is one whose target is not known.
pub proof fn unknown_datagrams_pass(family: u16, b: Seq<u8>, peer: Option<u16>, strict_dns: bool)
    ensures
        !(family == 2 && b.len() >= 16) && !(family == 23 && b.len() >= 28) ==> !datagram_refused(
            Some((family, b)),
            peer,
            strict_dns,
        ),
        !datagram_refused(None, None, strict_dns),
{
}

/// What was sent of the frame and what is left make up the frame; where nothing was sent, or the connection
/// is still under way, all of it is left, and where the connection failed nothing is.
pub proof fn frame_is_sent_whole(frame: Seq<u8>, sent: i32, error: i32)
    ensures
        0 < sent <= frame.len() ==> {
            let left = frame_left(frame, RelayConnect::Connected { sent });
            let rest = if left is Some {
                left->0
            } else {
                Seq::empty()
            };
            frame.subrange(0, sent as int) + rest == frame && (left is None <==> rest.len() == 0)
        },
        sent <= 0 && frame.len() > 0 ==> frame_left(frame, RelayConnect::Connected { sent }) == Some(frame),
        error == 10035 ==> frame_left(frame, RelayConnect::Failed { error }) == Some(frame),
        error != 10035 ==> frame_left(frame, RelayConnect::Failed { error }) is None,
{
    if 0 < sent <= frame.len() {
        assert(frame.subrange(0, sent as int) + frame.subrange(sent as int, frame.len() as int) =~= frame);
        assert(frame.subrange(0, frame.len() as int) + Seq::<u8>::empty() =~= frame);
    }
}

/// `ConnectEx` is treated as `connect` is; what it sends starts with the frame of the target and ends in the
/// data of the call, whose length is reported where there is any.
pub proof fn connectex_goes_as_connect_does(
    address: Option<(u16, Seq<u8>)>,
    data: Seq<u8>,
    strict_dns: bool,
    pairs: fakeip::Pairs,
)
    requires
        data.len() <= u32::MAX,
    ensures
        match connect_plan(address, false, strict_dns, pairs) {
            ConnectModel::Redirect(t) => match connectex_plan(address, data, pairs) {
                ConnectExModel::Redirect(sent, reported) => sent == t.frame() + data && (reported is None <==> data.len()
                    == 0) && (reported is Some ==> reported->0 == data.len()),
                ConnectExModel::PassThrough => false,
            },
            _ => connectex_plan(address, data, pairs) is PassThrough,
        },
{
}

/// In strict mode a name goes to a resolver where it is `localhost` in any case or the text of an address,
/// and no other name does: every other name gets a fake address.
pub proof fn strict_mode_fakes_every_other_name(
    name: Seq<char>,
    before: FakeIpPool,
    after: FakeIpPool,
    plan: ResolvePlan,
)
    requires
        resolution(Some(name), true, before, after, plan),
    ensures
        plan is PassThrough <==> text::letters_agree(name, seq!['l', 'o', 'c', 'a', 'l', 'h', 'o', 's', 't'])
            || net::ip_literal(name),
        !(plan is PassThrough) ==> plan is Fake && 0xC612_0001 <= plan->Fake_0.number() <= 0xC613_FFFE,
        plan is PassThrough ==> after == before,
{
    reveal_strlit("localhost");
    assert("localhost"@ =~= seq!['l', 'o', 'c', 'a', 'l', 'h', 'o', 's', 't']);
    text::case_is_set_aside(name, "localhost"@);
}

/// In strict mode a name with a character that no address is written with gets a fake address, unless it is
/// `localhost`; so does one without a colon that is not an IPv4 address in dotted decimal.
pub proof fn strict_mode_fakes_names_that_are_no_address(
    name: Seq<char>,
    i: int,
    before: FakeIpPool,
    after: FakeIpPool,
    plan: ResolvePlan,
)
    requires
        resolution(Some(name), true, before, after, plan),
        !text::letters_agree(name, seq!['l', 'o', 'c', 'a', 'l', 'h', 'o', 's', 't']),
        (0 <= i < name.len() && !net::address_character(name[i])) || (!name.contains(':') && forall|ip: Ipv4Addr|
            #[trigger] ip.text() != name),
    ensures
        plan is Fake,
{
    strict_mode_fakes_every_other_name(name, before, after, plan);
    if net::ip_literal(name) {
        net::only_addresses_are_addresses(name);
    }
}

/// In strict mode the text of every address goes to a resolver.
pub proof fn addresses_are_resolved_as_ever(
    v4: Ipv4Addr,
    v6: Ipv6Addr,
    strict_dns: bool,
    before: FakeIpPool,
    after: FakeIpPool,
    plan: ResolvePlan,
)
    requires
        resolution(Some(v4.text()), strict_dns, before, after, plan) || resolution(
            Some(v6.text()),
            strict_dns,
            before,
            after,
            plan,
        ),
    ensures
        plan is PassThrough,
        after == before,
{
    net::address_texts_are_addresses(v4, v6);
}

/// Where strict mode is off every name goes to a resolver; where it is on, what is no text fails.
pub proof fn other_names(
    name: Option<Seq<char>>,
    strict_dns: bool,
    before: FakeIpPool,
    after: FakeIpPool,
    plan: ResolvePlan,
)
    requires
        resolution(name, strict_dns, before, after, plan),
    ensures
        !strict_dns ==> plan is PassThrough && after == before,
        strict_dns && name is None ==> plan == ResolvePlan::Fail(11001) && after == before,
{
}

/// A name keeps its fake address, in whatever case it is asked for; behind a name that is new, another name
/// gets another address.
pub proof fn names_have_their_own_addresses(
    name: Seq<char>,
    other: Seq<char>,
    before: FakeIpPool,
    between: FakeIpPool,
    after: FakeIpPool,
    first: ResolvePlan,
    second: ResolvePlan,
)
    requires
        before.wf(),
        resolution(Some(name), true, before, between, first),
        resolution(Some(other), true, between, after, second),
        first is Fake,
        second is Fake,
    ensures
        text::letters_agree(name, other) ==> first == second,
        !text::letters_agree(name, other) && fakeip::ip_of(before@, text::lower(name)) is None ==> first != second,
        fakeip::domain_of(after@, second->Fake_0) == Some(text::lower(other)),
{
    text::case_is_set_aside(name, other);
    let d = text::lower(name);
    let e = text::lower(other);
    let ip = first->Fake_0;
    before.addresses_are_not_shared();
    between.addresses_are_not_shared();
    match fakeip::ip_of(before@, d) {
        Some(_) => {
            let k = fakeip::place_of_domain(before@, d);
            fakeip::use_keeps_every_pair(before@, k, d, ip);
            fakeip::pair_leads_both_ways(before@, k);
        },
        None => {
            fakeip::allocated_address_leads_back(before@, d, fakeip::MAX_FAKE_IP_ENTRIES as nat, ip);
        },
    }
    match fakeip::ip_of(between@, e) {
        Some(_) => {
            let k = fakeip::place_of_domain(between@, e);
            fakeip::use_keeps_every_pair(between@, k, e, second->Fake_0);
            fakeip::pair_leads_both_ways(between@, k);
        },
        None => {
            fakeip::allocated_address_leads_back(between@, e, fakeip::MAX_FAKE_IP_ENTRIES as nat, second->Fake_0);
        },
    }
    if d != e {
        match fakeip::ip_of(between@, e) {
            Some(_) => {
                let k = fakeip::place_of_domain(between@, e);
                fakeip::pair_leads_both_ways(between@, k);
            },
            None => {
                let n = fakeip::due(before.next_number());
                let m = fakeip::due(between.next_number());
                net::octets_make_the_number(ip, n);
                net::octets_make_the_number(ip, m);
            },
        }
    }
}

/// A wide name is the text that its units write; one whose surrogates are not paired is no text, and in
/// strict mode one of 1024 units or more is none either.
pub proof fn wide_names(name: Seq<char>, units: Seq<u16>, strict_dns: bool)
    ensures
        utf16::encoded(name).len() < 1024 || !strict_dns ==> wide_name(utf16::encoded(name), strict_dns) == Some(name),
        units.len() >= 1024 && strict_dns ==> wide_name(units, strict_dns) is None,
        !utf16::well_paired(units) ==> wide_name(units, strict_dns) is None,
{
    utf16::decoding_undoes_encoding(name);
}

/// The relay is at 127.0.0.1 on its port, in network byte order, with eight zeros behind.
pub proof fn relay_address_in_memory(port: u16)
    ensures
        relay_sockaddr(port).len() == 14,
        relay_sockaddr(port)[0] * 256 + relay_sockaddr(port)[1] == port,
        relay_sockaddr(port).subrange(2, 6) == seq![127u8, 0, 0, 1],
        forall|i: int| 6 <= i < 14 ==> #[trigger] relay_sockaddr(port)[i] == 0,
        DEFAULT_RELAY_PORT == 10808,
{
    assert(relay_sockaddr(port).subrange(2, 6) =~= seq![127u8, 0, 0, 1]);
}

/// A name is read back from its bytes, and bytes that write no text are no name.
pub proof fn narrow_names(name: Seq<char>, b: Seq<u8>)
    ensures
        narrow_name(encode_utf8(name)) == Some(name),
        narrow_name(b) is Some ==> encode_utf8(narrow_name(b)->0) == b,
        !valid_utf8(b) ==> narrow_name(b) is None,
{
    encode_utf8_valid_utf8(name);
    encode_utf8_decode_utf8(name);
    if valid_utf8(b) {
        decode_utf8_encode_utf8(b);
    }
}

} // verus!
