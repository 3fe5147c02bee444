//! The relay: what becomes of a redirected connection, from its frame to its end.

use vstd::prelude::*;
use crate::net::SocketAddr;
use crate::protocol::{IoError, IoErrorKind, ProtocolError, ProtocolFault, TargetAddr, TargetModel};
use crate::router;
use crate::router::{RouteAction, Router, RuleModel};
use crate::session;
use crate::session::{Moment, RecordModel, SessionStatus, SessionTracker, TrackerModel};
use crate::text;

verus! {

#[derive(Debug)]
pub enum RelayError {
    Io(IoError),
    Protocol(ProtocolError),
    UpstreamConnect(String),
    DirectConnect(String),
}

/// What a `RelayError` says.
pub enum RelayFault {
    Io(IoErrorKind, Seq<char>),
    Protocol(ProtocolFault),
    UpstreamConnect(Seq<char>),
    DirectConnect(Seq<char>),
}

impl View for RelayError {
    type V = RelayFault;

    open spec fn view(&self) -> RelayFault {
        match self {
            RelayError::Io(e) => RelayFault::Io(e.kind, e.message@),
            RelayError::Protocol(e) => RelayFault::Protocol(e@),
            RelayError::UpstreamConnect(m) => RelayFault::UpstreamConnect(m@),
            RelayError::DirectConnect(m) => RelayFault::DirectConnect(m@),
        }
    }
}

impl RelayFault {
    /// The message that a user reads.
    pub open spec fn text(self) -> Seq<char> {
        match self {
            RelayFault::Io(_, m) => "I/O 错误: "@ + m,
            RelayFault::Protocol(e) => "协议解析错误: "@ + e.text(),
            RelayFault::UpstreamConnect(m) => "上游代理连接失败: "@ + m,
            RelayFault::DirectConnect(m) => "直连目标失败: "@ + m,
        }
    }
}

impl RelayError {
    /// The message that a user reads.
    pub fn message(&self) -> (r: String)
        ensures
            r@ == self@.text(),
    {
        match self {
            RelayError::Io(e) => text::join("I/O 错误: ", &e.message),
            RelayError::Protocol(e) => text::join("协议解析错误: ", &e.message()),
            RelayError::UpstreamConnect(m) => text::join("上游代理连接失败: ", m),
            RelayError::DirectConnect(m) => text::join("直连目标失败: ", m),
        }
    }
}

/// An error of the engine as a whole.
#[derive(Debug)]
pub enum CoreError {
    Io(IoError),
    Protocol(ProtocolError),
    Relay(RelayError),
    DnsBlocked(String),
}

impl CoreError {
    /// The message that a user reads.
    pub open spec fn text(self) -> Seq<char> {
        match self {
            CoreError::Io(e) => "I/O 错误: "@ + e.message@,
            CoreError::Protocol(e) => "协议错误: "@ + e@.text(),
            CoreError::Relay(e) => "中继错误: "@ + e@.text(),
            CoreError::DnsBlocked(m) => "DNS 解析被严格策略阻断: "@ + m@,
        }
    }

    /// The message that a user reads.
    pub fn message(&self) -> (r: String)
        ensures
            r@ == self.text(),
    {
        match self {
            CoreError::Io(e) => text::join("I/O 错误: ", &e.message),
            CoreError::Protocol(e) => text::join("协议错误: ", &e.message()),
            CoreError::Relay(e) => text::join("中继错误: ", &e.message()),
            CoreError::DnsBlocked(m) => text::join("DNS 解析被严格策略阻断: ", m),
        }
    }
}

/// Bytes carried by all connections together. The counts start again from zero when they are full.
#[derive(Clone, Copy, PartialEq, Eq, Structural, Debug)]
pub struct TrafficStats {
    pub bytes_sent: u64,
    pub bytes_received: u64,
}

impl Default for TrafficStats {
    fn default() -> (r: TrafficStats)
        ensures
            r == (TrafficStats { bytes_sent: 0, bytes_received: 0 }),
    {
        TrafficStats { bytes_sent: 0, bytes_received: 0 }
    }
}

impl TrafficStats {
    pub open spec fn counted(self, sent: u64, received: u64) -> TrafficStats {
        TrafficStats {
            bytes_sent: session::wrapped(self.bytes_sent + sent),
            bytes_received: session::wrapped(self.bytes_received + received),
        }
    }

    pub fn count(&mut self, sent: u64, received: u64)
        ensures
            *final(self) == old(self).counted(sent, received),
    {
        self.bytes_sent = self.bytes_sent.wrapping_add(sent);
        self.bytes_received = self.bytes_received.wrapping_add(received);
    }
}

/// A length of time.
#[derive(Clone, Copy, PartialEq, Eq, Structural, Debug)]
pub struct Timeout {
    pub secs: u64,
    pub nanos: u32,
}

/// How long a frame, a connection attempt and a handshake may each take where nothing else is set:
/// five seconds.
pub const DEFAULT_HANDSHAKE_SECS: u64 = 5;

#[derive(Debug)]
pub struct RelayConfig {
    pub listen_addr: SocketAddr,
    pub upstream_proxy: SocketAddr,
    pub proxy_auth: Option<(String, String)>,
    pub strict_dns: bool,
    pub handshake_timeout: Option<Timeout>,
}

impl Clone for RelayConfig {
    fn clone(&self) -> (r: RelayConfig)
        ensures
            r.listen_addr == self.listen_addr,
            r.upstream_proxy == self.upstream_proxy,
            r.credentials() == self.credentials(),
            r.strict_dns == self.strict_dns,
            r.handshake_timeout == self.handshake_timeout,
    {
        RelayConfig {
            listen_addr: self.listen_addr,
            upstream_proxy: self.upstream_proxy,
            proxy_auth: match &self.proxy_auth {
                Some((user, pass)) => Some((text::copy_text(user), text::copy_text(pass))),
                None => None,
            },
            strict_dns: self.strict_dns,
            handshake_timeout: self.handshake_timeout,
        }
    }
}

impl RelayConfig {
    /// How long a frame, a connection attempt and a handshake may each take.
    pub open spec fn limit(self) -> Timeout {
        match self.handshake_timeout {
            Some(t) => t,
            None => Timeout { secs: DEFAULT_HANDSHAKE_SECS, nanos: 0 },
        }
    }

    pub fn timeout(&self) -> (r: Timeout)
        ensures
            r == self.limit(),
    {
        match self.handshake_timeout {
            Some(t) => t,
            None => Timeout { secs: DEFAULT_HANDSHAKE_SECS, nanos: 0 },
        }
    }

    /// The user name and the password for the upstream proxy.
    pub open spec fn credentials(self) -> Option<(Seq<char>, Seq<char>)> {
        match self.proxy_auth {
            Some((user, pass)) => Some((user@, pass@)),
            None => None,
        }
    }

    pub fn auth(&self) -> (r: Option<(&str, &str)>)
        ensures
            crate::socks5::auth_model(r) == self.credentials(),
    {
        match &self.proxy_auth {
            Some((user, pass)) => Some((user.as_str(), pass.as_str())),
            None => None,
        }
    }
}

// A connection.

/// How far a connection has come.
#[derive(Clone, Copy, PartialEq, Eq, Structural, Debug)]
pub enum Phase {
    /// The frame is being read.
    Header,
    /// The target or the upstream proxy is being connected to.
    Connecting,
    /// The upstream proxy is being asked for a tunnel.
    Handshaking,
    /// Bytes are copied both ways.
    Copying,
    Closed,
}

#[derive(Debug)]
pub struct Connection {
    phase: Phase,
    action: RouteAction,
    session: u64,
    target: TargetAddr,
}

pub struct ConnectionModel {
    pub phase: Phase,
    pub action: RouteAction,
    pub session: u64,
    pub target: TargetModel,
}

impl View for Connection {
    type V = ConnectionModel;

    closed spec fn view(&self) -> ConnectionModel {
        ConnectionModel { phase: self.phase, action: self.action, session: self.session, target: self.target@ }
    }
}

/// What happened to a connection.
#[derive(Debug)]
pub enum Event {
    Header(TargetAddr),
    HeaderFailed(ProtocolError),
    HeaderTimedOut,
    Connected,
    /// Holds what went wrong.
    ConnectFailed(String),
    ConnectTimedOut,
    /// The upstream proxy granted the tunnel.
    HandshakeDone,
    /// The upstream proxy refused the tunnel, or the handshake broke off.
    HandshakeFailed(ProtocolError),
    /// Holds what the timer said.
    HandshakeTimedOut(String),
    Copied { from_client: u64, from_server: u64 },
    CopyFailed(IoError),
}

pub enum EventModel {
    Header(TargetModel),
    HeaderFailed(ProtocolFault),
    HeaderTimedOut,
    Connected,
    ConnectFailed(Seq<char>),
    ConnectTimedOut,
    HandshakeDone,
    HandshakeFailed(ProtocolFault),
    HandshakeTimedOut(Seq<char>),
    Copied { from_client: u64, from_server: u64 },
    CopyFailed(IoErrorKind, Seq<char>),
}

impl View for Event {
    type V = EventModel;

    open spec fn view(&self) -> EventModel {
        match self {
            Event::Header(t) => EventModel::Header(t@),
            Event::HeaderFailed(e) => EventModel::HeaderFailed(e@),
            Event::HeaderTimedOut => EventModel::HeaderTimedOut,
            Event::Connected => EventModel::Connected,
            Event::ConnectFailed(m) => EventModel::ConnectFailed(m@),
            Event::ConnectTimedOut => EventModel::ConnectTimedOut,
            Event::HandshakeDone => EventModel::HandshakeDone,
            Event::HandshakeFailed(e) => EventModel::HandshakeFailed(e@),
            Event::HandshakeTimedOut(m) => EventModel::HandshakeTimedOut(m@),
            Event::Copied { from_client, from_server } => EventModel::Copied {
                from_client: *from_client,
                from_server: *from_server,
            },
            Event::CopyFailed(e) => EventModel::CopyFailed(e.kind, e.message@),
        }
    }
}

/// What is to be done with a connection next.
#[derive(Debug)]
pub enum Action {
    ConnectTarget(TargetAddr),
    ConnectUpstream(SocketAddr),
    /// Ask the upstream proxy for a tunnel to the target.
    Handshake(TargetAddr),
    Copy,
    /// Close it; with the error where something went wrong.
    Close(Option<RelayError>),
}

pub enum ActionModel {
    ConnectTarget(TargetModel),
    ConnectUpstream(SocketAddr),
    Handshake(TargetModel),
    Copy,
    Close(Option<RelayFault>),
}

impl View for Action {
    type V = ActionModel;

    open spec fn view(&self) -> ActionModel {
        match self {
            Action::ConnectTarget(t) => ActionModel::ConnectTarget(t@),
            Action::ConnectUpstream(sa) => ActionModel::ConnectUpstream(*sa),
            Action::Handshake(t) => ActionModel::Handshake(t@),
            Action::Copy => ActionModel::Copy,
            Action::Close(Some(e)) => ActionModel::Close(Some(e@)),
            Action::Close(None) => ActionModel::Close(None),
        }
    }
}

impl ConnectionModel {
    /// The event is one that can happen now.
    pub open spec fn expects(self, event: EventModel) -> bool {
        match event {
            EventModel::Header(_) | EventModel::HeaderFailed(_) | EventModel::HeaderTimedOut => self.phase
                == Phase::Header,
            EventModel::Connected | EventModel::ConnectFailed(_) | EventModel::ConnectTimedOut => self.phase
                == Phase::Connecting,
            EventModel::HandshakeDone | EventModel::HandshakeFailed(_) | EventModel::HandshakeTimedOut(_) => self.phase
                == Phase::Handshaking,
            EventModel::Copied { .. } | EventModel::CopyFailed(_, _) => self.phase == Phase::Copying,
        }
    }

    /// The connection after the event. `id` is the id that the next session gets.
    pub open spec fn after(self, event: EventModel, rules: Seq<RuleModel>, id: u64) -> ConnectionModel {
        match event {
            EventModel::Header(target) => {
                let action = router::decide(rules, target).action;
                ConnectionModel {
                    phase: if action == RouteAction::Block {
                        Phase::Closed
                    } else {
                        Phase::Connecting
                    },
                    action,
                    session: id,
                    target,
                }
            },
            EventModel::Connected => ConnectionModel {
                phase: if self.action == RouteAction::Direct {
                    Phase::Copying
                } else {
                    Phase::Handshaking
                },
                ..self
            },
            EventModel::HandshakeDone => ConnectionModel { phase: Phase::Copying, ..self },
            _ => ConnectionModel { phase: Phase::Closed, ..self },
        }
    }

    /// What is to be done after the event.
    pub open spec fn reaction(self, event: EventModel, rules: Seq<RuleModel>, upstream: SocketAddr) -> ActionModel {
        match event {
            EventModel::Header(target) => match router::decide(rules, target).action {
                RouteAction::Block => ActionModel::Close(None),
                RouteAction::Direct => ActionModel::ConnectTarget(target),
                RouteAction::Proxy => ActionModel::ConnectUpstream(upstream),
            },
            EventModel::HeaderFailed(e) => ActionModel::Close(Some(RelayFault::Protocol(e))),
            EventModel::HeaderTimedOut => ActionModel::Close(
                Some(RelayFault::Io(IoErrorKind::TimedOut, "读取目标透明代理帧头握手超时"@)),
            ),
            EventModel::Connected => if self.action == RouteAction::Direct {
                ActionModel::Copy
            } else {
                ActionModel::Handshake(self.target)
            },
            EventModel::ConnectFailed(m) => ActionModel::Close(Some(self.connect_fault(m, upstream))),
            EventModel::ConnectTimedOut => ActionModel::Close(
                Some(
                    self.connect_fault(
                        if self.action == RouteAction::Direct {
                            "直连目标超时"@
                        } else {
                            "连接上游代理超时"@
                        },
                        upstream,
                    ),
                ),
            ),
            EventModel::HandshakeDone => ActionModel::Copy,
            EventModel::HandshakeFailed(e) => ActionModel::Close(
                Some(RelayFault::UpstreamConnect("上游 SOCKS5 握手超时或失败: "@ + e.text())),
            ),
            EventModel::HandshakeTimedOut(m) => ActionModel::Close(
                Some(RelayFault::UpstreamConnect("上游 SOCKS5 握手超时或失败: "@ + m)),
            ),
            EventModel::Copied { .. } => ActionModel::Close(None),
            EventModel::CopyFailed(kind, m) => ActionModel::Close(Some(RelayFault::Io(kind, m))),
        }
    }

    pub open spec fn connect_fault(self, m: Seq<char>, upstream: SocketAddr) -> RelayFault {
        if self.action == RouteAction::Direct {
            RelayFault::DirectConnect(self.target.text() + ": "@ + m)
        } else {
            RelayFault::UpstreamConnect(upstream.text() + ": "@ + m)
        }
    }

    /// The tracker after the event: a session is opened when the frame is there, and finished when
    /// the connection is closed.
    pub open spec fn followed(
        self,
        event: EventModel,
        rules: Seq<RuleModel>,
        tracker: TrackerModel,
        now: Moment,
    ) -> TrackerModel {
        match event {
            EventModel::Header(target) => {
                let d = router::decide(rules, target);
                tracker.started(now, target.text(), d.rule_name, d.action, d.action == RouteAction::Block)
            },
            EventModel::ConnectFailed(_)
            | EventModel::ConnectTimedOut
            | EventModel::HandshakeFailed(_)
            | EventModel::HandshakeTimedOut(_)
            | EventModel::CopyFailed(_, _) => tracker.finished(now.nanos, self.session, SessionStatus::Failed, 0, 0),
            EventModel::Copied { from_client, from_server } => tracker.finished(
                now.nanos,
                self.session,
                SessionStatus::Closed,
                from_client,
                from_server,
            ),
            _ => tracker,
        }
    }
}

/// The counts after the event.
pub open spec fn stats_after(stats: TrafficStats, event: EventModel) -> TrafficStats {
    match event {
        EventModel::Copied { from_client, from_server } => stats.counted(from_client, from_server),
        _ => stats,
    }
}

/// What the event adds to the session's own counts fits.
pub open spec fn counts_fit(c: ConnectionModel, event: EventModel, tracker: TrackerModel) -> bool {
    match event {
        EventModel::Copied { from_client, from_server } => tracker.can_carry(c.session, from_client, from_server),
        _ => true,
    }
}

impl Connection {
    /// A connection whose frame has not been read yet. It has no session, which is shown as 0, and is
    /// let through to no target.
    pub fn new() -> (r: Connection)
        ensures
            r@ == (ConnectionModel {
                phase: Phase::Header,
                action: RouteAction::Block,
                session: 0,
                target: TargetModel::Domain(Seq::empty(), 0),
            }),
    {
        Connection {
            phase: Phase::Header,
            action: RouteAction::Block,
            session: 0,
            target: TargetAddr::Domain(String::new(), 0),
        }
    }

    /// Whether the event is one that can happen now.
    pub fn expects(&self, event: &Event) -> (r: bool)
        ensures
            r == self@.expects(event@),
    {
        match event {
            Event::Header(_) | Event::HeaderFailed(_) | Event::HeaderTimedOut => self.phase == Phase::Header,
            Event::Connected | Event::ConnectFailed(_) | Event::ConnectTimedOut => self.phase == Phase::Connecting,
            Event::HandshakeDone | Event::HandshakeFailed(_) | Event::HandshakeTimedOut(_) => self.phase
                == Phase::Handshaking,
            Event::Copied { .. } | Event::CopyFailed(_) => self.phase == Phase::Copying,
        }
    }

    /// The session of the connection, once its frame is there.
    pub fn session(&self) -> (r: u64)
        ensures
            r == self@.session,
    {
        self.session
    }

    fn connect_error(&self, message: &str, upstream: &SocketAddr) -> (r: RelayError)
        ensures
            r@ == self@.connect_fault(message@, *upstream),
    {
        if self.action == RouteAction::Direct {
            let t = self.target.to_text();
            RelayError::DirectConnect(text::join(&text::join(&t, ": "), message))
        } else {
            let t = upstream.to_text();
            RelayError::UpstreamConnect(text::join(&text::join(&t, ": "), message))
        }
    }

    fn fail(&mut self, tracker: &mut SessionTracker, now: Moment)
        ensures
            final(self)@ == (ConnectionModel { phase: Phase::Closed, ..old(self)@ }),
            final(tracker)@ == old(tracker)@.finished(now.nanos, old(self)@.session, SessionStatus::Failed, 0, 0),
    {
        self.phase = Phase::Closed;
        tracker.finish_session_at(now.nanos, self.session, SessionStatus::Failed, 0, 0);
    }
}

/// Takes a connection one step further: `event` is what happened to it, the result what is to be done
/// next. Bytes are copied only where the target is there: a tunnel that the upstream proxy refuses ends
/// the connection, and its session has failed.
pub fn handle_inbound_connection(
    connection: &mut Connection,
    event: Event,
    config: &RelayConfig,
    stats: &mut TrafficStats,
    router: &Router,
    tracker: &mut SessionTracker,
    now: Moment,
) -> (r: Action)
    requires
        old(connection)@.expects(event@),
        counts_fit(old(connection)@, event@, old(tracker)@),
    ensures
        r@ == old(connection)@.reaction(event@, router@, config.upstream_proxy),
        final(connection)@ == old(connection)@.after(event@, router@, old(tracker)@.next_id),
        final(tracker)@ == old(connection)@.followed(event@, router@, old(tracker)@, now),
        *final(stats) == stats_after(*old(stats), event@),
{
    match event {
        Event::Header(target) => {
            let name = target.to_text();
            let decision = router.eval(&target);
            let blocked: bool = decision.action == RouteAction::Block;
            connection.session = tracker.start_session_at(now, &name, &decision.rule_name, decision.action, blocked);
            connection.action = decision.action;
            connection.target = target.clone();
            match decision.action {
                RouteAction::Block => {
                    connection.phase = Phase::Closed;
                    Action::Close(None)
                },
                RouteAction::Direct => {
                    connection.phase = Phase::Connecting;
                    Action::ConnectTarget(target)
                },
                RouteAction::Proxy => {
                    connection.phase = Phase::Connecting;
                    Action::ConnectUpstream(config.upstream_proxy)
                },
            }
        },
        Event::HeaderFailed(e) => {
            connection.phase = Phase::Closed;
            Action::Close(Some(RelayError::Protocol(e)))
        },
        Event::HeaderTimedOut => {
            connection.phase = Phase::Closed;
            Action::Close(
                Some(
                    RelayError::Io(
                        IoError { kind: IoErrorKind::TimedOut, message: text::copy_text("读取目标透明代理帧头握手超时") },
                    ),
                ),
            )
        },
        Event::Connected => {
            if connection.action == RouteAction::Direct {
                connection.phase = Phase::Copying;
                Action::Copy
            } else {
                connection.phase = Phase::Handshaking;
                Action::Handshake(connection.target.clone())
            }
        },
        Event::ConnectFailed(m) => {
            let e = connection.connect_error(&m, &config.upstream_proxy);
            connection.fail(tracker, now);
            Action::Close(Some(e))
        },
        Event::ConnectTimedOut => {
            let m = if connection.action == RouteAction::Direct {
                "直连目标超时"
            } else {
                "连接上游代理超时"
            };
            let e = connection.connect_error(m, &config.upstream_proxy);
            connection.fail(tracker, now);
            Action::Close(Some(e))
        },
        Event::HandshakeDone => {
            connection.phase = Phase::Copying;
            Action::Copy
        },
        Event::HandshakeFailed(e) => {
            connection.fail(tracker, now);
            Action::Close(Some(RelayError::UpstreamConnect(text::join("上游 SOCKS5 握手超时或失败: ", &e.message()))))
        },
        Event::HandshakeTimedOut(m) => {
            connection.fail(tracker, now);
            Action::Close(Some(RelayError::UpstreamConnect(text::join("上游 SOCKS5 握手超时或失败: ", &m))))
        },
        Event::Copied { from_client, from_server } => {
            stats.count(from_client, from_server);
            connection.phase = Phase::Closed;
            tracker.finish_session_at(
                now.nanos,
                connection.session,
                SessionStatus::Closed,
                from_client,
                from_server,
            );
            Action::Close(None)
        },
        Event::CopyFailed(e) => {
            connection.fail(tracker, now);
            Action::Close(Some(RelayError::Io(e)))
        },
    }
}

// Laws.

/// A connection to a blocked target is closed at once: nothing is connected to, and the session goes
/// into the history as blocked.
pub proof fn blocked_target_is_not_connected(
    c: ConnectionModel,
    target: TargetModel,
    rules: Seq<RuleModel>,
    upstream: SocketAddr,
    tracker: TrackerModel,
    now: Moment,
)
    requires
        router::decide(rules, target).action == RouteAction::Block,
    ensures
        c.reaction(EventModel::Header(target), rules, upstream) == ActionModel::Close(None),
        c.after(EventModel::Header(target), rules, tracker.next_id).phase == Phase::Closed,
        c.followed(EventModel::Header(target), rules, tracker, now).active == tracker.active,
        c.followed(EventModel::Header(target), rules, tracker, now).history.last().status == SessionStatus::Blocked,
{
}

/// A connection that is routed directly has nothing to do with the upstream proxy.
pub proof fn direct_connection_avoids_the_proxy(
    c: ConnectionModel,
    event: EventModel,
    rules: Seq<RuleModel>,
    upstream: SocketAddr,
    id: u64,
)
    requires
        c.expects(event),
        c.after(event, rules, id).action == RouteAction::Direct,
        c.phase != Phase::Handshaking,
    ensures
        !(c.reaction(event, rules, upstream) is ConnectUpstream),
        !(c.reaction(event, rules, upstream) is Handshake),
        c.after(event, rules, id).phase != Phase::Handshaking,
{
}

/// A connection that is routed through the proxy is never made to the target itself: it goes to the
/// upstream proxy, which is asked for a tunnel before anything is copied.
pub proof fn proxied_connection_goes_through_the_proxy(
    c: ConnectionModel,
    event: EventModel,
    rules: Seq<RuleModel>,
    upstream: SocketAddr,
    id: u64,
)
    requires
        c.expects(event),
        c.after(event, rules, id).action == RouteAction::Proxy,
    ensures
        !(c.reaction(event, rules, upstream) is ConnectTarget),
        c.reaction(event, rules, upstream) is ConnectUpstream ==> c.reaction(event, rules, upstream)
            == ActionModel::ConnectUpstream(upstream),
        c.reaction(event, rules, upstream) is Copy ==> c.phase == Phase::Handshaking && event is HandshakeDone,
{
}

/// Bytes are copied where the target was connected to directly or where the upstream proxy granted a
/// tunnel to it, and at no other time.
pub proof fn nothing_is_copied_before_the_target_is_there(
    c: ConnectionModel,
    event: EventModel,
    rules: Seq<RuleModel>,
    upstream: SocketAddr,
    id: u64,
)
    ensures
        c.reaction(event, rules, upstream) is Copy <==> (event is Connected && c.action == RouteAction::Direct)
            || event is HandshakeDone,
        c.reaction(event, rules, upstream) is Copy <==> c.after(event, rules, id).phase == Phase::Copying,
{
}

/// Where the upstream proxy refuses the tunnel, the connection is closed with the reason and its session
/// goes into the history as failed, with no byte more than it had carried; nothing is copied or counted.
pub proof fn refused_tunnel_is_a_failure(
    c: ConnectionModel,
    e: ProtocolFault,
    rules: Seq<RuleModel>,
    upstream: SocketAddr,
    tracker: TrackerModel,
    stats: TrafficStats,
    now: Moment,
)
    requires
        tracker.active.contains_key(c.session),
    ensures
        c.reaction(EventModel::HandshakeFailed(e), rules, upstream) == ActionModel::Close(
            Some(RelayFault::UpstreamConnect("上游 SOCKS5 握手超时或失败: "@ + e.text())),
        ),
        c.after(EventModel::HandshakeFailed(e), rules, tracker.next_id).phase == Phase::Closed,
        stats_after(stats, EventModel::HandshakeFailed(e)) == stats,
        ({
            let open = tracker.active[c.session].record;
            let t = c.followed(EventModel::HandshakeFailed(e), rules, tracker, now);
            let record = t.history.last();
            &&& !t.active.contains_key(c.session)
            &&& t.history.len() > 0
            &&& record.status == SessionStatus::Failed
            &&& record.id == open.id
            &&& record.target == open.target
            &&& record.upload_bytes == open.upload_bytes
            &&& record.download_bytes == open.download_bytes
            &&& t.total_up == tracker.total_up
            &&& t.total_down == tracker.total_down
        }),
{
}

/// A connection that the rules send through the proxy and to which the proxy refuses the tunnel leaves one
/// record behind: a session that failed and carried no byte.
pub proof fn refused_tunnel_carries_nothing(
    c: ConnectionModel,
    target: TargetModel,
    e: ProtocolFault,
    rules: Seq<RuleModel>,
    upstream: SocketAddr,
    tracker: TrackerModel,
    start: Moment,
    connected: Moment,
    end: Moment,
)
    requires
        router::decide(rules, target).action == RouteAction::Proxy,
        !tracker.active.contains_key(tracker.next_id),
    ensures
        ({
            let id = tracker.next_id;
            let opened = c.after(EventModel::Header(target), rules, id);
            let t1 = c.followed(EventModel::Header(target), rules, tracker, start);
            let asking = opened.after(EventModel::Connected, rules, t1.next_id);
            let t2 = opened.followed(EventModel::Connected, rules, t1, connected);
            let t3 = asking.followed(EventModel::HandshakeFailed(e), rules, t2, end);
            &&& opened.reaction(EventModel::Connected, rules, upstream) == ActionModel::Handshake(target)
            &&& t3.active == tracker.active
            &&& t3.history == session::archived(
                tracker.history,
                tracker.max_history,
                RecordModel {
                    status: SessionStatus::Failed,
                    duration_ms: session::millis(start.nanos, end.nanos),
                    ..session::new_record(
                        id,
                        start,
                        target.text(),
                        router::decide(rules, target).rule_name,
                        RouteAction::Proxy,
                        false,
                    )
                },
            )
            &&& t3.total_up == tracker.total_up
            &&& t3.total_down == tracker.total_down
        }),
{
    let t1 = c.followed(EventModel::Header(target), rules, tracker, start);
    assert(t1.carried(tracker.next_id, 0, 0).active.remove(tracker.next_id) =~= tracker.active);
}

/// The session that is opened with the frame is finished when the connection is closed and not
/// before, whatever happens in between.
pub proof fn session_lasts_as_long_as_its_connection(
    c: ConnectionModel,
    event: EventModel,
    rules: Seq<RuleModel>,
    upstream: SocketAddr,
    tracker: TrackerModel,
    now: Moment,
)
    requires
        c.expects(event),
        c.phase != Phase::Header,
    ensures
        c.after(event, rules, tracker.next_id).session == c.session,
        c.after(event, rules, tracker.next_id).phase == Phase::Closed <==> c.reaction(event, rules, upstream) is Close,
        c.after(event, rules, tracker.next_id).phase == Phase::Closed ==> !c.followed(
            event,
            rules,
            tracker,
            now,
        ).active.contains_key(c.session),
        c.after(event, rules, tracker.next_id).phase != Phase::Closed ==> c.followed(event, rules, tracker, now)
            == tracker,
{
}

/// A connection whose frame is there has its session open, unless it is blocked.
pub proof fn accepted_connection_has_a_session(
    c: ConnectionModel,
    target: TargetModel,
    rules: Seq<RuleModel>,
    tracker: TrackerModel,
    now: Moment,
)
    ensures
        c.after(EventModel::Header(target), rules, tracker.next_id).phase != Phase::Closed <==> router::decide(
            rules,
            target,
        ).action != RouteAction::Block,
        router::decide(rules, target).action != RouteAction::Block ==> c.followed(
            EventModel::Header(target),
            rules,
            tracker,
            now,
        ).active.contains_key(c.after(EventModel::Header(target), rules, tracker.next_id).session),
{
}

/// A frame that comes in decides: a connection to a blocked target is closed without an error, one that goes
/// directly is made to the target, and one that does not to the upstream proxy; the target, the action and the
/// new session's id are kept.
pub proof fn frame_decides(
    c: ConnectionModel,
    target: TargetModel,
    rules: Seq<RuleModel>,
    upstream: SocketAddr,
    id: u64,
)
    ensures
        ({
            let action = router::decide(rules, target).action;
            let done = c.reaction(EventModel::Header(target), rules, upstream);
            let next = c.after(EventModel::Header(target), rules, id);
            &&& done == ActionModel::Close(None) <==> action == RouteAction::Block
            &&& done == ActionModel::ConnectTarget(target) <==> action == RouteAction::Direct
            &&& done == ActionModel::ConnectUpstream(upstream) <==> action == RouteAction::Proxy
            &&& next.target == target && next.action == action && next.session == id
            &&& next.phase == Phase::Closed <==> action == RouteAction::Block
            &&& next.phase == Phase::Connecting <==> action != RouteAction::Block
        }),
{
}

/// Without a frame the connection is closed with the reason, and there is no session.
pub proof fn connections_without_a_frame_are_closed(
    c: ConnectionModel,
    e: ProtocolFault,
    rules: Seq<RuleModel>,
    upstream: SocketAddr,
    tracker: TrackerModel,
    now: Moment,
)
    ensures
        c.reaction(EventModel::HeaderFailed(e), rules, upstream) == ActionModel::Close(Some(RelayFault::Protocol(e))),
        match c.reaction(EventModel::HeaderTimedOut, rules, upstream) {
            ActionModel::Close(Some(RelayFault::Io(kind, _))) => kind == IoErrorKind::TimedOut,
            _ => false,
        },
        c.followed(EventModel::HeaderFailed(e), rules, tracker, now) == tracker,
        c.followed(EventModel::HeaderTimedOut, rules, tracker, now) == tracker,
        c.after(EventModel::HeaderFailed(e), rules, tracker.next_id).phase == Phase::Closed,
        c.after(EventModel::HeaderTimedOut, rules, tracker.next_id).phase == Phase::Closed,
{
}

/// A connection that stands is used at once where it goes to the target, and to ask for a tunnel to the target
/// otherwise.
pub proof fn connection_that_stands(c: ConnectionModel, rules: Seq<RuleModel>, upstream: SocketAddr, id: u64)
    ensures
        c.action == RouteAction::Direct ==> c.reaction(EventModel::Connected, rules, upstream) == ActionModel::Copy
            && c.after(EventModel::Connected, rules, id).phase == Phase::Copying,
        c.action != RouteAction::Direct ==> c.reaction(EventModel::Connected, rules, upstream) == ActionModel::Handshake(
            c.target,
        ) && c.after(EventModel::Connected, rules, id).phase == Phase::Handshaking,
        c.reaction(EventModel::HandshakeDone, rules, upstream) == ActionModel::Copy,
        c.after(EventModel::HandshakeDone, rules, id).phase == Phase::Copying,
        c.after(EventModel::Connected, rules, id).target == c.target,
        c.after(EventModel::Connected, rules, id).action == c.action,
{
}

/// Where the connection cannot be made, the error says what was tried, the target or the upstream proxy, and
/// ends in the reason; the session has failed.
pub proof fn connections_that_fail(
    c: ConnectionModel,
    m: Seq<char>,
    rules: Seq<RuleModel>,
    upstream: SocketAddr,
    tracker: TrackerModel,
    now: Moment,
)
    ensures
        c.action == RouteAction::Direct ==> c.reaction(EventModel::ConnectFailed(m), rules, upstream)
            == ActionModel::Close(Some(RelayFault::DirectConnect(c.target.text() + seq![':', ' '] + m))),
        c.action != RouteAction::Direct ==> c.reaction(EventModel::ConnectFailed(m), rules, upstream)
            == ActionModel::Close(Some(RelayFault::UpstreamConnect(upstream.text() + seq![':', ' '] + m))),
        match c.reaction(EventModel::ConnectTimedOut, rules, upstream) {
            ActionModel::Close(Some(RelayFault::DirectConnect(t))) => c.action == RouteAction::Direct
                && text::starts_with(t, c.target.text()),
            ActionModel::Close(Some(RelayFault::UpstreamConnect(t))) => c.action != RouteAction::Direct
                && text::starts_with(t, upstream.text()),
            _ => false,
        },
        match c.reaction(EventModel::HandshakeTimedOut(m), rules, upstream) {
            ActionModel::Close(Some(RelayFault::UpstreamConnect(t))) => text::ends_with(t, m),
            _ => false,
        },
        forall|event: EventModel|
            event is ConnectFailed || event is ConnectTimedOut || event is HandshakeTimedOut || event is HandshakeFailed
                || event is CopyFailed ==> #[trigger] c.followed(event, rules, tracker, now) == tracker.finished(
                now.nanos,
                c.session,
                SessionStatus::Failed,
                0,
                0,
            ),
{
    reveal_strlit(": ");
    assert(": "@ =~= seq![':', ' ']);
    let a = c.target.text() + ": "@ + "直连目标超时"@;
    let b = upstream.text() + ": "@ + "连接上游代理超时"@;
    assert(a.subrange(0, c.target.text().len() as int) =~= c.target.text());
    assert(b.subrange(0, upstream.text().len() as int) =~= upstream.text());
    text::ends_of_a_text(m, m, "上游 SOCKS5 握手超时或失败: "@);
}

/// When all is copied the connection is closed without an error, its session is closed with the bytes of
/// either side, and they are added to the counts; where copying fails the reason is reported and nothing is
/// counted.
pub proof fn copying_comes_to_an_end(
    c: ConnectionModel,
    up: u64,
    down: u64,
    kind: IoErrorKind,
    m: Seq<char>,
    rules: Seq<RuleModel>,
    upstream: SocketAddr,
    tracker: TrackerModel,
    stats: TrafficStats,
    now: Moment,
)
    ensures
        ({
            let event = EventModel::Copied { from_client: up, from_server: down };
            let counted = stats_after(stats, event);
            &&& c.reaction(event, rules, upstream) == ActionModel::Close(None)
            &&& c.after(event, rules, tracker.next_id).phase == Phase::Closed
            &&& c.followed(event, rules, tracker, now) == tracker.finished(
                now.nanos,
                c.session,
                SessionStatus::Closed,
                up,
                down,
            )
            &&& stats.bytes_sent + up <= u64::MAX ==> counted.bytes_sent == stats.bytes_sent + up
            &&& stats.bytes_received + down <= u64::MAX ==> counted.bytes_received == stats.bytes_received + down
            &&& stats.bytes_sent + up > u64::MAX ==> counted.bytes_sent == stats.bytes_sent + up - 0x1_0000_0000_0000_0000
            &&& stats.bytes_received + down > u64::MAX ==> counted.bytes_received == stats.bytes_received + down
                - 0x1_0000_0000_0000_0000
        }),
        c.reaction(EventModel::CopyFailed(kind, m), rules, upstream) == ActionModel::Close(Some(RelayFault::Io(kind, m))),
        forall|event: EventModel| !(event is Copied) ==> #[trigger] stats_after(stats, event) == stats,
{
}

/// An event is expected in one phase only: the frame first, the connection next, the handshake where there is
/// one, and copying last; a connection that is closed expects none.
pub proof fn events_come_in_their_order(c: ConnectionModel, event: EventModel)
    ensures
        c.expects(event) <==> c.phase == (match event {
            EventModel::Header(_) => Phase::Header,
            EventModel::HeaderFailed(_) => Phase::Header,
            EventModel::HeaderTimedOut => Phase::Header,
            EventModel::Connected => Phase::Connecting,
            EventModel::ConnectFailed(_) => Phase::Connecting,
            EventModel::ConnectTimedOut => Phase::Connecting,
            EventModel::HandshakeDone => Phase::Handshaking,
            EventModel::HandshakeFailed(_) => Phase::Handshaking,
            EventModel::HandshakeTimedOut(_) => Phase::Handshaking,
            EventModel::Copied { .. } => Phase::Copying,
            EventModel::CopyFailed(_, _) => Phase::Copying,
        }),
        c.phase == Phase::Closed ==> !c.expects(event),
{
}

/// The limit for each step is the one that is set, or else five seconds.
pub proof fn steps_have_a_limit(config: RelayConfig)
    ensures
        match config.handshake_timeout {
            Some(t) => config.limit() == t,
            None => config.limit().secs == 5 && config.limit().nanos == 0,
        },
{
}

/// A message ends in what it reports.
pub proof fn messages_end_in_what_they_report(kind: IoErrorKind, m: Seq<char>, e: ProtocolFault)
    ensures
        text::ends_with(RelayFault::Io(kind, m).text(), m),
        text::ends_with(RelayFault::Protocol(e).text(), e.text()),
        text::ends_with(RelayFault::UpstreamConnect(m).text(), m),
        text::ends_with(RelayFault::DirectConnect(m).text(), m),
        RelayFault::UpstreamConnect(m).text() != RelayFault::DirectConnect(m).text(),
{
    text::ends_of_a_text(m, m, "I/O 错误: "@);
    text::ends_of_a_text(m, e.text(), "协议解析错误: "@);
    text::ends_of_a_text(m, m, "上游代理连接失败: "@);
    text::ends_of_a_text(m, m, "直连目标失败: "@);
    reveal_strlit("上游代理连接失败: ");
    reveal_strlit("直连目标失败: ");
    assert(RelayFault::UpstreamConnect(m).text().len() != RelayFault::DirectConnect(m).text().len());
}

/// The proxy is given the user name and the password of the settings, and nothing where there are none.
pub proof fn credentials_are_those_of_the_settings(config: RelayConfig, user: String, pass: String)
    ensures
        config.proxy_auth is None <==> config.credentials() is None,
        config.proxy_auth == Some((user, pass)) ==> config.credentials() == Some((user@, pass@)),
{
}

/// The message of any error ends in what was reported.
pub proof fn errors_end_in_what_they_report(e: CoreError)
    ensures
        text::ends_with(
            e.text(),
            match e {
                CoreError::Io(e) => e.message@,
                CoreError::Protocol(e) => e@.text(),
                CoreError::Relay(e) => e@.text(),
                CoreError::DnsBlocked(m) => m@,
            },
        ),
{
    match e {
        CoreError::Io(e) => {
            text::ends_of_a_text(e.message@, e.message@, "I/O 错误: "@);
        },
        CoreError::Protocol(e) => {
            text::ends_of_a_text(e@.text(), e@.text(), "协议错误: "@);
        },
        CoreError::Relay(e) => {
            text::ends_of_a_text(e@.text(), e@.text(), "中继错误: "@);
        },
        CoreError::DnsBlocked(m) => {
            text::ends_of_a_text(m@, m@, "DNS 解析被严格策略阻断: "@);
        },
    }
}

} // verus!
