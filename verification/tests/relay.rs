use shadow_proxy::net::{Ipv4Addr, SocketAddr, SocketAddrV4};
use shadow_proxy::protocol::{IoError, IoErrorKind, ProtocolError, TargetAddr};
use shadow_proxy::relay::{
    handle_inbound_connection, Action, Connection, CoreError, Event, RelayConfig, RelayError, Timeout, TrafficStats,
};
use shadow_proxy::router::{RouteAction, Router, RuleItem, RulePattern};
use shadow_proxy::session::{Moment, SessionStatus, SessionTracker, TimeOfDay};
use shadow_proxy::socks5::{socks5_connect, HandshakeState};

fn v4(a: u8, b: u8, c: u8, d: u8, port: u16) -> SocketAddr {
    SocketAddr::V4(SocketAddrV4::new(Ipv4Addr::new(a, b, c, d), port))
}

struct Relay {
    connection: Connection,
    config: RelayConfig,
    stats: TrafficStats,
    router: Router,
    tracker: SessionTracker,
}

impl Relay {
    fn new(router: Router) -> Relay {
        Relay {
            connection: Connection::new(),
            config: RelayConfig {
                listen_addr: v4(127, 0, 0, 1, 0),
                upstream_proxy: v4(127, 0, 0, 1, 9),
                proxy_auth: None,
                strict_dns: true,
                handshake_timeout: None,
            },
            stats: TrafficStats::default(),
            router,
            tracker: SessionTracker::default(),
        }
    }

    fn on(&mut self, event: Event) -> Action {
        assert!(self.connection.expects(&event));
        handle_inbound_connection(
            &mut self.connection,
            event,
            &self.config,
            &mut self.stats,
            &self.router,
            &mut self.tracker,
            Moment { unix_secs: 0, time: TimeOfDay::at(0), nanos: 0 },
        )
    }

    fn close(&mut self, event: Event) -> String {
        match self.on(event) {
            Action::Close(Some(e)) => e.message(),
            other => panic!("{:?}", other),
        }
    }
}

fn target() -> TargetAddr {
    TargetAddr::Domain("example.com".into(), 443)
}

#[test]
fn a_connection_through_the_proxy() {
    let mut relay = Relay::new(Router::preset_smart());
    assert!(matches!(relay.on(Event::Header(target())), Action::ConnectUpstream(a) if a == v4(127, 0, 0, 1, 9)));
    assert!(matches!(relay.on(Event::Connected), Action::Handshake(t) if t == target()));
    assert!(matches!(relay.on(Event::HandshakeDone), Action::Copy));
    assert_eq!(relay.tracker.list_sessions(5)[0].status, SessionStatus::Active);
    assert!(matches!(relay.on(Event::Copied { from_client: 5, from_server: 7 }), Action::Close(None)));
    assert_eq!(relay.stats, TrafficStats { bytes_sent: 5, bytes_received: 7 });
    let s = relay.tracker.list_sessions(5);
    assert_eq!(s.len(), 1);
    assert_eq!(s[0].status, SessionStatus::Closed);
    assert_eq!(s[0].action, RouteAction::Proxy);
    assert_eq!(s[0].target, "example.com:443");
    assert_eq!(s[0].rule_name, "默认代理");
    assert_eq!((s[0].upload_bytes, s[0].download_bytes), (5, 7));
    assert!(!relay.connection.expects(&Event::Connected));
}

#[test]
fn a_direct_connection() {
    let mut relay = Relay::new(Router::preset_direct_all());
    assert!(matches!(relay.on(Event::Header(target())), Action::ConnectTarget(t) if t == target()));
    assert!(matches!(relay.on(Event::Connected), Action::Copy));
    assert!(matches!(relay.on(Event::Copied { from_client: 6, from_server: 6 }), Action::Close(None)));
    assert_eq!(relay.tracker.list_sessions(5)[0].action, RouteAction::Direct);
}

#[test]
fn a_blocked_connection() {
    let mut router = Router::preset_direct_all();
    router.add_rule(RuleItem {
        id: "block-8888".into(),
        name: "阻断 8888 端口".into(),
        pattern: RulePattern::Port(8888),
        action: RouteAction::Block,
        enabled: true,
    });
    let mut relay = Relay::new(router);
    assert!(matches!(relay.on(Event::Header(TargetAddr::Ip(v4(127, 0, 0, 1, 8888)))), Action::Close(None)));
    let sessions = relay.tracker.list_sessions(5);
    assert_eq!(sessions.len(), 1);
    assert_eq!(sessions[0].status, SessionStatus::Blocked);
    assert_eq!(sessions[0].action, RouteAction::Block);
}

#[test]
fn connections_without_a_frame() {
    let mut relay = Relay::new(Router::default());
    assert_eq!(relay.close(Event::HeaderTimedOut), "I/O 错误: 读取目标透明代理帧头握手超时");
    let mut relay = Relay::new(Router::default());
    let bad = Event::HeaderFailed(ProtocolError::UnsupportedAddressType(9));
    assert_eq!(relay.close(bad), "协议解析错误: 不支持的地址类型: 9");
    assert!(relay.tracker.list_sessions(5).is_empty());
}

#[test]
fn connections_that_fail() {
    let start = |router: Router| {
        let mut relay = Relay::new(router);
        relay.on(Event::Header(target()));
        relay
    };
    let mut r = start(Router::preset_direct_all());
    assert_eq!(r.close(Event::ConnectFailed("refused".into())), "直连目标失败: example.com:443: refused");
    assert_eq!(r.tracker.list_sessions(5)[0].status, SessionStatus::Failed);
    let mut r = start(Router::preset_direct_all());
    assert_eq!(r.close(Event::ConnectTimedOut), "直连目标失败: example.com:443: 直连目标超时");
    let mut r = start(Router::default());
    assert_eq!(r.close(Event::ConnectFailed("refused".into())), "上游代理连接失败: 127.0.0.1:9: refused");
    let mut r = start(Router::default());
    assert_eq!(r.close(Event::ConnectTimedOut), "上游代理连接失败: 127.0.0.1:9: 连接上游代理超时");
    let mut r = start(Router::default());
    r.on(Event::Connected);
    assert_eq!(
        r.close(Event::HandshakeTimedOut("deadline has elapsed".into())),
        "上游代理连接失败: 上游 SOCKS5 握手超时或失败: deadline has elapsed"
    );
    let mut r = start(Router::preset_direct_all());
    r.on(Event::Connected);
    let broken = Event::CopyFailed(IoError { kind: IoErrorKind::Other, message: "reset".into() });
    assert_eq!(r.close(broken), "I/O 错误: reset");
    assert_eq!(r.tracker.list_sessions(5)[0].status, SessionStatus::Failed);
    assert_eq!(r.stats, TrafficStats::default());
}

#[test]
fn a_refused_tunnel() {
    let mut relay = Relay::new(Router::default());
    relay.on(Event::Header(target()));
    relay.on(Event::Connected);
    let refused = match socks5_connect(&[5, 0, 5, 5, 0, 1, 0, 0, 0, 0, 0, 0], &target(), None).state {
        HandshakeState::Failed(e) => e,
        other => panic!("{:?}", other),
    };
    let wanted = format!("上游代理连接失败: 上游 SOCKS5 握手超时或失败: {}", refused.message());
    assert!(refused.message().starts_with("SOCKS5 协议错误: "));
    assert_eq!(relay.close(Event::HandshakeFailed(refused)), wanted);
    let s = relay.tracker.list_sessions(5);
    assert_eq!(s.len(), 1);
    assert_eq!(s[0].status, SessionStatus::Failed);
    assert_eq!((s[0].upload_bytes, s[0].download_bytes), (0, 0));
    assert_eq!(relay.stats, TrafficStats::default());
    assert!(!relay.connection.expects(&Event::Copied { from_client: 1, from_server: 1 }));
    assert!(!relay.connection.expects(&Event::HandshakeDone));
}

#[test]
fn configuration_and_errors() {
    let mut config = Relay::new(Router::default()).config;
    assert_eq!(config.timeout(), Timeout { secs: 5, nanos: 0 });
    config.handshake_timeout = Some(Timeout { secs: 0, nanos: 100_000_000 });
    assert_eq!(config.timeout(), Timeout { secs: 0, nanos: 100_000_000 });
    assert_eq!(config.auth(), None);
    config.proxy_auth = Some(("u".into(), "p".into()));
    assert_eq!(config.auth(), Some(("u", "p")));
    let copy = config.clone();
    assert_eq!(copy.auth(), Some(("u", "p")));
    assert_eq!((copy.upstream_proxy, copy.timeout()), (config.upstream_proxy, config.timeout()));
    assert!(format!("{:?}", copy).starts_with("RelayConfig { listen_addr: 127.0.0.1:0, upstream_proxy: 127.0.0.1:9, "));
    let io = || IoError { kind: IoErrorKind::Other, message: "x".into() };
    assert_eq!(CoreError::Io(io()).message(), "I/O 错误: x");
    assert_eq!(CoreError::Protocol(ProtocolError::Io(io())).message(), "协议错误: I/O 错误: x");
    assert_eq!(CoreError::Relay(RelayError::DirectConnect("d".into())).message(), "中继错误: 直连目标失败: d");
    assert_eq!(CoreError::DnsBlocked("n".into()).message(), "DNS 解析被严格策略阻断: n");
    let mut stats = TrafficStats { bytes_sent: u64::MAX, bytes_received: 0 };
    stats.count(2, 3);
    assert_eq!(stats, TrafficStats { bytes_sent: 1, bytes_received: 3 });
}
