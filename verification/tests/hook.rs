use shadow_proxy::config::{proxy_variables, relay_port, strict_dns};
use shadow_proxy::fakeip::{get_or_allocate_fake_ip, FakeIpPool};
use shadow_proxy::hook::{
    check_udp_security_block, plan_connect, plan_connectex, plan_getaddrinfo, plan_getaddrinfow, plan_sendto, port_of,
    relay_address, unsent_frame, ConnectExPlan, ConnectPlan, HookTarget, RelayConnect, ResolvePlan, AF_INET, AF_INET6,
    DEFAULT_RELAY_PORT,
};
use shadow_proxy::hooks::{
    build_hooks, hook_for_name, hook_for_ordinal, hook_import, is_connectex_query, keep_original, plan_getprocaddress,
    Hook, Lookup, SIO_GET_EXTENSION_FUNCTION_POINTER,
};
use shadow_proxy::net::{Ipv4Addr, Ipv6Addr, SocketAddr, SocketAddrV4, SocketAddrV6};
use shadow_proxy::pending::PendingFrames;
use shadow_proxy::protocol::TargetAddr;
use shadow_proxy::socks5::socks5_connect;

fn sockaddr_in(ip: [u8; 4], port: u16) -> Vec<u8> {
    let mut b = vec![2, 0];
    b.extend_from_slice(&port.to_be_bytes());
    b.extend_from_slice(&ip);
    b.extend_from_slice(&[0; 8]);
    b
}

fn sockaddr_in6(ip: &Ipv6Addr, port: u16) -> Vec<u8> {
    let mut b = vec![23, 0];
    b.extend_from_slice(&port.to_be_bytes());
    b.extend_from_slice(&[9; 4]);
    b.extend_from_slice(&ip.octets());
    b.extend_from_slice(&[7; 4]);
    b
}

#[test]
fn test_udp_security_block_quic_and_dns() {
    assert!(check_udp_security_block(443, true));
    assert!(check_udp_security_block(53, true));
    assert!(!check_udp_security_block(80, true));
    assert!(!check_udp_security_block(8080, true));

    assert!(check_udp_security_block(443, false));
    assert!(!check_udp_security_block(53, false));
}

#[test]
fn test_pending_connect_frames_lifecycle() {
    let mut frames = PendingFrames::new();
    let fake_socket: u64 = 12345;
    frames.remove_pending_frame(fake_socket);
    assert!(frames.take_pending_frame(fake_socket).is_none());

    let frame = vec![1, 2, 3, 4, 5];
    frames.store_pending_frame(fake_socket, frame.clone());
    let retrieved = frames.take_pending_frame(fake_socket);
    assert_eq!(retrieved, Some(frame));
    assert!(frames.take_pending_frame(fake_socket).is_none());

    frames.store_pending_frame(fake_socket, vec![9, 9, 9]);
    frames.remove_pending_frame(fake_socket);
    assert!(frames.take_pending_frame(fake_socket).is_none());
}

#[test]
fn test_build_hooks_contains_wsasendto() {
    let hooks = build_hooks();
    assert_eq!(hooks.len(), 17);
    let has_sendto = hooks.iter().any(|h| h.func_name == "sendto" && h.ordinal == 20);
    let has_wsasendto = hooks.iter().any(|h| h.func_name == "WSASendTo" && h.ordinal == 73);
    assert!(has_sendto, "hooks must contain sendto");
    assert!(has_wsasendto, "hooks must contain WSASendTo");
}

#[test]
fn test_relay_port_env() {
    assert_eq!(relay_port(Some("19090"), None, DEFAULT_RELAY_PORT), 19090);
}

#[test]
fn test_strict_dns_env() {
    assert!(!strict_dns(Some("false"), None, true));
}

#[test]
fn settings_from_the_environment() {
    assert_eq!(relay_port(None, None, DEFAULT_RELAY_PORT), 10808);
    assert_eq!(relay_port(None, Some("7"), 1), 7);
    assert_eq!(relay_port(Some("x"), Some("7"), 1), 1);
    assert_eq!(relay_port(Some("65536"), None, 1), 1);
    assert!(!strict_dns(None, Some("0"), true));
    assert!(!strict_dns(Some("FALSE"), None, true));
    assert!(strict_dns(Some("1"), Some("0"), true));
    assert!(!strict_dns(Some("1"), None, false));
    assert_eq!(proxy_variables()[3], "NO_PROXY");
}

#[test]
fn frames_wait_for_thirty_seconds() {
    let mut frames = PendingFrames::new();
    frames.store_at(1, vec![1], 0);
    frames.store_at(2, vec![2], 29_999_999_999);
    assert_eq!(frames.take_at(1, 29_999_999_999), Some(vec![1]));
    frames.store_at(1, vec![1], 0);
    assert_eq!(frames.take_at(1, 30_000_000_000), None);
    // Storing one drops those that are too old.
    frames.store_at(1, vec![1], 0);
    frames.store_at(3, vec![3], 40_000_000_000);
    assert_eq!(frames.take_at(1, 1), None);
    assert_eq!(frames.take_at(2, 40_000_000_000), Some(vec![2]));
    assert_eq!(frames.take_at(3, 40_000_000_000), Some(vec![3]));
}

#[test]
fn streams_go_to_the_relay() {
    let mut pool = FakeIpPool::new();
    let fake = get_or_allocate_fake_ip(&mut pool, "Example.com");
    let plan = |b: &[u8], family: u16| plan_connect(Some((family, b)), false, true, &pool);
    let public = sockaddr_in([8, 8, 4, 4], 443);
    assert!(matches!(plan(&public, AF_INET), ConnectPlan::Redirect(HookTarget::Ip(SocketAddr::V4(a)))
        if a == SocketAddrV4::new(Ipv4Addr::new(8, 8, 4, 4), 443)));
    assert!(matches!(plan(&sockaddr_in(fake.octets(), 80), AF_INET), ConnectPlan::Redirect(HookTarget::Domain(d, 80))
        if d == "example.com"));
    // A fake address that no name has is announced as it is.
    assert!(matches!(plan(&sockaddr_in([198, 19, 0, 9], 80), AF_INET), ConnectPlan::Redirect(HookTarget::Ip(_))));
    assert!(matches!(plan(&sockaddr_in([127, 1, 2, 3], 80), AF_INET), ConnectPlan::PassThrough));
    let six = Ipv6Addr::new(0x2001, 0xdb8, 0, 0, 0, 0, 0, 5);
    assert!(matches!(plan(&sockaddr_in6(&six, 8080), AF_INET6), ConnectPlan::Redirect(HookTarget::Ip(SocketAddr::V6(a)))
        if a == SocketAddrV6::new(six, 8080, 0, 0)));
    let loopback = Ipv6Addr::new(0, 0, 0, 0, 0, 0, 0, 1);
    assert!(matches!(plan(&sockaddr_in6(&loopback, 1), AF_INET6), ConnectPlan::PassThrough));
    assert!(matches!(plan(&sockaddr_in6(&six, 1)[..27], AF_INET6), ConnectPlan::PassThrough));
    assert!(matches!(plan(&public[..15], AF_INET), ConnectPlan::PassThrough));
    assert!(matches!(plan(&public, 1), ConnectPlan::PassThrough));
    assert!(matches!(plan_connect(None, false, true, &pool), ConnectPlan::PassThrough));
}

#[test]
fn datagrams_are_refused_or_left_alone() {
    let pool = FakeIpPool::new();
    let quic = sockaddr_in([8, 8, 8, 8], 443);
    let dns = sockaddr_in([8, 8, 8, 8], 53);
    let other = sockaddr_in([8, 8, 8, 8], 5000);
    assert!(matches!(plan_connect(Some((AF_INET, &quic)), true, false, &pool), ConnectPlan::Refuse));
    assert!(matches!(plan_connect(Some((AF_INET, &dns)), true, true, &pool), ConnectPlan::Refuse));
    assert!(matches!(plan_connect(Some((AF_INET, &dns)), true, false, &pool), ConnectPlan::PassThrough));
    assert!(matches!(plan_connect(Some((AF_INET, &other)), true, true, &pool), ConnectPlan::PassThrough));
    assert!(plan_sendto(Some((AF_INET, &quic)), None, false));
    assert!(plan_sendto(None, Some(53), true));
    assert!(!plan_sendto(None, Some(53), false));
    assert!(!plan_sendto(None, None, true));
    assert!(!plan_sendto(Some((AF_INET, &other)), Some(443), true));
    assert_eq!(port_of(AF_INET, &other), Some(5000));
    assert_eq!(port_of(AF_INET6, &other), None);
}

#[test]
fn what_is_left_of_a_frame() {
    let frame = vec![1u8, 2, 3, 4];
    let left = |o| unsent_frame(vec![1u8, 2, 3, 4], o);
    assert_eq!(left(RelayConnect::Connected { sent: 4 }), None);
    assert_eq!(left(RelayConnect::Connected { sent: 1 }), Some(vec![2, 3, 4]));
    assert_eq!(left(RelayConnect::Connected { sent: 0 }), Some(frame.clone()));
    assert_eq!(left(RelayConnect::Connected { sent: -1 }), Some(frame.clone()));
    assert_eq!(left(RelayConnect::Failed { error: 10035 }), Some(frame));
    assert_eq!(left(RelayConnect::Failed { error: 10061 }), None);
}

#[test]
fn connectex_carries_its_data_behind_the_frame() {
    let pool = FakeIpPool::new();
    let addr = sockaddr_in([8, 8, 8, 8], 443);
    let frame = TargetAddr::Ip(SocketAddr::V4(SocketAddrV4::new(Ipv4Addr::new(8, 8, 8, 8), 443))).encode();
    match plan_connectex(Some((AF_INET, &addr)), b"hello", &pool) {
        ConnectExPlan::Redirect { frame: f, reported } => {
            assert_eq!(f, [frame.as_slice(), b"hello"].concat());
            assert_eq!(reported, Some(5));
        }
        other => panic!("{:?}", other),
    }
    match plan_connectex(Some((AF_INET, &addr)), b"", &pool) {
        ConnectExPlan::Redirect { frame: f, reported } => {
            assert_eq!(f, frame);
            assert_eq!(reported, None);
        }
        other => panic!("{:?}", other),
    }
    let own = sockaddr_in([127, 0, 0, 1], 1);
    assert!(matches!(plan_connectex(Some((AF_INET, &own)), b"x", &pool), ConnectExPlan::PassThrough));
}

#[test]
fn names_in_strict_mode() {
    let mut pool = FakeIpPool::new();
    let fake = match plan_getaddrinfo(b"Secret.example", true, &mut pool) {
        ResolvePlan::Fake(ip) => ip,
        other => panic!("{:?}", other),
    };
    let units: Vec<u16> = "secret.EXAMPLE".encode_utf16().collect();
    assert_eq!(plan_getaddrinfow(&units, true, &mut pool), ResolvePlan::Fake(fake));
    for local in ["LocalHost", "1.2.3.4", "::1"] {
        let units: Vec<u16> = local.encode_utf16().collect();
        assert_eq!(plan_getaddrinfo(local.as_bytes(), true, &mut pool), ResolvePlan::PassThrough);
        assert_eq!(plan_getaddrinfow(&units, true, &mut pool), ResolvePlan::PassThrough);
    }
    assert_eq!(plan_getaddrinfo(&[0xff], true, &mut pool), ResolvePlan::Fail(11001));
    assert_eq!(plan_getaddrinfow(&[0xd800], true, &mut pool), ResolvePlan::Fail(11001));
    assert_eq!(plan_getaddrinfow(&[0x61; 1024], true, &mut pool), ResolvePlan::Fail(11001));
    // A stream to the fake address is announced as the name.
    let plan = plan_connect(Some((AF_INET, &sockaddr_in(fake.octets(), 443))), false, true, &pool);
    assert!(matches!(plan, ConnectPlan::Redirect(HookTarget::Domain(d, 443)) if d == "secret.example"));
}

#[test]
fn a_name_goes_all_the_way_to_the_proxy() {
    let mut pool = FakeIpPool::new();
    let fake = match plan_getaddrinfo(b"API.example", true, &mut pool) {
        ResolvePlan::Fake(ip) => ip,
        other => panic!("{:?}", other),
    };
    let frame = match plan_connect(Some((AF_INET, &sockaddr_in(fake.octets(), 443))), false, true, &pool) {
        ConnectPlan::Redirect(target) => target.encode(),
        other => panic!("{:?}", other),
    };
    let (target, _) = TargetAddr::decode(&frame).unwrap();
    assert_eq!(target, TargetAddr::Domain("api.example".into(), 443));
    let mut wanted = vec![5, 1, 0, 5, 1, 0, 3, 11];
    wanted.extend_from_slice(b"api.example");
    wanted.extend_from_slice(&[1, 187]);
    assert_eq!(socks5_connect(&[5, 0], &target, None).sent, wanted);
}

#[test]
fn datagrams_of_quic_are_refused_in_either_mode() {
    let pool = FakeIpPool::new();
    for strict in [false, true] {
        let mut six = sockaddr_in6(&Ipv6Addr::new(1, 2, 3, 4, 5, 6, 7, 8), 443);
        assert!(matches!(plan_connect(Some((AF_INET6, &six)), true, strict, &pool), ConnectPlan::Refuse));
        assert!(plan_sendto(Some((AF_INET6, &six)), None, strict));
        assert!(plan_sendto(None, Some(443), strict));
        six[3] = 0;
        assert!(!plan_sendto(Some((AF_INET6, &six)), None, strict));
    }
}

#[test]
fn names_in_loose_mode() {
    let mut pool = FakeIpPool::new();
    assert_eq!(plan_getaddrinfo(b"example.com", false, &mut pool), ResolvePlan::PassThrough);
    assert_eq!(plan_getaddrinfo(&[0xff], false, &mut pool), ResolvePlan::PassThrough);
    assert_eq!(plan_getaddrinfow(&[0xd800], false, &mut pool), ResolvePlan::PassThrough);
    assert_eq!(plan_getaddrinfow(&[0x61; 1024], false, &mut pool), ResolvePlan::PassThrough);
}

#[test]
fn lookups_at_run_time() {
    for h in build_hooks() {
        let by_name = hook_for_name(h.func_name);
        assert_eq!(by_name, if h.hook == Hook::GetProcAddress { None } else { Some(h.hook) });
        if h.ordinal != 0 {
            assert_eq!(hook_for_ordinal(h.ordinal), Some(h.hook));
        }
    }
    assert_eq!(hook_for_name("ConnectEx"), Some(Hook::ConnectEx));
    assert_eq!(hook_for_name("Connect"), None);
    assert_eq!(plan_getprocaddress(Lookup::Named("send")), Some(Hook::Send));
    assert_eq!(plan_getprocaddress(Lookup::Numbered { ordinal: 4, in_winsock: true }), Some(Hook::Connect));
    assert_eq!(plan_getprocaddress(Lookup::Numbered { ordinal: 4, in_winsock: false }), None);
    assert_eq!(plan_getprocaddress(Lookup::Numbered { ordinal: 5, in_winsock: true }), None);
    assert_eq!(plan_getprocaddress(Lookup::Other), None);
}

#[test]
fn asking_for_connectex() {
    let id = [
        0xb9, 0x07, 0xa2, 0x25, 0xf3, 0xdd, 0x60, 0x46, 0x8e, 0xe9, 0x76, 0xe5, 0x8c, 0x74, 0x06, 0x3e,
    ];
    let code = SIO_GET_EXTENSION_FUNCTION_POINTER;
    assert!(is_connectex_query(code, Some(&id), Some(8), 8));
    assert!(!is_connectex_query(code, Some(&id), Some(7), 8));
    assert!(!is_connectex_query(code, Some(&id[..15]), Some(8), 8));
    assert!(!is_connectex_query(code, None, Some(8), 8));
    assert!(!is_connectex_query(code, Some(&id), None, 8));
    assert!(!is_connectex_query(code + 1, Some(&id), Some(8), 8));
    let mut other = id;
    other[15] = 0;
    assert!(!is_connectex_query(code, Some(&other), Some(8), 8));
    assert_eq!(keep_original(5, 9, 0), 5);
    assert_eq!(keep_original(9, 9, 5), 5);
    assert_eq!(keep_original(0, 9, 5), 5);
}

#[test]
fn a_slot_is_hooked_once() {
    assert_eq!(hook_import(5, 9, 0), (true, 5));
    assert_eq!(hook_import(9, 9, 5), (false, 5));
    assert_eq!(hook_import(6, 9, 5), (true, 5));
    let b = relay_address(10808);
    assert_eq!(&b[..2], &10808u16.to_be_bytes());
    assert_eq!(&b[2..], &[127, 0, 0, 1, 0, 0, 0, 0, 0, 0, 0, 0]);
}
