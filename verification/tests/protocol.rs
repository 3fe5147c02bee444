use shadow_proxy::hook::HookTarget;
use shadow_proxy::net::{Ipv4Addr, Ipv6Addr, SocketAddr, SocketAddrV4, SocketAddrV6};
use shadow_proxy::protocol::{frame_step, FrameStep, IoErrorKind, ProtocolError, TargetAddr};
use shadow_proxy::socks5::{socks5_connect, HandshakeState};

fn v4(a: u8, b: u8, c: u8, d: u8, port: u16) -> SocketAddr {
    SocketAddr::V4(SocketAddrV4::new(Ipv4Addr::new(a, b, c, d), port))
}

#[test]
fn test_target_addr_ipv4_codec() {
    let addr = TargetAddr::Ip(v4(192, 168, 1, 100, 8080));
    let encoded = addr.encode();
    let (decoded, used) = TargetAddr::decode(&encoded).unwrap();
    assert_eq!(addr, decoded);
    assert_eq!(used, encoded.len());
}

#[test]
fn test_target_addr_domain_codec() {
    let addr = TargetAddr::Domain("example.com".into(), 443);
    let encoded = addr.encode();
    let (decoded, used) = TargetAddr::decode(&encoded).unwrap();
    assert_eq!(addr, decoded);
    assert_eq!(used, encoded.len());
}

#[test]
fn test_target_addr_ipv6_codec() {
    let addr = TargetAddr::Ip(SocketAddr::V6(SocketAddrV6::new(
        Ipv6Addr::new(0x2001, 0xdb8, 0, 0, 0, 0, 0, 1),
        9000,
        0,
        0,
    )));
    let encoded = addr.encode();
    let (decoded, used) = TargetAddr::decode(&encoded).unwrap();
    assert_eq!(addr, decoded);
    assert_eq!(used, encoded.len());
}

#[test]
fn test_target_addr_invalid_magic_adversarial() {
    let invalid_buf = b"FAKE\x01\x7f\x00\x00\x01\x00\x50".to_vec();
    let err = TargetAddr::decode(&invalid_buf).unwrap_err();
    match err {
        ProtocolError::InvalidMagic(m) => assert_eq!(&m, b"FAKE"),
        _ => panic!("expected InvalidMagic, got: {:?}", err),
    }
}

#[test]
fn test_encode_ipv4() {
    let target = HookTarget::Ip(v4(1, 2, 3, 4, 8080));
    let encoded = target.encode();
    assert_eq!(&encoded[0..4], b"GHST");
    assert_eq!(encoded[4], 0x01);
    assert_eq!(&encoded[5..9], &[1, 2, 3, 4]);
    assert_eq!(&encoded[9..11], &8080u16.to_be_bytes());
}

#[test]
fn test_encode_domain() {
    let target = HookTarget::Domain("api.github.com".to_string(), 443);
    let encoded = target.encode();
    assert_eq!(&encoded[0..4], b"GHST");
    assert_eq!(encoded[4], 0x03);
    assert_eq!(encoded[5], "api.github.com".len() as u8);
    assert_eq!(&encoded[6..6 + 14], b"api.github.com");
    assert_eq!(&encoded[20..22], &443u16.to_be_bytes());
}

#[test]
fn test_encode_ipv6() {
    let ip = Ipv6Addr::new(0x2001, 0xdb8, 0, 0, 0, 0, 0, 1);
    let target = HookTarget::Ip(SocketAddr::V6(SocketAddrV6::new(ip, 80, 0, 0)));
    let encoded = target.encode();
    assert_eq!(&encoded[0..4], b"GHST");
    assert_eq!(encoded[4], 0x04);
    assert_eq!(&encoded[5..21], &ip.octets());
    assert_eq!(&encoded[21..23], &80u16.to_be_bytes());
}

/// Plays the server's bytes to the client as the client asks for them; gives all that the client sent.
fn play(server: &[u8], target: &TargetAddr, auth: Option<(&str, &str)>) -> (Vec<u8>, HandshakeState) {
    let mut got: usize = 0;
    loop {
        let h = socks5_connect(&server[..got], target, auth);
        match h.state {
            HandshakeState::Read(n) if got + n <= server.len() => got += n,
            state => return (h.sent, state),
        }
    }
}

#[test]
fn test_mock_socks5_connect_success() {
    let target = TargetAddr::Ip(v4(127, 0, 0, 1, 80));
    let server = [0x05, 0x00, 0x05, 0x00, 0x00, 0x01, 127, 0, 0, 1, 0x04, 0x00];
    let (sent, state) = play(&server, &target, None);
    assert_eq!(sent[0], 0x05);
    assert_eq!(&sent[..3], &[0x05, 0x01, 0x00]);
    let req = &sent[3..];
    assert_eq!(req.len(), 10);
    assert_eq!(req[0], 0x05);
    assert_eq!(req[1], 0x01);
    assert!(matches!(state, HandshakeState::Connected(12)));
}

#[test]
fn test_mock_socks5_connect_server_refusal() {
    let target = TargetAddr::Ip(v4(1, 1, 1, 1, 53));
    let server = [0x05, 0x00, 0x05, 0x05, 0x00, 0x01, 0, 0, 0, 0, 0, 0];
    let (_, state) = play(&server, &target, None);
    match state {
        HandshakeState::Failed(err) => {
            assert!(err.message().contains("目标连接被拒绝"), "错误信息: {}", err.message())
        }
        other => panic!("expected a refusal, got {:?}", other),
    }
}

#[test]
fn frame_is_read_in_the_pieces_that_are_asked_for() {
    let mut stream = TargetAddr::Domain("a.example".into(), 25).encode();
    let frame = stream.len();
    stream.extend_from_slice(b"EHLO");
    let mut got = 0;
    let mut asked = Vec::new();
    let target = loop {
        match frame_step(&stream[..got]) {
            FrameStep::Read(n) => {
                asked.push(n);
                got += n;
            }
            FrameStep::Ready(t, n) => {
                assert_eq!(n, got);
                break t;
            }
            FrameStep::Failed(e) => panic!("{:?}", e),
        }
    };
    assert_eq!(asked, vec![4, 1, 1, 9, 2]);
    assert_eq!(got, frame);
    assert_eq!(target, TargetAddr::Domain("a.example".into(), 25));
    // What stands behind the frame does not matter.
    assert_eq!(TargetAddr::decode(&stream).unwrap(), (target, frame));
}

#[test]
fn frames_that_are_refused() {
    let short = TargetAddr::decode(b"GHST\x01\x7f").unwrap_err();
    assert!(matches!(&short, ProtocolError::Io(e) if e.kind == IoErrorKind::UnexpectedEof));
    let kind = TargetAddr::decode(b"GHST\x02").unwrap_err();
    assert!(matches!(kind, ProtocolError::UnsupportedAddressType(2)));
    assert_eq!(kind.message(), "不支持的地址类型: 2");
    let empty = TargetAddr::decode(b"GHST\x03\x00\x00\x50").unwrap_err();
    assert_eq!(empty.message(), "I/O 错误: 目标域名长度不能为 0");
    let space = TargetAddr::decode(b"GHST\x03\x03a b\x00\x50").unwrap_err();
    assert_eq!(space.message(), "I/O 错误: 目标域名包含非法控制字符或空格");
    let control = TargetAddr::decode(b"GHST\x03\x02a\n\x00\x50").unwrap_err();
    assert!(matches!(&control, ProtocolError::Io(e) if e.kind == IoErrorKind::InvalidData));
    // The port is read before the name is looked at.
    assert!(matches!(frame_step(b"GHST\x03\x02\xff\xfe"), FrameStep::Read(2)));
    let utf8 = TargetAddr::decode(b"GHST\x03\x02a\xff\x00\x50").unwrap_err();
    assert_eq!(
        utf8.message(),
        "无效的 UTF-8 域名: invalid utf-8 sequence of 1 bytes from index 1"
    );
    let magic = TargetAddr::decode(b"FAKE").unwrap_err();
    assert_eq!(magic.message(), "无效的魔数包头: [70, 65, 75, 69]");
    assert_eq!(ProtocolError::DomainTooLong(300).message(), "域名长度超过限制: 300");
}

#[test]
fn long_names_are_cut_off() {
    let host: String = "x".repeat(300);
    let encoded = TargetAddr::Domain(host, 1).encode();
    assert_eq!(encoded.len(), 4 + 1 + 1 + 255 + 2);
    assert_eq!(encoded[5], 255);
    let (decoded, _) = TargetAddr::decode(&encoded).unwrap();
    assert_eq!(decoded, TargetAddr::Domain("x".repeat(255), 1));
}

#[test]
fn names_may_hold_other_letters() {
    let addr = TargetAddr::Domain("例子.测试".into(), 8443);
    let encoded = addr.encode();
    assert_eq!(encoded[5] as usize, "例子.测试".len());
    assert_eq!(TargetAddr::decode(&encoded).unwrap().0, addr);
}

#[test]
fn targets_as_text() {
    assert_eq!(TargetAddr::Ip(v4(10, 0, 0, 7, 81)).to_text(), "10.0.0.7:81");
    assert_eq!(TargetAddr::Domain("example.org".into(), 443).to_text(), "example.org:443");
    assert_eq!(TargetAddr::Domain("example.org".into(), 443).port(), 443);
}

#[test]
fn socks5_with_credentials() {
    let target = TargetAddr::Domain("example.com".into(), 443);
    let server = [
        0x05, 0x02, 0x01, 0x00, 0x05, 0x00, 0x00, 0x03, 0x02, b'a', b'b', 0x00, 0x50,
    ];
    let (sent, state) = play(&server, &target, Some(("user", "pw")));
    assert!(matches!(state, HandshakeState::Connected(13)));
    let mut expected = vec![0x05, 0x02, 0x00, 0x02];
    expected.extend_from_slice(b"\x01\x04user\x02pw");
    expected.extend_from_slice(b"\x05\x01\x00\x03\x0bexample.com\x01\xbb");
    assert_eq!(sent, expected);
    // A server that does not ask for them does not see them.
    let (sent, _) = play(&[0x05, 0x00], &target, Some(("user", "pw")));
    assert!(!sent.windows(2).any(|w| w == b"pw"));
}

fn refusal(server: &[u8], auth: Option<(&str, &str)>) -> String {
    let target = TargetAddr::Ip(v4(1, 1, 1, 1, 53));
    match play(server, &target, auth).1 {
        HandshakeState::Failed(e) => e.message(),
        other => panic!("expected a failure, got {:?}", other),
    }
}

#[test]
fn socks5_refusals() {
    assert_eq!(refusal(&[4, 0], None), "SOCKS5 协议错误: 非 SOCKS5 协议版本: 0x04");
    assert_eq!(refusal(&[5, 2], None), "SOCKS5 协议错误: 服务端要求认证但未提供凭据");
    assert_eq!(refusal(&[5, 0xff], None), "SOCKS5 协议错误: 服务端拒绝了所有可用的认证方式");
    assert_eq!(refusal(&[5, 0x1a], None), "SOCKS5 协议错误: 不支持的认证类型: 0x1a");
    assert_eq!(refusal(&[5, 2, 1, 1], Some(("u", "p"))), "SOCKS5 协议错误: SOCKS5 用户名/密码验证失败");
    assert_eq!(refusal(&[5, 0, 4, 0, 0, 1], None), "SOCKS5 协议错误: CONNECT 响应版本无效");
    assert_eq!(refusal(&[5, 0, 5, 1, 0, 1], None), "SOCKS5 协议错误: SOCKS5 服务端常规失败 (0x01)");
    assert_eq!(refusal(&[5, 0, 5, 2, 0, 1], None), "SOCKS5 协议错误: 连接被规则集阻断 (0x02)");
    assert_eq!(refusal(&[5, 0, 5, 3, 0, 1], None), "SOCKS5 协议错误: 网络不可达 (0x03)");
    assert_eq!(refusal(&[5, 0, 5, 4, 0, 1], None), "SOCKS5 协议错误: 主机不可达 (0x04)");
    assert_eq!(refusal(&[5, 0, 5, 6, 0, 1], None), "SOCKS5 协议错误: TTL 超时 (0x06)");
    assert_eq!(refusal(&[5, 0, 5, 7, 0, 1], None), "SOCKS5 协议错误: 不支持的命令 (0x07)");
    assert_eq!(refusal(&[5, 0, 5, 8, 0, 1], None), "SOCKS5 协议错误: 不支持的地址类型 (0x08)");
    assert_eq!(refusal(&[5, 0, 5, 0xab, 0, 1], None), "SOCKS5 协议错误: SOCKS5 未知错误代码: 0xab");
    assert_eq!(refusal(&[5, 0, 5, 0, 0, 9], None), "不支持的地址类型: 9");
}

#[test]
fn socks5_with_an_ipv6_reply() {
    let target = TargetAddr::Ip(v4(1, 1, 1, 1, 53));
    let mut server = vec![5, 0, 5, 0, 0, 4];
    server.extend_from_slice(&[0; 18]);
    assert!(matches!(play(&server, &target, None).1, HandshakeState::Connected(24)));
    server.pop();
    assert!(matches!(play(&server, &target, None).1, HandshakeState::Read(18)));
}

#[test]
fn frames_that_end_early() {
    let said = |b: &[u8]| match TargetAddr::decode(b).unwrap_err() {
        ProtocolError::Io(e) => {
            assert_eq!(e.kind, IoErrorKind::UnexpectedEof);
            e.message
        }
        other => panic!("{:?}", other),
    };
    for b in [&b"GHS"[..], b"GHST\x01\x7f\x00", b"GHST\x04\x00", b"GHST\x03\x02a"] {
        assert_eq!(said(b), "early eof");
    }
    for b in [&b"GHST"[..], b"GHST\x01\x7f\x00\x00\x01\x00", b"GHST\x03", b"GHST\x03\x01a\x00"] {
        assert_eq!(said(b), "unexpected end of file");
    }
}

#[test]
fn targets_are_shown_as_host_and_port() {
    assert_eq!(format!("{:?}", TargetAddr::Domain("example.org".into(), 443)), "example.org:443");
    assert_eq!(format!("{:?}", TargetAddr::Ip(v4(10, 0, 0, 7, 81))), "10.0.0.7:81");
    assert_eq!(format!("<{:?}>", Some(TargetAddr::Domain("a".into(), 1))), "<Some(a:1)>");
    let hooked = HookTarget::Ip(v4(10, 0, 0, 7, 81));
    assert_eq!(format!("{:?}", hooked), "Ip(10.0.0.7:81)");
    assert_eq!(hooked.clone(), hooked);
    assert_eq!(format!("{:?}", HookTarget::Domain("a".into(), 1).clone()), "Domain(\"a\", 1)");
}
