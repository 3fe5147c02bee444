use shadow_proxy::net::{is_ip_literal, Ipv4Addr, Ipv6Addr, SocketAddr, SocketAddrV4, SocketAddrV6};

#[test]
fn ipv4_text_and_back() {
    let ip = Ipv4Addr::new(192, 168, 0, 1);
    assert_eq!(ip.to_text(), "192.168.0.1");
    assert_eq!(Ipv4Addr::parse("192.168.0.1"), Some(ip));
    assert_eq!(ip.to_u32(), 0xC0A8_0001);
    assert_eq!(Ipv4Addr::from_u32(0xC0A8_0001), ip);
    for bad in ["", "1.2.3", "1.2.3.4.5", "256.0.0.1", "01.2.3.4", "1.2.3.04", "+1.2.3.4", "1..2.3", " 1.2.3.4", "a.b.c.d"] {
        assert_eq!(Ipv4Addr::parse(bad), None, "{}", bad);
    }
}

#[test]
fn ipv6_text() {
    let samples: [([u16; 8], &str); 12] = [
        ([0, 0, 0, 0, 0, 0, 0, 0], "::"),
        ([0, 0, 0, 0, 0, 0, 0, 1], "::1"),
        ([0x2001, 0xdb8, 0, 0, 0, 0, 0, 1], "2001:db8::1"),
        ([0x2001, 0xdb8, 0, 1, 0, 0, 0, 1], "2001:db8:0:1::1"),
        ([0x2001, 0, 0, 1, 0, 0, 2, 3], "2001::1:0:0:2:3"),
        ([1, 0, 2, 0, 3, 0, 4, 0], "1:0:2:0:3:0:4:0"),
        ([1, 2, 3, 4, 5, 6, 7, 8], "1:2:3:4:5:6:7:8"),
        ([0xfe80, 0, 0, 0, 0, 0, 0, 0], "fe80::"),
        ([0, 0, 0, 0, 0, 0xffff, 0xc0a8, 0x0102], "::ffff:192.168.1.2"),
        ([0, 0, 0, 0, 0, 0, 0xc0a8, 0x0102], "::c0a8:102"),
        ([0, 1, 0, 0, 1, 0, 0, 0], "0:1:0:0:1::"),
        ([0xabcd, 0xef01, 0, 0x0a0b, 0, 0, 0x0c, 0x0dde], "abcd:ef01:0:a0b::c:dde"),
    ];
    for (s, text) in samples {
        let ip = Ipv6Addr::new(s[0], s[1], s[2], s[3], s[4], s[5], s[6], s[7]);
        let octets: Vec<u8> = s.iter().flat_map(|w| w.to_be_bytes()).collect();
        assert_eq!(ip.to_text(), text);
        assert_eq!(&ip.octets()[..], &octets[..]);
        assert_eq!(Ipv6Addr::from_bytes(&octets), ip);
        assert_eq!(ip.is_loopback(), text == "::1");
        assert!(is_ip_literal(&ip.to_text()));
    }
}

#[test]
fn socket_addresses_as_text() {
    let v4 = SocketAddr::V4(SocketAddrV4::new(Ipv4Addr::new(127, 0, 0, 1), 10808));
    assert_eq!(v4.to_text(), "127.0.0.1:10808");
    assert_eq!(v4.host_text(), "127.0.0.1");
    let ip = Ipv6Addr::new(0xfe80, 0, 0, 0, 0, 0, 0, 1);
    assert_eq!(SocketAddr::V6(SocketAddrV6::new(ip, 80, 0, 0)).to_text(), "[fe80::1]:80");
    assert_eq!(SocketAddr::V6(SocketAddrV6::new(ip, 80, 0, 7)).to_text(), "[fe80::1%7]:80");
}

#[test]
fn address_literals() {
    let literals = [
        "1.2.3.4", "::", "::1", "1::", "1::2", "1:2:3:4:5:6:7:8", "1:2:3:4:5:6:7::", "::2:3:4:5:6:7:8",
        "1:2:3:4:5:6:1.2.3.4", "::1.2.3.4", "::ffff:1.2.3.4", "ABCD:ef::", "::1:2:3:4:5:6:7", "1:2:3:4::5:1.2.3.4",
    ];
    for s in literals {
        assert!(is_ip_literal(s), "{}", s);
    }
    let others = [
        "1.2.3", ":::", "1:2:3:4:5:6:7", "1::2:3:4:5:6:7:8", "1:2:3:4:5:6:7:1.2.3.4", "1.2.3.4::", "1:1.2.3.4::", "1::2::3",
        "12345::", "g::", "fe80::1%1", "localhost", "example.com", "", ":", "1:", ":1", "::1.2.3", "::1.2.3.4.5",
        "0:0:0:0:0:0:0:0:0", "1:2:3:4:5:6:7:8::", "1:2:3:4::5:6:1.2.3.4",
    ];
    for s in others {
        assert!(!is_ip_literal(s), "{}", s);
    }
}

#[test]
fn addresses_are_shown_as_their_text() {
    let four = Ipv4Addr::new(127, 0, 0, 1);
    let six = Ipv6Addr::new(0xfe80, 0, 0, 0, 0, 0, 0, 1);
    assert_eq!(format!("{:?}", four), "127.0.0.1");
    assert_eq!(format!("{:?}", six), "fe80::1");
    assert_eq!(format!("{:?}", SocketAddrV4::new(four, 80)), "127.0.0.1:80");
    assert_eq!(format!("{:?}", SocketAddr::V4(SocketAddrV4::new(four, 80))), "127.0.0.1:80");
    assert_eq!(format!("{:?}", SocketAddrV6::new(six, 80, 0, 7)), "[fe80::1%7]:80");
    assert_eq!(format!("{:?}", SocketAddr::V6(SocketAddrV6::new(six, 80, 0, 0))), "[fe80::1]:80");
}
