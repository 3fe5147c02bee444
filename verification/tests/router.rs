use shadow_proxy::net::{Ipv4Addr, Ipv6Addr, SocketAddr, SocketAddrV4, SocketAddrV6};
use shadow_proxy::protocol::TargetAddr;
use shadow_proxy::router::{RouteAction, Router, RuleItem, RulePattern};

fn v4(a: u8, b: u8, c: u8, d: u8, port: u16) -> TargetAddr {
    TargetAddr::Ip(SocketAddr::V4(SocketAddrV4::new(Ipv4Addr::new(a, b, c, d), port)))
}

fn rule(id: &str, pattern: RulePattern, action: RouteAction) -> RuleItem {
    RuleItem { id: id.into(), name: format!("rule {}", id), pattern, action, enabled: true }
}

#[test]
fn test_domain_matching() {
    let router = Router::preset_smart();

    let target_cn = TargetAddr::Domain("news.sina.com.cn".into(), 443);
    let dec = router.eval(&target_cn);
    assert_eq!(dec.action, RouteAction::Direct);

    let target_google = TargetAddr::Domain("www.google.com".into(), 443);
    let dec = router.eval(&target_google);
    assert_eq!(dec.action, RouteAction::Proxy);
}

#[test]
fn test_cidr_matching() {
    let router = Router::preset_smart();

    let dec = router.eval(&v4(127, 0, 0, 1, 8080));
    assert_eq!(dec.action, RouteAction::Direct);

    let dec = router.eval(&v4(192, 168, 1, 50, 22));
    assert_eq!(dec.action, RouteAction::Direct);

    let dec = router.eval(&v4(8, 8, 8, 8, 53));
    assert_eq!(dec.action, RouteAction::Proxy);
}

#[test]
fn test_port_and_block_rules() {
    let mut router = Router::preset_smart();

    router.add_rule(RuleItem {
        id: "block-smtp".into(),
        name: "阻断 SMTP".into(),
        pattern: RulePattern::Port(25),
        action: RouteAction::Block,
        enabled: true,
    });

    let target_smtp = TargetAddr::Domain("mail.example.com".into(), 25);
    let dec = router.eval(&target_smtp);
    assert_eq!(dec.action, RouteAction::Block);

    router.set_rule_enabled("block-smtp", false);
    let dec2 = router.eval(&target_smtp);
    assert_eq!(dec2.action, RouteAction::Proxy);
}

#[test]
fn patterns_and_what_they_match() {
    let host = |h: &str| TargetAddr::Domain(h.into(), 443);
    let cases = [
        (RulePattern::DomainSuffix(".Baidu.com".into()), host("WWW.baidu.COM"), true, "*..Baidu.com"),
        (RulePattern::DomainSuffix("baidu.com".into()), host("baidu.com"), true, "*.baidu.com"),
        (RulePattern::DomainSuffix("baidu.com".into()), host("notbaidu.com"), false, "*.baidu.com"),
        (RulePattern::DomainKeyword("Goog".into()), host("mail.google.com"), true, "Keyword(Goog)"),
        (RulePattern::DomainKeyword("bing".into()), host("mail.google.com"), false, "Keyword(bing)"),
        (RulePattern::DomainExact("Example.com".into()), host("example.COM"), true, "Exact(Example.com)"),
        (RulePattern::DomainExact("example.com".into()), host("a.example.com"), false, "Exact(example.com)"),
        (RulePattern::IpCidr { ip: "10.1.0.0".into(), prefix_len: 16 }, v4(10, 1, 255, 9, 1), true, "10.1.0.0/16"),
        (RulePattern::IpCidr { ip: "10.1.0.0".into(), prefix_len: 17 }, v4(10, 1, 255, 9, 1), false, "10.1.0.0/17"),
        (RulePattern::IpCidr { ip: "1.1.1.1".into(), prefix_len: 0 }, v4(9, 9, 9, 9, 1), true, "1.1.1.1/0"),
        (RulePattern::IpCidr { ip: "1.1.1.1".into(), prefix_len: 32 }, v4(1, 1, 1, 1, 1), true, "1.1.1.1/32"),
        (RulePattern::IpCidr { ip: "1.1.1.1".into(), prefix_len: 33 }, v4(1, 1, 1, 1, 1), false, "1.1.1.1/33"),
        (RulePattern::IpCidr { ip: "bad".into(), prefix_len: 0 }, v4(1, 1, 1, 1, 1), false, "bad/0"),
        (RulePattern::IpCidr { ip: "10.0.0.0".into(), prefix_len: 8 }, host("10.2.3.4"), true, "10.0.0.0/8"),
        (RulePattern::Port(443), host("x"), true, "Port(443)"),
        (RulePattern::PortRange { start: 400, end: 443 }, host("x"), true, "Port(400-443)"),
        (RulePattern::PortRange { start: 444, end: 500 }, host("x"), false, "Port(444-500)"),
        (RulePattern::Final, host("x"), true, "FINAL"),
    ];
    for (pattern, target, hit, shown) in cases {
        let router = Router::new(vec![rule("only", pattern, RouteAction::Block)]);
        let d = router.eval(&target);
        if hit {
            assert_eq!(d.action, RouteAction::Block);
            assert_eq!(d.rule_name, "rule only");
            assert_eq!(d.pattern_desc, shown);
        } else {
            assert_eq!(d.action, RouteAction::Proxy);
            assert_eq!(d.rule_name, "默认保底代理");
            assert_eq!(d.pattern_desc, "DEFAULT_FALLBACK");
        }
    }
}

#[test]
fn addresses_of_both_kinds() {
    let router = Router::preset_smart();
    let six = |ip: Ipv6Addr| TargetAddr::Ip(SocketAddr::V6(SocketAddrV6::new(ip, 1, 0, 0)));
    assert_eq!(router.eval(&six(Ipv6Addr::new(0, 0, 0, 0, 0, 0, 0, 1))).action, RouteAction::Proxy);
    assert_eq!(router.eval(&v4(172, 16, 0, 1, 1)).action, RouteAction::Direct);
    assert_eq!(router.eval(&v4(172, 31, 255, 255, 1)).action, RouteAction::Direct);
    assert_eq!(router.eval(&v4(172, 32, 0, 1, 1)).action, RouteAction::Proxy);
    assert_eq!(Router::preset_global_proxy().eval(&v4(10, 0, 0, 1, 1)).action, RouteAction::Proxy);
    assert_eq!(Router::preset_global_proxy().eval(&v4(127, 9, 9, 9, 1)).action, RouteAction::Direct);
    assert_eq!(Router::preset_direct_all().eval(&v4(8, 8, 8, 8, 1)).action, RouteAction::Direct);
}

#[test]
fn rules_are_added_before_the_last_and_removed_by_id() {
    let mut router = Router::default();
    assert_eq!(router.rules.len(), 6);
    router.add_rule(rule("mine", RulePattern::Port(1), RouteAction::Direct));
    assert_eq!(router.rules[5].id, "mine");
    assert_eq!(router.rules[6].id, "smart-final");
    assert!(router.remove_rule("mine"));
    assert!(!router.remove_rule("mine"));
    assert_eq!(router.rules.len(), 6);
    assert!(!router.set_rule_enabled("mine", true));
    let mut empty = Router::new(Vec::new());
    empty.add_rule(rule("a", RulePattern::Port(1), RouteAction::Direct));
    empty.add_rule(rule("b", RulePattern::Port(2), RouteAction::Direct));
    assert_eq!(empty.rules[1].id, "b");
    assert_eq!(empty.clone().rules, empty.rules);
    assert_eq!(RouteAction::Block.to_text(), "BLOCK");
    assert_eq!(RouteAction::Direct.to_text(), "DIRECT");
    assert_eq!(RouteAction::Proxy.to_text(), "PROXY");
}
