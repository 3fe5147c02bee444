use shadow_proxy::fakeip::{
    get_or_allocate_fake_ip, is_fake_ip, lookup_domain_by_ip, FakeIpPool, FakeIpTable, FAKE_IP_END, FAKE_IP_START,
};
use shadow_proxy::net::Ipv4Addr;

#[test]
fn test_is_fake_ip() {
    assert!(is_fake_ip(&Ipv4Addr::new(198, 18, 0, 1)));
    assert!(is_fake_ip(&Ipv4Addr::new(198, 19, 255, 254)));
    assert!(!is_fake_ip(&Ipv4Addr::new(198, 20, 0, 1)));
    assert!(!is_fake_ip(&Ipv4Addr::new(127, 0, 0, 1)));
    assert!(!is_fake_ip(&Ipv4Addr::new(1, 1, 1, 1)));
}

#[test]
fn test_allocate_and_lookup() {
    let mut pool = FakeIpPool::new();
    let domain = "test.proxy.example.com";
    let ip = get_or_allocate_fake_ip(&mut pool, domain);
    assert!(is_fake_ip(&ip));

    let ip_repeat = get_or_allocate_fake_ip(&mut pool, domain);
    assert_eq!(ip, ip_repeat);

    let resolved = lookup_domain_by_ip(&pool, &ip);
    assert_eq!(resolved.as_deref(), Some(domain));

    let non_fake = Ipv4Addr::new(8, 8, 8, 8);
    assert_eq!(lookup_domain_by_ip(&pool, &non_fake), None);
}

#[test]
fn test_fakeip_lru_eviction() {
    let mut tbl = FakeIpTable::new();
    let ip1 = Ipv4Addr::new(198, 18, 0, 1);
    let ip2 = Ipv4Addr::new(198, 18, 0, 2);
    let ip3 = Ipv4Addr::new(198, 18, 0, 3);

    let cap = 2;
    let mut counter = 1u8;
    let mut alloc = |domain: &str| {
        tbl.get_or_allocate_with_capacity(domain, cap, || {
            let ip = Ipv4Addr::new(198, 18, 0, counter);
            counter += 1;
            ip
        })
    };

    let allocated1 = alloc("a.com");
    assert_eq!(allocated1, ip1);
    let allocated2 = alloc("b.com");
    assert_eq!(allocated2, ip2);

    let allocated1_again = alloc("a.com");
    assert_eq!(allocated1_again, ip1);

    let allocated3 = alloc("c.com");
    assert_eq!(allocated3, ip3);

    assert_eq!(tbl.find("b.com"), None);
    assert_eq!(tbl.lookup(&ip2), None);
    assert_eq!(tbl.lookup(&ip1), Some("a.com"));
    assert_eq!(tbl.lookup(&ip3), Some("c.com"));
}

#[test]
fn test_fakeip_collision_cleanup() {
    let mut tbl = FakeIpTable::new();
    let fake_ip = Ipv4Addr::new(198, 18, 1, 1);

    let ip_a = tbl.get_or_allocate_with_capacity("domain-a.com", 10, || fake_ip);
    assert_eq!(ip_a, fake_ip);
    assert_eq!(tbl.lookup(&fake_ip), Some("domain-a.com"));

    let ip_b = tbl.get_or_allocate_with_capacity("domain-b.com", 10, || fake_ip);
    assert_eq!(ip_b, fake_ip);

    assert_eq!(tbl.find("domain-a.com"), None);
    assert_eq!(tbl.lookup(&fake_ip), Some("domain-b.com"));
}

#[test]
fn names_get_addresses_in_turn_whatever_their_case() {
    let mut pool = FakeIpPool::new();
    assert!(pool.is_usable());
    let a = get_or_allocate_fake_ip(&mut pool, "A.Example");
    let b = get_or_allocate_fake_ip(&mut pool, "b.example");
    assert_eq!(a.to_u32(), FAKE_IP_START);
    assert_eq!(b.to_u32(), FAKE_IP_START + 1);
    assert_eq!(get_or_allocate_fake_ip(&mut pool, "a.EXAMPLE"), a);
    assert_eq!(lookup_domain_by_ip(&pool, &a).as_deref(), Some("a.example"));
    assert_eq!(lookup_domain_by_ip(&pool, &Ipv4Addr::from_u32(FAKE_IP_END)), None);
}

#[test]
fn a_table_without_room_holds_one_name() {
    let mut tbl = FakeIpTable::default();
    let ip = Ipv4Addr::new(198, 18, 0, 9);
    let other = Ipv4Addr::new(198, 18, 0, 10);
    tbl.get_or_allocate_with_capacity("a", 0, || ip);
    assert_eq!(tbl.lookup(&ip), Some("a"));
    tbl.get_or_allocate_with_capacity("b", 0, || other);
    assert_eq!(tbl.lookup(&ip), None);
    assert_eq!(tbl.lookup(&other), Some("b"));
}

#[test]
fn the_pool_forgets_the_names_not_used_for_longest() {
    let mut pool = FakeIpPool::new();
    let first = get_or_allocate_fake_ip(&mut pool, "first");
    let second = get_or_allocate_fake_ip(&mut pool, "second");
    for i in 0..65_534 {
        get_or_allocate_fake_ip(&mut pool, &format!("n{}", i));
    }
    // The table is full: using `first` again saves it.
    assert_eq!(get_or_allocate_fake_ip(&mut pool, "first"), first);
    get_or_allocate_fake_ip(&mut pool, "one more");
    assert_eq!(lookup_domain_by_ip(&pool, &first).as_deref(), Some("first"));
    assert_eq!(lookup_domain_by_ip(&pool, &second), None);
}

#[test]
fn behind_the_last_address_comes_the_first() {
    let mut pool = FakeIpPool::new();
    for i in FAKE_IP_START..=FAKE_IP_END {
        assert_eq!(get_or_allocate_fake_ip(&mut pool, &format!("host{}", i)).to_u32(), i);
    }
    assert_eq!(get_or_allocate_fake_ip(&mut pool, "one.more"), Ipv4Addr::new(198, 18, 0, 1));
}
