use tzlint::net::{check_ip, ipv4_is_blocked, ipv6_is_blocked_old, IpAddr, Ipv4, Ipv6};

fn v4(a: u8, b: u8, c: u8, d: u8) -> Ipv4 {
    Ipv4 { octets: [a, b, c, d] }
}

fn v6(s: [u16; 8]) -> Ipv6 {
    Ipv6 { segments: s }
}

#[test]
fn ipv4_loopback_and_private_are_denied() {
    assert_eq!(check_ip(IpAddr::V4(v4(127, 0, 0, 1))), Err("LoopbackDenied".to_string()));
    assert_eq!(check_ip(IpAddr::V4(v4(0, 0, 0, 0))), Err("LoopbackDenied".to_string()));
    assert_eq!(check_ip(IpAddr::V4(v4(10, 1, 2, 3))), Err("PrivateIpDenied".to_string()));
    assert_eq!(check_ip(IpAddr::V4(v4(172, 16, 0, 1))), Err("PrivateIpDenied".to_string()));
    assert_eq!(check_ip(IpAddr::V4(v4(192, 168, 1, 1))), Err("PrivateIpDenied".to_string()));
    assert_eq!(check_ip(IpAddr::V4(v4(169, 254, 1, 1))), Err("PrivateIpDenied".to_string()));
    assert_eq!(check_ip(IpAddr::V4(v4(8, 8, 8, 8))), Ok(()));
    assert_eq!(check_ip(IpAddr::V4(v4(172, 32, 0, 1))), Ok(()));
}

#[test]
fn ipv4_mapped_addresses_are_judged_as_ipv4() {
    // ::ffff:127.0.0.1 and ::ffff:192.168.1.1
    assert_eq!(check_ip(IpAddr::V6(v6([0, 0, 0, 0, 0, 0xffff, 0x7f00, 0x0001]))), Err("LoopbackDenied".to_string()));
    assert_eq!(check_ip(IpAddr::V6(v6([0, 0, 0, 0, 0, 0xffff, 0xc0a8, 0x0101]))), Err("PrivateIpDenied".to_string()));
    // ::127.0.0.1 and ::192.168.1.1 are IPv4-compatible, not mapped: judged as IPv6.
    assert_eq!(check_ip(IpAddr::V6(v6([0, 0, 0, 0, 0, 0, 0x7f00, 0x0001]))), Ok(()));
    assert_eq!(check_ip(IpAddr::V6(v6([0, 0, 0, 0, 0, 0, 0xc0a8, 0x0101]))), Ok(()));
}

#[test]
fn ipv6_loopback_local_and_link_local_are_denied() {
    assert_eq!(check_ip(IpAddr::V6(v6([0, 0, 0, 0, 0, 0, 0, 1]))), Err("LoopbackDenied".to_string()));
    assert_eq!(check_ip(IpAddr::V6(v6([0; 8]))), Err("LoopbackDenied".to_string()));
    assert_eq!(check_ip(IpAddr::V6(v6([0xfd12, 0, 0, 0, 0, 0, 0, 1]))), Err("PrivateIpDenied".to_string()));
    assert_eq!(check_ip(IpAddr::V6(v6([0xfe80, 0, 0, 0, 0, 0, 0, 1]))), Err("PrivateIpDenied".to_string()));
    assert_eq!(check_ip(IpAddr::V6(v6([0x2001, 0x0db8, 0, 0, 0, 0, 0, 1]))), Ok(()));
}

#[test]
fn blocked_ipv4_ranges() {
    assert!(ipv4_is_blocked(v4(255, 255, 255, 255)));
    assert!(ipv4_is_blocked(v4(192, 0, 2, 7)));
    assert!(ipv4_is_blocked(v4(224, 0, 0, 1)));
    assert!(ipv4_is_blocked(v4(0, 1, 2, 3)));
    assert!(ipv4_is_blocked(v4(100, 64, 0, 1)));
    assert!(ipv4_is_blocked(v4(240, 0, 0, 1)));
    assert!(!ipv4_is_blocked(v4(100, 128, 0, 1)));
    assert!(!ipv4_is_blocked(v4(93, 184, 216, 34)));
}

#[test]
fn ipv6_loopback_is_blocked_through_its_ipv4_form() {
    // `::1` is IPv4-compatible (0.0.0.1), which falls in 0.0.0.0/8.
    assert!(ipv6_is_blocked_old(v6([0, 0, 0, 0, 0, 0, 0, 1])));
    assert!(ipv6_is_blocked_old(v6([0xff02, 0, 0, 0, 0, 0, 0, 1])));
    assert!(ipv6_is_blocked_old(v6([0xfe80, 0, 0, 0, 0, 0, 0, 1])));
    assert!(!ipv6_is_blocked_old(v6([0x2001, 0x0db8, 0, 0, 0, 0, 0, 1])));
    assert_eq!(v6([0, 0, 0, 0, 0, 0xffff, 0x0808, 0x0808]).to_ipv4().map(|a| a.octets), Some([8, 8, 8, 8]));
}
