use chilsonite::ssrf::is_private_ip;

#[test]
fn test_is_private_ip_v4_private() {
    assert!(is_private_ip("10.0.0.1"));
    assert!(is_private_ip("172.16.0.1"));
    assert!(is_private_ip("172.31.255.254"));
    assert!(is_private_ip("192.168.1.100"));
}

#[test]
fn test_is_private_ip_v4_loopback() {
    assert!(is_private_ip("127.0.0.1"));
}

#[test]
fn test_is_private_ip_v4_link_local() {
    assert!(is_private_ip("169.254.1.1"));
}

#[test]
fn test_is_private_ip_v4_unspecified() {
    assert!(is_private_ip("0.0.0.0"));
}

#[test]
fn test_is_private_ip_v4_public() {
    assert!(!is_private_ip("8.8.8.8"));
    assert!(!is_private_ip("1.1.1.1"));
}

#[test]
fn test_is_private_ip_v6_ula() {
    // Unique Local Addresses (fc00::/7)
    assert!(is_private_ip("fd00::1"));
    assert!(is_private_ip("fc12:3456:789a:1::1"));
}

#[test]
fn test_is_private_ip_v6_loopback() {
    assert!(is_private_ip("::1"));
}

#[test]
fn test_is_private_ip_v6_unspecified() {
    assert!(is_private_ip("::"));
}

#[test]
fn test_is_private_ip_v6_public() {
    assert!(!is_private_ip("2001:db8::1")); // Documentation address
    assert!(!is_private_ip("2606:4700:4700::1111")); // Cloudflare DNS
}

#[test]
fn test_is_private_ip_invalid() {
    // Invalid IP strings should be treated as private for safety
    assert!(is_private_ip("not an ip address"));
    assert!(is_private_ip("192.168.1.256"));
    assert!(is_private_ip(""));
}

#[test]
fn test_is_private_ip_broadcast_and_documentation() {
    assert!(is_private_ip("255.255.255.255"));
    assert!(is_private_ip("192.0.2.1"));
    assert!(is_private_ip("198.51.100.7"));
    assert!(is_private_ip("203.0.113.200"));
}

#[test]
fn test_ip_parsing_edges() {
    // leading zeros and overlong groups are no addresses
    assert!(is_private_ip("01.2.3.4"));
    assert!(is_private_ip("1.2.3"));
    assert!(is_private_ip("1:2:3:4:5:6:7"));
    assert!(is_private_ip("1:2:3:4:5:6:7:8:9"));
    assert!(is_private_ip("12345::1"));
    assert!(is_private_ip("1::2::3"));
    // full and compressed forms of public addresses pass
    assert!(!is_private_ip("2606:4700:4700:0:0:0:0:1111"));
}
