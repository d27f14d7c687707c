use chilsonite::socks5::{
    greeting_accepts, method_reply, auth_version_ok, auth_reply_ok, connect_success_reply,
    general_failure_reply, parse_connect_header, target_from_v4, target_from_v6,
    target_from_domain, port_from_be, validate_access, settle_relay_points, Socks5Error,
    AuthError,
    make_connect_request,
};
use chilsonite::agent::{plan_connect, plan_after_resolve, host_port_text, ConnectPlan};
use chilsonite::protocol::Payload;

#[test]
fn greeting_requires_userpass_method() {
    assert!(greeting_accepts(5, &[0x02]));
    assert!(greeting_accepts(5, &[0x00, 0x02]));
    assert!(!greeting_accepts(5, &[0x00]));
    assert!(!greeting_accepts(5, &[]));
    assert!(!greeting_accepts(4, &[0x02]));
    assert_eq!(method_reply(true), vec![0x05, 0x02]);
    assert_eq!(method_reply(false), vec![0x05, 0xff]);
    assert!(auth_version_ok(1));
    assert!(!auth_version_ok(5));
    assert_eq!(auth_reply_ok(), vec![0x01, 0x00]);
}

#[test]
fn connect_replies_are_the_fixed_byte_strings() {
    assert_eq!(connect_success_reply(), vec![5, 0, 0, 1, 0, 0, 0, 0, 0, 0]);
    assert_eq!(general_failure_reply(), vec![5, 1, 0, 1, 0, 0, 0, 0, 0, 0]);
}

#[test]
fn connect_header_checks_version_command_and_address_type() {
    assert_eq!(parse_connect_header(&[5, 1, 0, 1]), Ok(1));
    assert_eq!(parse_connect_header(&[5, 1, 0, 3]), Ok(3));
    assert_eq!(parse_connect_header(&[5, 1, 0, 4]), Ok(4));
    assert_eq!(parse_connect_header(&[4, 1, 0, 1]), Err(Socks5Error::BadVersion));
    assert_eq!(parse_connect_header(&[5, 2, 0, 1]), Err(Socks5Error::UnsupportedCommand));
    assert_eq!(parse_connect_header(&[5, 1, 0, 2]), Err(Socks5Error::UnsupportedAddrType));
}

#[test]
fn address_texts() {
    assert_eq!(target_from_v4(&[93, 184, 216, 34]), "93.184.216.34");
    assert_eq!(target_from_v4(&[0, 0, 0, 0]), "0.0.0.0");
    let v6 = [0x20, 0x01, 0x0d, 0xb8, 0, 0, 0, 0, 0, 0, 0, 0, 0, 0, 0, 1];
    assert_eq!(target_from_v6(&v6), "2001:db8:0:0:0:0:0:1");
    assert_eq!(target_from_domain(b"example.com".to_vec()), Ok("example.com".to_string()));
    assert_eq!(target_from_domain(vec![0xff, 0xfe]), Err(Socks5Error::BadString));
    assert_eq!(port_from_be(0x01, 0xbb), 443);
    assert_eq!(port_from_be(0, 80), 80);
}

#[test]
fn access_validation() {
    assert_eq!(validate_access(true, 1000, 999, true, 10), Ok(()));
    assert_eq!(validate_access(false, 1000, 999, true, 100), Err(AuthError::InvalidToken));
    assert_eq!(validate_access(true, 999, 999, true, 100), Err(AuthError::InvalidToken));
    // a valid token whose user has five points is refused before any
    // connect request goes out
    assert_eq!(validate_access(true, 1000, 999, true, 5), Err(AuthError::InsufficientPoints));
    assert_eq!(validate_access(true, 1000, 999, false, 0), Err(AuthError::InsufficientPoints));
    // a completed relay costs ten points; a failed one costs nothing
    assert_eq!(settle_relay_points(1000, true), 990);
    assert_eq!(settle_relay_points(10, true), 0);
    assert_eq!(settle_relay_points(1000, false), 1000);
}

#[test]
fn connect_request_payload_carries_no_agent_field() {
    let p = make_connect_request(&"rid".to_string(), "example.com".to_string(), 80, 3);
    assert_eq!(
        p,
        Payload::ConnectRequest {
            request_id: "rid".to_string(),
            target_addr: "example.com".to_string(),
            target_port: 80,
            agent_id: None,
            address_type: 3,
        }
    );
}

#[test]
fn tunnel_plans_respect_the_guard() {
    match plan_connect(1, "8.8.8.8") {
        ConnectPlan::Direct { host } => assert_eq!(host, b"8.8.8.8"),
        _ => panic!("expected direct"),
    }
    match plan_connect(1, "10.0.0.5") {
        ConnectPlan::Refuse => {},
        _ => panic!("expected refusal"),
    }
    match plan_connect(4, "2606:4700:4700::1111") {
        ConnectPlan::Direct { host } => assert_eq!(host, b"[2606:4700:4700::1111]"),
        _ => panic!("expected direct"),
    }
    match plan_connect(4, "fd00::1") {
        ConnectPlan::Refuse => {},
        _ => panic!("expected refusal"),
    }
    match plan_connect(3, "example.com") {
        ConnectPlan::ResolveDomain => {},
        _ => panic!("expected resolution"),
    }
    match plan_connect(9, "8.8.8.8") {
        ConnectPlan::Refuse => {},
        _ => panic!("expected refusal"),
    }
}

#[test]
fn resolved_addresses_prefer_ipv4_and_pass_the_guard() {
    let addrs = vec![
        ("2606:4700:4700::1111".to_string(), false),
        ("93.184.216.34".to_string(), true),
    ];
    match plan_after_resolve(&addrs) {
        ConnectPlan::Direct { host } => assert_eq!(host, b"93.184.216.34"),
        _ => panic!("expected direct"),
    }
    // a domain resolving into private space is refused
    let private = vec![("10.0.0.5".to_string(), true)];
    match plan_after_resolve(&private) {
        ConnectPlan::Refuse => {},
        _ => panic!("expected refusal"),
    }
    let none: Vec<(String, bool)> = vec![];
    match plan_after_resolve(&none) {
        ConnectPlan::Refuse => {},
        _ => panic!("expected refusal"),
    }
    let only_v6 = vec![("2606:4700:4700::1111".to_string(), false)];
    match plan_after_resolve(&only_v6) {
        ConnectPlan::Direct { host } => assert_eq!(host, b"2606:4700:4700::1111"),
        _ => panic!("expected direct"),
    }
    // the pick is the FIRST IPv4 result: a blocked one refuses even when a
    // later public IPv4 result exists
    let blocked_first = vec![
        ("10.0.0.5".to_string(), true),
        ("93.184.216.34".to_string(), true),
    ];
    match plan_after_resolve(&blocked_first) {
        ConnectPlan::Refuse => {},
        _ => panic!("expected refusal"),
    }
    // a public IPv4 after a v6 entry is still the pick
    let v6_then_v4 = vec![
        ("fd00::1".to_string(), false),
        ("93.184.216.34".to_string(), true),
    ];
    match plan_after_resolve(&v6_then_v4) {
        ConnectPlan::Direct { host } => assert_eq!(host, b"93.184.216.34"),
        _ => panic!("expected direct"),
    }
    assert_eq!(host_port_text(b"93.184.216.34", 80), b"93.184.216.34:80");
    assert_eq!(host_port_text(b"[::1]", 65535), b"[::1]:65535");
}
