//! End-to-end walks over the library's decision functions: what the two
//! processes compute between the socket reads and writes.
use chilsonite::agent::{
    agent_dispatch, connect_failed_reply, on_connect_established, plan_after_resolve,
    plan_connect, AgentAction, ConnectPlan, TcpTable,
};
use chilsonite::codec::{decode_payload, encode_payload};
use chilsonite::pending::{
    end_request, handle_connect_response, register_connect_wait, PendingTable,
};
use chilsonite::protocol::Payload;
use chilsonite::registry::{AgentRegistry, AgentEntry, AgentMeta};
use chilsonite::socks5::{
    auth_version_ok, connect_success_reply, general_failure_reply, greeting_accepts,
    make_connect_request, method_reply, parse_connect_header, port_from_be, target_from_domain,
    validate_access,
};
use chilsonite::table::StrMap;

fn register_abc(reg: &mut AgentRegistry) {
    reg.register(AgentEntry {
        agent_id: "agent_abc".to_string(),
        conn: 1,
        meta: AgentMeta {
            ip: "198.51.100.2".to_string(),
            remote_host: "h".to_string(),
            country_code: "US".to_string(),
            city: "c".to_string(),
            region: "r".to_string(),
            asn: "a".to_string(),
            asn_org: "o".to_string(),
            os_type: "Linux".to_string(),
            os_version: "6".to_string(),
            hostname: "n".to_string(),
            kernel_version: "6".to_string(),
            username: "u".to_string(),
        },
    });
}

/// The happy CONNECT via a domain: the client ends up with the success
/// reply, and exactly one connect-request and one successful
/// connect-response cross the wire.
#[test]
fn happy_path_connect_via_domain() {
    // hub side: handshake
    assert!(greeting_accepts(5, &[0x02]));
    assert_eq!(method_reply(true), vec![5, 2]);
    assert!(auth_version_ok(1));
    // username agent_abc selects the agent; password is the bearer token
    let mut reg = AgentRegistry::new();
    register_abc(&mut reg);
    assert!(validate_access(true, i64::MAX, 0, true, 1000).is_ok());
    // CONNECT ATYP=3 example.com:80
    let atyp = parse_connect_header(&[5, 1, 0, 3]).unwrap();
    let addr = target_from_domain(b"example.com".to_vec()).unwrap();
    let port = port_from_be(0, 80);
    let (agent_id, conn) = reg.choose_agent(Some("agent_abc")).unwrap();
    assert_eq!((agent_id.as_str(), conn), ("agent_abc", 1));
    let request_id = "0192aeb7-89ab-7cde-8000-0000000000aa".to_string();
    let mut pending: PendingTable = StrMap::new();
    register_connect_wait(&mut pending, &request_id, 77);
    let connect_req = make_connect_request(&request_id, addr, port, atyp);
    let wire = encode_payload(&connect_req);

    // agent side
    let mut table: TcpTable = StrMap::new();
    let inbound = decode_payload(&wire).unwrap();
    let (rid, target, tport, at) = match agent_dispatch(inbound, &mut table) {
        AgentAction::OpenTunnel { request_id, target_addr, target_port, address_type } => {
            (request_id, target_addr, target_port, address_type)
        },
        _ => panic!("expected a tunnel"),
    };
    assert_eq!((target.as_str(), tport, at), ("example.com", 80, 3));
    assert!(matches!(plan_connect(at, &target), ConnectPlan::ResolveDomain));
    let resolved = vec![("93.184.216.34".to_string(), true)];
    let host = match plan_after_resolve(&resolved) {
        ConnectPlan::Direct { host } => host,
        _ => panic!("expected direct"),
    };
    assert_eq!(host, b"93.184.216.34");
    let ack = on_connect_established(&mut table, rid.clone(), 5);
    assert!(table.contains(&rid));
    let ack_wire = encode_payload(&ack);

    // hub side: the acknowledgement routes to the waiter and the client
    // gets `05 00 00 01 00 00 00 00 00 00`
    match decode_payload(&ack_wire).unwrap() {
        Payload::ConnectResponse { request_id: r, success } => {
            assert_eq!(r, request_id);
            assert!(success);
            assert_eq!(handle_connect_response(&mut pending, &r), Some(77));
        },
        _ => panic!("wrong reply"),
    }
    assert_eq!(connect_success_reply(), vec![5, 0, 0, 1, 0, 0, 0, 0, 0, 0]);
}

/// A domain resolving into private space: the guard refuses, the client gets
/// the failure reply, and no TCP entry is created.
#[test]
fn ssrf_blocked_domain() {
    let resolved = vec![("10.0.0.5".to_string(), true)];
    assert!(matches!(plan_after_resolve(&resolved), ConnectPlan::Refuse));
    let mut table: TcpTable = StrMap::new();
    let rid = "r-blocked".to_string();
    let reply = connect_failed_reply(&rid);
    assert_eq!(reply, Payload::ConnectResponse { request_id: rid.clone(), success: false });
    assert!(!table.contains(&rid));
    let _ = &mut table;
    assert_eq!(general_failure_reply(), vec![5, 1, 0, 1, 0, 0, 0, 0, 0, 0]);
}

/// An agent that never answers: the timeout clears the pending slot and the
/// late acknowledgement is dropped.
#[test]
fn connect_timeout_then_late_reply() {
    let mut pending: PendingTable = StrMap::new();
    let rid = "r-timeout".to_string();
    register_connect_wait(&mut pending, &rid, 9);
    // the wait expires
    end_request(&mut pending, &rid);
    assert!(!pending.contains(&rid));
    // a late success acknowledgement finds no slot
    assert_eq!(handle_connect_response(&mut pending, &rid), None);
    assert!(!pending.contains(&rid));
}
