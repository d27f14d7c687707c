use chilsonite::pending::{
    PendingTable, CommandTable, register_connect_wait, handle_connect_response, begin_streaming,
    route_data_response, end_request, register_command_wait, route_command_response,
    drop_command_slot,
};
use chilsonite::table::StrMap;
use chilsonite::agent::{TcpTable, AgentAction, agent_dispatch, on_connect_established,
    connect_failed_reply, handle_init_response};
use chilsonite::protocol::Payload;

#[test]
fn connect_wait_is_delivered_once() {
    let mut pending: PendingTable = StrMap::new();
    let id = "req-1".to_string();
    register_connect_wait(&mut pending, &id, 41);
    assert!(pending.contains(&id));
    assert_eq!(handle_connect_response(&mut pending, &id), Some(41));
    // the slot left with the delivery; a late duplicate finds nothing
    assert!(!pending.contains(&id));
    assert_eq!(handle_connect_response(&mut pending, &id), None);
}

#[test]
fn connect_timeout_clears_the_slot_and_late_replies_are_dropped() {
    let mut pending: PendingTable = StrMap::new();
    let id = "req-2".to_string();
    register_connect_wait(&mut pending, &id, 7);
    // the hub stops waiting
    end_request(&mut pending, &id);
    assert!(!pending.contains(&id));
    // the agent's late acknowledgement is silently dropped
    assert_eq!(handle_connect_response(&mut pending, &id), None);
}

#[test]
fn streaming_slot_routes_chunks_and_ends_clean() {
    let mut pending: PendingTable = StrMap::new();
    let id = "req-3".to_string();
    register_connect_wait(&mut pending, &id, 7);
    assert_eq!(handle_connect_response(&mut pending, &id), Some(7));
    begin_streaming(&mut pending, &id, 99);
    assert_eq!(route_data_response(&pending, &id), Some(99));
    assert_eq!(route_data_response(&pending, &id), Some(99));
    end_request(&mut pending, &id);
    assert_eq!(route_data_response(&pending, &id), None);
    assert!(!pending.contains(&id));
}

#[test]
fn mismatched_slot_kinds_are_refused() {
    let mut pending: PendingTable = StrMap::new();
    let id = "req-4".to_string();
    begin_streaming(&mut pending, &id, 99);
    // a connect acknowledgement finding a streaming slot is dropped, and the
    // slot is disposed of with it
    assert_eq!(handle_connect_response(&mut pending, &id), None);
    assert!(!pending.contains(&id));
}

#[test]
fn command_slots_deliver_and_clear_on_completion() {
    let mut commands: CommandTable = StrMap::new();
    let id = "cmd-1".to_string();
    register_command_wait(&mut commands, &id, 5);
    assert_eq!(route_command_response(&mut commands, &id, false), Some(5));
    assert!(commands.contains(&id));
    assert_eq!(route_command_response(&mut commands, &id, true), Some(5));
    assert!(!commands.contains(&id));
    assert_eq!(route_command_response(&mut commands, &id, false), None);
}

#[test]
fn command_slot_of_a_gone_consumer_is_dropped() {
    let mut commands: CommandTable = StrMap::new();
    let id = "cmd-2".to_string();
    register_command_wait(&mut commands, &id, 5);
    drop_command_slot(&mut commands, &id);
    assert!(!commands.contains(&id));
}

#[test]
fn dispatch_writes_chunks_to_the_named_connection() {
    let mut table: TcpTable = StrMap::new();
    let id = "req-5".to_string();
    let reply = on_connect_established(&mut table, id.clone(), 13);
    assert_eq!(reply, Payload::ConnectResponse { request_id: id.clone(), success: true });
    let mut cs = chilsonite::chunk::ChunkStream::new(id.clone());
    let chunk = cs.next_request_chunk(b"payload".as_slice());
    match agent_dispatch(chunk, &mut table) {
        AgentAction::WriteUpstream { conn, bytes } => {
            assert_eq!(conn, 13);
            assert_eq!(bytes, b"payload");
        },
        _ => panic!("expected a write"),
    }
    assert!(table.contains(&id));
}

#[test]
fn dispatch_skips_chunks_for_unknown_requests() {
    let mut table: TcpTable = StrMap::new();
    let chunk = Payload::DataRequestChunk {
        request_id: "ghost".to_string(),
        chunk_id: 1,
        data: "aGk=".to_string(),
    };
    match agent_dispatch(chunk, &mut table) {
        AgentAction::Idle => {},
        _ => panic!("expected idle"),
    }
}

#[test]
fn disconnect_and_completion_close_and_remove() {
    for make in [
        (|id: String| Payload::ClientDisconnect { request_id: id })
            as fn(String) -> Payload,
        (|id: String| Payload::DataRequestTransferComplete {
            request_id: id,
            success: true,
            error_message: None,
        }) as fn(String) -> Payload,
    ] {
        let mut table: TcpTable = StrMap::new();
        let id = "req-6".to_string();
        let _ = on_connect_established(&mut table, id.clone(), 21);
        match agent_dispatch(make(id.clone()), &mut table) {
            AgentAction::CloseUpstream { conn } => assert_eq!(conn, 21),
            _ => panic!("expected a close"),
        }
        assert!(!table.contains(&id));
        // closing twice is harmless
        match agent_dispatch(make(id.clone()), &mut table) {
            AgentAction::Idle => {},
            _ => panic!("expected idle"),
        }
    }
}

#[test]
fn dispatch_routes_connect_and_command_requests() {
    let mut table: TcpTable = StrMap::new();
    let p = Payload::ConnectRequest {
        request_id: "r".to_string(),
        target_addr: "example.com".to_string(),
        target_port: 80,
        agent_id: None,
        address_type: 3,
    };
    match agent_dispatch(p, &mut table) {
        AgentAction::OpenTunnel { request_id, target_addr, target_port, address_type } => {
            assert_eq!(request_id, "r");
            assert_eq!(target_addr, "example.com");
            assert_eq!(target_port, 80);
            assert_eq!(address_type, 3);
        },
        _ => panic!("expected a tunnel"),
    }
    let c = Payload::CommandRequest { request_id: "r".to_string(), command: "id".to_string() };
    match agent_dispatch(c, &mut table) {
        AgentAction::RunCommand { request_id, command } => {
            assert_eq!(request_id, "r");
            assert_eq!(command, "id");
        },
        _ => panic!("expected a command"),
    }
}

#[test]
fn init_response_is_only_noted() {
    assert!(handle_init_response(true, None));
    assert!(!handle_init_response(false, Some("Agent ID must start with 'agent_'".to_string())));
    let r = connect_failed_reply(&"r".to_string());
    assert_eq!(r, Payload::ConnectResponse { request_id: "r".to_string(), success: false });
}
