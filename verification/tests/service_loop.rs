use queen_core::service::service::{
    Action, Command, DispatchPlan, Service, ServiceMessage, CHANNEL_TOKEN, SOCKET_TOKEN,
};
use queen_core::wire_protocol::message::{Message, OpCode};

fn msg(id: u32) -> Message {
    Message::new(id, String::from("t"), String::from("o"), OpCode::Publish, 0, vec![1, 2, 3])
}

#[test]
fn tokens_are_monotonic_and_unique() {
    let mut service = Service::new(true);
    let a = service.accept_conn().unwrap();
    let b = service.accept_conn().unwrap();
    let c = service.accept_conn().unwrap();
    assert_eq!(a, 8);
    assert_eq!(b, 9);
    assert_eq!(c, 10);
    assert!(service.is_conn(a) && service.is_conn(b) && service.is_conn(c));
    // removing one and accepting again never reuses a live token
    service.service_command(Command::CloseConn { id: b });
    let d = service.accept_conn().unwrap();
    assert_eq!(d, 11);
    assert!(!service.is_conn(b));
    assert_eq!(service.conn_count(), 3);
}

#[test]
fn shutdown_stops_the_run_loop() {
    let mut service = Service::new(true);
    assert!(service.running());
    let actions = service.service_command(Command::Shutdown);
    assert!(actions.is_empty());
    assert!(!service.running());
}

#[test]
fn failed_listen_leaves_the_service_running() {
    let mut service = Service::new(false);
    let t = service.accept_conn().unwrap();
    let actions = service.service_command(Command::Listen {
        id: 1,
        addr: String::from("127.0.0.1:9000"),
    });
    assert!(matches!(&actions[..], [Action::Bind { id: 1, .. }]));
    // the host reports that the bind failed (address already in use)
    let reply = service.on_listen_result(1, false, String::from("address already in use"));
    match reply {
        ServiceMessage::Command(Command::ListenReply { id, success, msg }) => {
            assert_eq!(id, 1);
            assert!(!success);
            assert!(!msg.is_empty());
        },
        _ => panic!("expected a listen reply"),
    }
    assert!(service.running());
    assert!(service.is_conn(t));
}

#[test]
fn link_to_allocates_a_token_on_success() {
    let mut service = Service::new(false);
    let actions = service.service_command(Command::LinkTo {
        id: 2,
        addr: String::from("example.net:1883"),
    });
    assert!(matches!(&actions[..], [Action::ConnectOut { id: 2, .. }]));
    let (token, reply) = service.on_connect_result(2, true, String::new());
    let token = token.unwrap();
    assert_eq!(token, 8);
    assert!(service.is_conn(token));
    match reply {
        ServiceMessage::Command(Command::LinkToReply { id, success, token: t, .. }) => {
            assert_eq!(id, 2);
            assert!(success);
            assert_eq!(t, Some(token));
        },
        _ => panic!("expected a link reply"),
    }
    // and a failure allocates nothing
    let before = service.conn_count();
    let (none, reply) = service.on_connect_result(3, false, String::from("refused"));
    assert!(none.is_none());
    assert!(matches!(
        reply,
        ServiceMessage::Command(Command::LinkToReply { success: false, token: None, .. })
    ));
    assert_eq!(service.conn_count(), before);
}

#[test]
fn reserved_tokens_route_to_their_sources() {
    let mut service = Service::new(true);
    assert!(matches!(
        service.dispatch(SOCKET_TOKEN, true, false, false),
        DispatchPlan::Accept
    ));
    assert!(matches!(
        service.dispatch(CHANNEL_TOKEN, true, false, false),
        DispatchPlan::DrainChannel
    ));
    assert!(matches!(
        service.dispatch(55, true, false, false),
        DispatchPlan::Ignore
    ));
}

#[test]
fn hangup_removes_the_connection_with_one_notification() {
    let mut service = Service::new(true);
    let t = service.accept_conn().unwrap();
    match service.dispatch(t, false, false, true) {
        DispatchPlan::Closed(actions) => {
            assert_eq!(actions.len(), 2);
            assert!(matches!(actions[0], Action::Deregister { token } if token == t));
            match &actions[1] {
                Action::Reply(ServiceMessage::Command(Command::CloseConn { id })) => {
                    assert_eq!(*id, t)
                },
                _ => panic!("expected a close notification"),
            }
        },
        _ => panic!("expected a removal"),
    }
    assert!(!service.is_conn(t));
    // a second event for the same token finds nothing and notifies no one
    match service.dispatch(t, false, false, true) {
        DispatchPlan::Closed(actions) => assert!(actions.is_empty()),
        _ => panic!("expected an empty removal"),
    }
}

#[test]
fn explicit_close_sends_no_notification() {
    let mut service = Service::new(true);
    let t = service.accept_conn().unwrap();
    let actions = service.service_command(Command::CloseConn { id: t });
    assert_eq!(actions.len(), 1);
    assert!(matches!(actions[0], Action::Deregister { token } if token == t));
    assert!(!service.is_conn(t));
}

#[test]
fn messages_route_to_the_addressed_connection() {
    let mut service = Service::new(true);
    let a = service.accept_conn().unwrap();
    let b = service.accept_conn().unwrap();
    let m = msg(42);
    assert_eq!(service.handle_message(a, &m), Ok(true));
    // a token with no connection drops the message
    assert_eq!(service.handle_message(999, &m), Ok(false));
    let queued = service.writable_bytes_of(a).unwrap().to_vec();
    assert_eq!(queued, m.encode().unwrap());
    assert!(service.write_interest_of(a));
    assert!(!service.write_interest_of(b));
    // a partial flush keeps interest; a full flush withdraws it
    service.on_conn_writable(a, 3);
    assert_eq!(service.writable_bytes_of(a).unwrap(), &queued[3..]);
    assert!(service.write_interest_of(a));
    service.on_conn_writable(a, queued.len());
    assert!(!service.write_interest_of(a));
}

#[test]
fn readable_bytes_become_outbound_messages() {
    let mut service = Service::new(true);
    let t = service.accept_conn().unwrap();
    let m1 = msg(1);
    let m2 = msg(2);
    let mut stream = m1.encode().unwrap();
    stream.extend(m2.encode().unwrap());
    // split the two frames across two readiness events
    let cut = stream.len() / 2;
    let (out, actions) = service.on_conn_readable(t, &stream[..cut]);
    assert!(actions.is_empty());
    let (out2, actions2) = service.on_conn_readable(t, &stream[cut..]);
    assert!(actions2.is_empty());
    let all: Vec<_> = out.into_iter().chain(out2).collect();
    assert_eq!(all.len(), 2);
    for (sm, want) in all.iter().zip([1u32, 2]) {
        match sm {
            ServiceMessage::Message(token, m) => {
                assert_eq!(*token, t);
                assert_eq!(m.message_id, want);
            },
            _ => panic!("expected a wrapped message"),
        }
    }
    assert!(service.is_conn(t));
}

#[test]
fn corrupt_stream_closes_the_connection() {
    let mut service = Service::new(true);
    let t = service.accept_conn().unwrap();
    // a frame that declares less than its fixed fields
    let (out, actions) = service.on_conn_readable(t, &[5, 0, 0, 0, 1, 2, 3, 4, 5, 6]);
    assert!(out.is_empty());
    assert_eq!(actions.len(), 2);
    assert!(matches!(actions[0], Action::Deregister { token } if token == t));
    assert!(matches!(
        &actions[1],
        Action::Reply(ServiceMessage::Command(Command::CloseConn { id })) if *id == t
    ));
    assert!(!service.is_conn(t));
}
