use blackjack_backend::registry::{
    connection_step, Command, CommandOutcome, InboundDecision, InboundEvent, MsgType, SendWS,
    WebSocketManager,
};

fn key(name: &str, id: u128) -> (String, u128) {
    (name.to_string(), id)
}

fn data_msg(text: &str) -> SendWS {
    SendWS {
        msg_type: MsgType::Data,
        msg_data_str: Some(text.to_string()),
        msg_data_keys: None,
        msg_data_arr: None,
    }
}

#[test]
fn readd_conflicts_and_supersedes() {
    let mut m: WebSocketManager<u32> = WebSocketManager::new();
    let (status, note) = m.add_ws(key("k", 1), 10);
    assert_eq!(status, 200);
    assert_eq!(note, "ws was added");
    let (status2, note2) = m.add_ws(key("k", 1), 20);
    assert_eq!(status2, 409);
    assert_eq!(note2, "ws was not added due to conflicting keys");
    // Exactly one entry under the key, holding the newer sender.
    assert_eq!(m.entries.len(), 1);
    assert_eq!(m.get_ws(1, "k".to_string()), Some(&20));
}

#[test]
fn same_name_different_ids_coexist() {
    let mut m: WebSocketManager<u32> = WebSocketManager::new();
    assert_eq!(m.add_ws(key("k", 1), 10).0, 200);
    assert_eq!(m.add_ws(key("k", 2), 20).0, 200);
    assert_eq!(m.entries.len(), 2);
    assert_eq!(m.get_ws(1, "k".to_string()), Some(&10));
    assert_eq!(m.get_ws(2, "k".to_string()), Some(&20));
}

#[test]
fn remove_returns_sender_once() {
    let mut m: WebSocketManager<u32> = WebSocketManager::new();
    m.add_ws(key("k", 1), 10);
    assert_eq!(m.remove_ws(key("k", 1)), Some(10));
    assert_eq!(m.remove_ws(key("k", 1)), None);
    assert!(m.entries.is_empty());
}

#[test]
fn remove_then_send_is_noop() {
    let mut m: WebSocketManager<u32> = WebSocketManager::new();
    m.add_ws(key("k", 1), 10);
    m.remove_ws(key("k", 1));
    // No delivery and no error: the message is dropped.
    assert!(m.send_msg(key("k", 1), data_msg("hi")).is_none());
}

#[test]
fn send_to_registered_key_delivers() {
    let mut m: WebSocketManager<u32> = WebSocketManager::new();
    m.add_ws(key("k", 1), 10);
    let d = m.send_msg(key("k", 1), data_msg("hi")).unwrap();
    assert_eq!(d.key, key("k", 1));
    assert!(matches!(d.msg.msg_type, MsgType::Data));
    assert_eq!(d.msg.msg_data_str, Some("hi".to_string()));
}

#[test]
fn broadcast_reaches_every_connection_with_full_roster() {
    let mut m: WebSocketManager<u32> = WebSocketManager::new();
    let u1 = 11u128;
    let u2 = 22u128;
    m.add_ws(key("alice", u1), 1);
    m.add_ws(key("bob", u2), 2);
    let deliveries = m.update_all_list();
    assert_eq!(deliveries.len(), 2);
    let mut delivered_to: Vec<(String, u128)> = Vec::new();
    for d in &deliveries {
        assert!(matches!(d.msg.msg_type, MsgType::UpdateUserList));
        assert!(d.msg.msg_data_str.is_none());
        assert!(d.msg.msg_data_arr.is_none());
        let roster = d.msg.msg_data_keys.as_ref().unwrap();
        // Every connection sees the same full snapshot.
        assert_eq!(roster.len(), 2);
        assert!(roster.contains(&key("alice", u1)));
        assert!(roster.contains(&key("bob", u2)));
        delivered_to.push(d.key.clone());
    }
    assert!(delivered_to.contains(&key("alice", u1)));
    assert!(delivered_to.contains(&key("bob", u2)));
}

#[test]
fn roster_lists_keys_in_registration_order() {
    let mut m: WebSocketManager<u32> = WebSocketManager::new();
    m.add_ws(key("a", 1), 1);
    m.add_ws(key("b", 2), 2);
    assert_eq!(m.get_all_uuids(), vec![key("a", 1), key("b", 2)]);
}

#[test]
fn mutable_lookup_reaches_only_the_registered_sender() {
    let mut m: WebSocketManager<u32> = WebSocketManager::new();
    m.add_ws(key("a", 1), 10);
    m.add_ws(key("b", 2), 20);
    {
        let sender = m.get_ws_mut(1, "a".to_string()).unwrap();
        assert_eq!(*sender, 10);
        *sender = 99;
    }
    // Only that sender changed; keys and roster order are untouched.
    assert_eq!(m.get_ws(1, "a".to_string()), Some(&99));
    assert_eq!(m.get_ws(2, "b".to_string()), Some(&20));
    assert_eq!(m.get_all_uuids(), vec![key("a", 1), key("b", 2)]);
    assert!(m.get_ws_mut(3, "a".to_string()).is_none());
}

#[test]
fn only_a_close_frame_removes_the_connection() {
    assert_eq!(
        connection_step(&InboundEvent::Close),
        InboundDecision::RemoveAndStop
    );
    assert_eq!(connection_step(&InboundEvent::Text), InboundDecision::Continue);
    assert_eq!(connection_step(&InboundEvent::Binary), InboundDecision::Continue);
    assert_eq!(connection_step(&InboundEvent::Ping), InboundDecision::Continue);
    assert_eq!(connection_step(&InboundEvent::Pong), InboundDecision::Continue);
}

#[test]
fn command_stream_drives_the_registry() {
    let mut m: WebSocketManager<u32> = WebSocketManager::new();

    let out = m.handle_command(Command::AddWS { key: key("alice", 5), ws_send: 77 });
    match out {
        CommandOutcome::Added { status, assigned, deliveries } => {
            assert_eq!(status, 200);
            assert_eq!(assigned, 5);
            assert_eq!(deliveries.len(), 1);
        }
        _ => panic!("expected an add outcome"),
    }

    let out = m.handle_command(Command::SendWS { key: key("alice", 5), msg: data_msg("hi") });
    match out {
        CommandOutcome::Sent { deliveries } => {
            assert_eq!(deliveries.len(), 1);
            assert_eq!(deliveries[0].key, key("alice", 5));
        }
        _ => panic!("expected a send outcome"),
    }

    let out = m.handle_command(Command::DeleteWS { key: key("alice", 5) });
    match out {
        CommandOutcome::Removed { sender, deliveries } => {
            assert_eq!(sender, Some(77));
            assert_eq!(deliveries.len(), 0);
        }
        _ => panic!("expected a remove outcome"),
    }

    // A send after the removal is a no-op.
    let out = m.handle_command(Command::SendWS { key: key("alice", 5), msg: data_msg("hi") });
    match out {
        CommandOutcome::Sent { deliveries } => assert!(deliveries.is_empty()),
        _ => panic!("expected a send outcome"),
    }

    let out = m.handle_command(Command::UpdateUserList {});
    match out {
        CommandOutcome::Roster { deliveries } => assert!(deliveries.is_empty()),
        _ => panic!("expected a roster outcome"),
    }
}
