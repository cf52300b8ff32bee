use rbtl_steamsockets::raw_msg::RawMsgIn;
use rbtl_steamsockets::socket::NetConnState;
use rbtl_steamsockets::{SendOptions, Socket, SocketConfig, SocketEvent, SocketStatus};

fn unreliable() -> SendOptions {
    SendOptions { reliable: false }
}

fn connected() -> Socket {
    let mut s = Socket::from_config(SocketConfig::new());
    s.process_status_change(&[NetConnState::Connected]);
    s.drain_events();
    s
}

#[test]
fn status_mapping_and_predicates() {
    assert_eq!(SocketStatus::from_networking_conn_state(&NetConnState::ClosedByPeer), SocketStatus::Terminated { by_remote: true });
    assert_eq!(SocketStatus::from_networking_conn_state(&NetConnState::Connected), SocketStatus::Connected);
    assert_eq!(SocketStatus::from_networking_conn_state(&NetConnState::FindingRoute), SocketStatus::Connecting);
    assert_eq!(SocketStatus::from_networking_conn_state(&NetConnState::Connecting), SocketStatus::Connecting);
    assert_eq!(SocketStatus::from_networking_conn_state(&NetConnState::NoConnection), SocketStatus::LocalError);
    assert_eq!(SocketStatus::from_networking_conn_state(&NetConnState::ProblemDetectedLocally), SocketStatus::LocalError);
    assert!(SocketStatus::Connecting.can_use_net_conn());
    assert!(SocketStatus::Connected.can_use_net_conn());
    assert!(!SocketStatus::LocalError.can_use_net_conn());
    assert!(!SocketStatus::Terminated { by_remote: false }.can_use_net_conn());
    assert!(SocketStatus::Connected.is_connected());
    assert!(!SocketStatus::Connecting.is_connected());
}

#[test]
fn from_listener_starts_connected_with_an_event() {
    let mut s = Socket::from_listener();
    assert_eq!(s.status(), SocketStatus::Connected);
    let evs = s.drain_events();
    assert_eq!(evs.len(), 1);
    assert!(matches!(evs[0], SocketEvent::StatusChanged(SocketStatus::Connected)));
    assert!(s.next_event().is_none());
    assert!(s.get_config().timeout.is_none());
}

#[test]
fn status_change_reported_once() {
    let mut s = Socket::from_config(SocketConfig::new());
    s.process_status_change(&[NetConnState::Connecting]);
    assert!(s.next_event().is_none());
    s.process_status_change(&[NetConnState::Connected, NetConnState::Connected]);
    assert!(matches!(s.next_event(), Some(SocketEvent::StatusChanged(SocketStatus::Connected))));
    assert!(s.next_event().is_none());
}

#[test]
fn send_fails_when_terminated() {
    let mut s = connected();
    s.send_end();
    assert_eq!(s.status(), SocketStatus::Terminated { by_remote: false });
    let e = s.prepare_send(&[1, 2], SendOptions::new()).unwrap_err();
    assert_eq!(e.msg, "failed to send p2p steamworks sockets msg: disconnected");
    assert!(!s.should_clear());
    s.drain_events();
    assert!(s.should_clear());
}

#[test]
fn seq_ids_increase_per_send() {
    let mut s = connected();
    assert_eq!(s.prepare_send(&[1], SendOptions::new()).unwrap(), 0);
    assert_eq!(s.prepare_send(&[1], unreliable()).unwrap(), 1);
    assert_eq!(s.prepare_send(&[], SendOptions::default()).unwrap(), 2);
}

#[test]
fn reliable_send_received_after_ack() {
    let mut s = connected();
    let id = s.prepare_send(&[1, 2, 3], SendOptions::new()).unwrap();
    assert!(!s.is_seq_id_received(id));
    // not yet sent ids are not received either
    assert!(!s.is_seq_id_received(id + 1));
    // a message from the remote acknowledging `id`, without data
    assert!(s.receive_message(&[1, 0, 0, 0, id as u8, 0, 0, 0, 0], false));
    assert!(s.is_seq_id_received(id));
    assert!(s.next_event().is_none());
}

#[test]
fn unreliable_send_counts_as_received() {
    let mut s = connected();
    let id = s.prepare_send(&[4], unreliable()).unwrap();
    assert!(s.is_seq_id_received(id));
}

#[test]
fn received_data_becomes_event_and_reliable_ones_are_acked() {
    let mut s = connected();
    // no acks, seq id 9, data [5, 6]
    assert!(s.receive_message(&[0, 0, 0, 0, 9, 5, 6], true));
    match s.next_event() {
        Some(SocketEvent::Data(d)) => assert_eq!(&*d, &[5, 6]),
        other => panic!("unexpected {:?}", other),
    }
    // the next message carries the ack of 9
    s.prepare_send(&[1], unreliable()).unwrap();
    let mut buf = Vec::new();
    let m = RawMsgIn::decode_from(&mut buf, s.outgoing()).unwrap();
    assert_eq!(m.common.acks(), &[9]);
    assert_eq!(m.common.seq_id, 0);
    assert_eq!(buf, vec![1]);
    // and only that one
    s.prepare_send(&[1], unreliable()).unwrap();
    let m = RawMsgIn::decode_from(&mut buf, s.outgoing()).unwrap();
    assert_eq!(m.common.ack_len, 0);
}

#[test]
fn undecodable_message_changes_nothing() {
    let mut s = connected();
    assert!(!s.receive_message(&[3, 0, 0], true));
    assert!(s.next_event().is_none());
    s.prepare_send(&[], unreliable()).unwrap();
    assert_eq!(s.outgoing(), &[0, 0, 0, 0, 0]);
}

#[test]
fn terminated_socket_ignores_state_changes() {
    let mut s = connected();
    s.set_terminated(false);
    s.drain_events();
    s.process_status_change(&[NetConnState::Connected]);
    assert_eq!(s.status(), SocketStatus::Terminated { by_remote: false });
    assert!(s.next_event().is_none());
    let e = s.prepare_send(&[1], SendOptions::new()).unwrap_err();
    assert!(e.source.is_none());
}

#[test]
fn status_changes_of_one_round_all_apply() {
    let mut s = connected();
    s.process_status_change(&[NetConnState::ClosedByPeer, NetConnState::NoConnection]);
    assert!(matches!(s.next_event(), Some(SocketEvent::StatusChanged(SocketStatus::Terminated { by_remote: true }))));
    assert!(matches!(s.next_event(), Some(SocketEvent::StatusChanged(SocketStatus::LocalError))));
    assert_eq!(s.status(), SocketStatus::LocalError);
    // the next round starts unusable: it is ignored
    s.process_status_change(&[NetConnState::Connected]);
    assert_eq!(s.status(), SocketStatus::LocalError);
    assert!(s.next_event().is_none());
}

#[test]
fn reliable_message_without_data_is_acked_with_its_id() {
    let mut s = connected();
    assert!(s.receive_message(&[0, 0, 0, 0, 77], true));
    assert!(s.next_event().is_none());
    s.prepare_send(&[1], unreliable()).unwrap();
    let mut buf = Vec::new();
    let m = RawMsgIn::decode_from(&mut buf, s.outgoing()).unwrap();
    assert_eq!(m.common.acks(), &[77]);
}

#[test]
fn terminated_by_remote() {
    let mut s = connected();
    s.set_terminated(true);
    assert!(matches!(s.next_event(), Some(SocketEvent::StatusChanged(SocketStatus::Terminated { by_remote: true }))));
    assert!(s.should_clear());
}

#[test]
fn reliable_exchange_between_two_sockets() {
    let mut a = connected();
    let mut b = connected();
    let id = a.prepare_send(&[10, 20, 30], SendOptions::new()).unwrap();
    let wire = a.outgoing().to_vec();
    assert!(b.receive_message(&wire, true));
    match b.next_event() {
        Some(SocketEvent::Data(d)) => assert_eq!(&*d, &[10, 20, 30]),
        other => panic!("unexpected {:?}", other),
    }
    assert!(!a.is_seq_id_received(id));
    b.prepare_send(&[7], SendOptions::new()).unwrap();
    let reply = b.outgoing().to_vec();
    assert!(a.receive_message(&reply, true));
    assert!(a.is_seq_id_received(id));
    assert!(a.last_ping_info().is_some());
}

#[test]
fn config_is_replaced() {
    let mut s = connected();
    let c = SocketConfig { timeout: Some(std::time::Duration::from_millis(1500)) };
    s.set_config(c);
    assert_eq!(s.get_config().timeout, Some(std::time::Duration::from_millis(1500)));
    assert_eq!(s.get_config().timeout_ms(), Some(1500));
    assert_eq!(SocketConfig::default().timeout_ms(), None);
}
