use rbtl_steamsockets::listener::{admission_after_friend_check, Admission, RejectReason, SendAllOutcome};
use rbtl_steamsockets::{ConnectInfo, Error, ListenerConfig};

#[test]
fn error_constructors() {
    let e = Error::new("boom");
    assert_eq!(e.msg, "boom");
    assert!(e.source.is_none());
    let e = Error::from_cause("outer", "inner".to_string());
    assert_eq!(e.msg, "outer");
    assert_eq!(e.source.as_deref(), Some("inner"));
}

#[test]
fn unavailable_errors() {
    assert!(Error::new_unavailable().is_unavailable());
    assert_eq!(Error::new_unavailable().msg, "unavailable to connect to");
    assert!(Error::new("unavailable").is_unavailable());
    assert!(!Error::new("unavailabl").is_unavailable());
    assert!(!Error::new("not unavailable").is_unavailable());
}

#[test]
fn listener_config() {
    let c = ListenerConfig::new();
    assert!(!c.accept_only_friends);
    assert!(c.socket_config.timeout.is_none());
    let c = ListenerConfig::default().with_timeout(std::time::Duration::from_secs(2));
    assert_eq!(c.socket_config.timeout, Some(std::time::Duration::from_secs(2)));
    assert!(!c.accept_only_friends);
}

#[test]
fn admission_decisions() {
    let open = ListenerConfig::new();
    assert_eq!(open.admission(None), Admission::Accept);
    assert_eq!(open.admission(Some(5)), Admission::Accept);
    let friends = ListenerConfig { accept_only_friends: true, ..ListenerConfig::new() };
    assert_eq!(friends.admission(None), Admission::Reject(RejectReason::NotSteamUser));
    assert_eq!(friends.admission(Some(5)), Admission::CheckFriend(5));
    assert_eq!(admission_after_friend_check(true), Admission::Accept);
    assert_eq!(admission_after_friend_check(false), Admission::Reject(RejectReason::NotFriend));
    assert_eq!(RejectReason::NotSteamUser.message(), "not friends: not steam user");
    assert_eq!(RejectReason::NotFriend.message(), "not friends");
}

#[test]
fn send_all_outcomes() {
    assert!(SendAllOutcome::new().finish().is_ok());
    let mut o = SendAllOutcome::new();
    o.record(Err(Error::new("a")));
    o.record(Err(Error::new("b")));
    assert_eq!(o.finish().unwrap_err().msg, "b");
    let mut o = SendAllOutcome::new();
    o.record(Err(Error::new("a")));
    o.record(Ok(3));
    o.record(Err(Error::new("c")));
    assert!(o.finish().is_ok());
}

#[test]
fn connect_info_bytes() {
    let info = ConnectInfo::new(0x0110_0001_0203_0405);
    let bytes = info.to_bytes().unwrap();
    assert_eq!(bytes, vec![0x01, 0x10, 0x00, 0x01, 0x02, 0x03, 0x04, 0x05]);
    assert_eq!(ConnectInfo::from_bytes(&bytes), Ok(info));
    assert_eq!(ConnectInfo::from_bytes(&bytes[..7]), Err(()));
    assert_eq!(ConnectInfo::from_bytes(&[0; 9]), Err(()));
    assert_eq!(ConnectInfo { steam_id: None }.to_bytes(), Err(()));
}

#[test]
fn connect_info_zero_id_is_no_steam_user() {
    assert_eq!(ConnectInfo::new(0).steam_id, None);
    let info = ConnectInfo::from_bytes(&[0; 8]).unwrap();
    assert_eq!(info.steam_id, None);
    assert_eq!(info.to_bytes(), Err(()));
}

#[test]
fn connect_info_traits() {
    let raw = [0xffu8; 8];
    let info = ConnectInfo::try_from(&raw[..]).unwrap();
    assert_eq!(info.steam_id, Some(u64::MAX));
    let back: Result<Vec<u8>, ()> = info.try_into();
    assert_eq!(back, Ok(raw.to_vec()));
}
