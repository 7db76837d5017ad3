use lanmsg::{commands, AppConfig, Directory, EncodingConfig, IpMsgPacket, PeerAddr, ReceiveOutcome, ReceiveState};

fn addr(ip: &str, port: u16) -> PeerAddr {
    PeerAddr { ip: ip.to_string(), port }
}

fn presence(command: u32, name: &str, host: &str) -> IpMsgPacket {
    IpMsgPacket {
        command,
        sender_name: name.to_string(),
        sender_host: host.to_string(),
        ..Default::default()
    }
}

fn utf8_config() -> AppConfig {
    AppConfig {
        encoding: EncodingConfig { protocol: "utf-8".into(), display: "utf-8".into() },
        ..Default::default()
    }
}

#[test]
fn entry_twice_keeps_one_entry_with_latest_address() {
    let mut d = Directory::new();
    d.handle_packet(&presence(commands::BR_ENTRY, "alice", "pc1"), &addr("10.0.0.1", 2425));
    d.handle_packet(&presence(commands::BR_ENTRY, "alice", "pc1"), &addr("10.0.0.2", 2426));
    assert_eq!(d.keys_list(), vec!["alice@pc1".to_string()]);
    let a = d.get(&"alice@pc1".to_string()).unwrap();
    assert_eq!(a.ip, "10.0.0.2");
    assert_eq!(a.port, 2426);
}

#[test]
fn exit_removes_entry_and_absent_exit_is_noop() {
    let mut d = Directory::new();
    d.handle_packet(&presence(commands::BR_ENTRY, "bob", "pc2"), &addr("10.0.0.3", 2425));
    d.handle_packet(&presence(commands::BR_EXIT, "bob", "pc2"), &addr("10.0.0.3", 2425));
    assert!(d.get(&"bob@pc2".to_string()).is_none());
    assert!(d.keys_list().is_empty());
    d.handle_packet(&presence(commands::BR_EXIT, "carol", "pc3"), &addr("10.0.0.4", 2425));
    assert!(d.keys_list().is_empty());
}

#[test]
fn answer_entry_records_and_other_commands_do_not() {
    let mut d = Directory::new();
    d.handle_packet(&presence(commands::IPMSG_ANSENTRY, "dave", "pc4"), &addr("10.0.0.5", 1), );
    d.handle_packet(&presence(commands::MSG, "erin", "pc5"), &addr("10.0.0.6", 1));
    d.handle_packet(&presence(commands::FILE, "erin", "pc5"), &addr("10.0.0.6", 1));
    d.handle_packet(&presence(commands::IPMSG_BR_ABSENCE, "erin", "pc5"), &addr("10.0.0.6", 1));
    // Flags above the low byte do not change the class.
    d.handle_packet(&presence(0x0100 | commands::BR_ENTRY, "frank", "pc6"), &addr("10.0.0.7", 7));
    assert_eq!(d.keys_list(), vec!["dave@pc4".to_string(), "frank@pc6".to_string()]);
}

#[test]
fn online_users_split_keys() {
    let mut d = Directory::new();
    d.handle_packet(&presence(commands::BR_ENTRY, "alice", "pc@lab"), &addr("10.0.0.1", 2425));
    d.insert("nokey".to_string(), addr("10.0.0.9", 9));
    let users = d.online_users();
    assert_eq!(users.len(), 2);
    assert_eq!(users[0].username, "alice");
    assert_eq!(users[0].hostname, "pc@lab");
    assert_eq!(users[0].ip, "10.0.0.1");
    assert_eq!(users[0].port, 2425);
    assert_eq!(users[1].username, "unknown");
    assert_eq!(users[1].hostname, "unknown");
    assert_eq!(users[1].port, 9);
}

#[test]
fn lookup_needs_full_key() {
    let mut d = Directory::new();
    d.handle_packet(&presence(commands::BR_ENTRY, "alice", "pc1"), &addr("10.0.0.1", 2425));
    assert!(d.get(&"alice".to_string()).is_none());
    assert!(d.get(&"alice@pc1".to_string()).is_some());
}

#[test]
fn four_errors_then_success_resets() {
    let mut s = ReceiveState::new();
    let mut d = Directory::new();
    for _ in 0..4 {
        assert_eq!(s.on_receive_error(), ReceiveOutcome::Continue);
    }
    assert_eq!(s.consecutive_errors(), 4);
    let r = s.on_datagram(&mut d, b"v:1:u:pc1:1:alice", &addr("10.0.0.1", 2425), &utf8_config());
    assert!(r.is_ok());
    assert_eq!(s.consecutive_errors(), 0);
    assert_eq!(d.keys_list(), vec!["alice@pc1".to_string()]);
    for _ in 0..4 {
        assert_eq!(s.on_receive_error(), ReceiveOutcome::Continue);
    }
}

#[test]
fn five_errors_are_fatal() {
    let mut s = ReceiveState::new();
    for _ in 0..4 {
        assert_eq!(s.on_receive_error(), ReceiveOutcome::Continue);
    }
    assert_eq!(s.on_receive_error(), ReceiveOutcome::Fatal);
    assert_eq!(s.consecutive_errors(), 5);
    assert_eq!(s.on_receive_error(), ReceiveOutcome::Fatal);
}

#[test]
fn undecodable_datagram_leaves_directory() {
    let mut s = ReceiveState::new();
    let mut d = Directory::new();
    s.on_receive_error();
    let r = s.on_datagram(&mut d, b"garbage", &addr("10.0.0.1", 2425), &utf8_config());
    assert!(r.is_err());
    assert_eq!(s.consecutive_errors(), 0);
    assert!(d.keys_list().is_empty());
}
