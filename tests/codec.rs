use lanmsg::commands;
use lanmsg::protocol::extract_string_part;
use lanmsg::{AppConfig, DecodeError, EncodingConfig, IpMsgPacket};

fn config_with(protocol: &str) -> AppConfig {
    AppConfig {
        encoding: EncodingConfig { protocol: protocol.into(), display: "utf-8".into() },
        ..Default::default()
    }
}

fn packet(host: &str, command: u32, name: &str, group: &str, msg: &str) -> IpMsgPacket {
    IpMsgPacket {
        version: "lanMsg 0.1".to_string(),
        packet_no: 100,
        sender_user: String::new(),
        sender_host: host.to_string(),
        command,
        sender_name: name.to_string(),
        group_name: group.to_string(),
        additional_msg: msg.to_string(),
    }
}

#[test]
fn test_extract_string() {
    let config = AppConfig {
        encoding: EncodingConfig { protocol: "gbk".into(), display: "utf-8".into() },
        ..Default::default()
    };

    let data = b"1:12345:pc-usr:DESKTOP-ABC:0:\xd5\xc5\xc8\xfd\x00\xbf\xaa\xb7\xa2\xd7\xe9\x00";

    let packet = IpMsgPacket::decode_with_config(data, &config).unwrap();

    assert_eq!(packet.version, "1");
    assert_eq!(packet.packet_no, 12345);
    assert_eq!(packet.sender_user, "pc-usr");
    assert_eq!(packet.sender_host, "DESKTOP-ABC");
    assert_eq!(packet.command, 0);
    assert_eq!(packet.sender_name, "张三");
    assert_eq!(packet.group_name, "开发组");
}

#[test]
fn gbk_group_packet_has_empty_message() {
    let config = config_with("gbk");
    let data = b"1:12345:pc-usr:DESKTOP-ABC:0:\xd5\xc5\xc8\xfd\x00\xbf\xaa\xb7\xa2\xd7\xe9\x00";
    let packet = IpMsgPacket::decode_with_config(data, &config).unwrap();
    assert_eq!(packet.additional_msg, "");
}

#[test]
fn utf8_message_packet_keeps_command_and_host() {
    let config = config_with("utf-8");
    let p = packet("PC-1", commands::MSG, "Alice", "", "Hello");
    let bytes = p.encode_with_config(&config);
    assert_eq!(bytes, b"lanMsg 0.1:100:aaMsg:PC-1:32:Hello".to_vec());
    let q = IpMsgPacket::decode_with_config(&bytes, &config).unwrap();
    assert_eq!(q.command, 0x20);
    assert_eq!(q.sender_host, "PC-1");
    assert_eq!(q.packet_no, 100);
    assert_eq!(q.sender_user, "aaMsg");
    // The message is the last field, read as the first NUL-separated piece.
    assert_eq!(q.sender_name, "Hello");
    assert_eq!(q.additional_msg, "");
}

#[test]
fn round_trip_without_message() {
    for protocol in ["utf-8", "gbk"] {
        let config = config_with(protocol);
        let p = packet("PC-1", commands::BR_ENTRY, "Alice", "", "");
        let q = IpMsgPacket::decode_with_config(&p.encode_with_config(&config), &config).unwrap();
        assert_eq!(q.packet_no, p.packet_no);
        assert_eq!(q.command, p.command);
        assert_eq!(q.sender_host, p.sender_host);
        assert_eq!(q.additional_msg, p.additional_msg);
    }
}

#[test]
fn gbk_encoding_of_group_packet() {
    let config = config_with("gbk");
    let p = packet("PC", commands::BR_ENTRY, "张三", "开发组", "ignored");
    let bytes = p.encode_with_config(&config);
    let mut expected = b"lanMsg 0.1:100:aaMsg:PC:1:".to_vec();
    expected.extend_from_slice(b"\xd5\xc5\xc8\xfd\x00\xbf\xaa\xb7\xa2\xd7\xe9");
    assert_eq!(bytes, expected);
    let q = IpMsgPacket::decode_with_config(&bytes, &config).unwrap();
    assert_eq!(q.sender_name, "张三");
    assert_eq!(q.group_name, "开发组");
    assert_eq!(q.additional_msg, "");
}

#[test]
fn utf8_encoding_of_group_packet() {
    let config = config_with("something-else");
    let p = packet("PC", commands::BR_ENTRY, "Bob", "team", "ignored");
    assert_eq!(p.encode_with_config(&config), b"lanMsg 0.1:100:aaMsg:PC:1:Bob\x00team".to_vec());
}

#[test]
fn plain_encode_uses_sender_name() {
    let p = packet("PC-1", commands::MSG, "Alice", "", "Hello");
    assert_eq!(p.encode(), "lanMsg 0.1:100:Alice:PC-1:32:Hello");
}

#[test]
fn fallback_defaults_numbers_to_zero() {
    let config = config_with("utf-8");
    let data = b"1:abc:u:h:xyz:msg\xff\x00junk";
    let q = IpMsgPacket::decode_with_config(data, &config).unwrap();
    assert_eq!(q.version, "1");
    assert_eq!(q.packet_no, 0);
    assert_eq!(q.command, 0);
    assert_eq!(q.sender_user, "u");
    assert_eq!(q.sender_host, "h");
    assert_eq!(q.sender_name, "msg");
    assert_eq!(q.group_name, "");
    assert_eq!(q.additional_msg, "");
}

#[test]
fn fallback_keeps_readable_numbers() {
    let config = config_with("utf-8");
    let q = IpMsgPacket::decode_with_config(b"1:100:u:h:32:hi\xc3", &config).unwrap();
    assert_eq!(q.packet_no, 100);
    assert_eq!(q.command, 32);
    assert_eq!(q.sender_name, "hi");
}

#[test]
fn fallback_needs_six_fields() {
    let config = config_with("utf-8");
    assert_eq!(
        IpMsgPacket::decode_with_config(b"1:2:3:4\xff:5:6", &config).unwrap_err(),
        DecodeError::MalformedPacket
    );
}

#[test]
fn strict_path_rejects_bad_number() {
    let config = config_with("utf-8");
    assert_eq!(
        IpMsgPacket::decode_with_config(b"1:abc:u:h:32:x", &config).unwrap_err(),
        DecodeError::MalformedPacket
    );
    assert_eq!(
        IpMsgPacket::decode_with_config(b"1:4294967296:u:h:32:x", &config).unwrap_err(),
        DecodeError::MalformedPacket
    );
}

#[test]
fn strict_path_rejects_too_few_fields() {
    let config = config_with("utf-8");
    assert_eq!(
        IpMsgPacket::decode_with_config(b"1:2:3", &config).unwrap_err(),
        DecodeError::MalformedPacket
    );
    assert_eq!(
        IpMsgPacket::decode_with_config(b"", &config).unwrap_err(),
        DecodeError::MalformedPacket
    );
}

#[test]
fn strict_path_trims_whitespace_and_accepts_plus() {
    let config = config_with("utf-8");
    let q = IpMsgPacket::decode_with_config(b"  1:+7:u:h:4294967295:a\x00b\x00c\x00d \n", &config).unwrap();
    assert_eq!(q.version, "1");
    assert_eq!(q.packet_no, 7);
    assert_eq!(q.command, 4294967295);
    assert_eq!(q.sender_name, "a");
    assert_eq!(q.group_name, "b");
    assert_eq!(q.additional_msg, "c");
}

#[test]
fn extra_colons_are_dropped_from_tail() {
    let q = IpMsgPacket::parse_packet_str("1:2:u:h:3:a:b").unwrap();
    assert_eq!(q.sender_name, "a");
}

#[test]
fn gbk_fallback_stops_at_control_character() {
    let config = config_with("gbk");
    let q = IpMsgPacket::decode_with_config(b"1:5:u:h:x:ab\x01cd\x81", &config).unwrap();
    assert_eq!(q.packet_no, 5);
    assert_eq!(q.command, 0);
    assert_eq!(q.sender_name, "ab");
}

#[test]
fn extract_printable_prefix() {
    assert_eq!(extract_string_part(b" 1:100:Alice:PC-1:32:Hello \x00\x01"), "1:100:Alice:PC-1:32:Hello");
    assert_eq!(extract_string_part(b"Text\xFFMore"), "Text");
    assert_eq!(extract_string_part(b""), "");
}

#[test]
fn decode_fallback_reads_zero_for_bad_numbers() {
    let q = IpMsgPacket::decode_fallback("v:x:u:h:y:tail").unwrap();
    assert_eq!(q.packet_no, 0);
    assert_eq!(q.command, 0);
    assert_eq!(q.sender_name, "tail");
    assert!(IpMsgPacket::decode_fallback("v:1:u:h:2").is_err());
}

#[test]
fn default_packet() {
    let p = IpMsgPacket::default();
    assert_eq!(p.version, "lanMsg 0.1");
    assert_eq!(p.sender_user, "default_user");
    assert_eq!(p.packet_no, 0);
    assert_eq!(p.command, 0);
    assert!(p.sender_name.is_empty() && p.group_name.is_empty() && p.additional_msg.is_empty());
}
