use lanmsg::{AppConfig, EncodingConfig, TextEncoding};

#[test]
fn default_config_values() {
    let config = AppConfig::default();
    assert_eq!(config.network.port, 2425);
    assert_eq!(config.network.bind_ip, "0.0.0.0");
    assert_eq!(config.network.broadcast_ip, "255.255.255.255");
    assert_eq!(config.network.timeout_secs, 3);
    assert_eq!(config.user.name, "anonymous");
    assert_eq!(config.user.host, "localhost");
    assert_eq!(config.user.group, "group");
    assert!(!config.user.auto_login);
    assert_eq!(config.debug.log_level, "info");
    assert!(!config.debug.dump_packets);
    assert_eq!(config.encoding.protocol, "gbk");
    assert_eq!(config.encoding.display, "utf-8");
}

#[test]
fn bind_and_broadcast_addresses() {
    let mut config = AppConfig::default();
    assert_eq!(config.bind_addr(), "0.0.0.0:2425");
    assert_eq!(config.broadcast_addr(), "255.255.255.255:2425");
    config.network.port = 0;
    config.network.bind_ip = "192.168.1.100".to_string();
    assert_eq!(config.bind_addr(), "192.168.1.100:0");
    config.network.port = 65535;
    assert_eq!(config.broadcast_addr(), "255.255.255.255:65535");
}

#[test]
fn protocol_encoding_selection() {
    let gbk = EncodingConfig { protocol: "gbk".into(), display: "utf-8".into() };
    assert_eq!(gbk.protocol_encoding(), TextEncoding::Gbk);
    let utf8 = EncodingConfig { protocol: "utf-8".into(), display: "utf-8".into() };
    assert_eq!(utf8.protocol_encoding(), TextEncoding::Utf8);
    let other = EncodingConfig { protocol: "GBK".into(), display: "utf-8".into() };
    assert_eq!(other.protocol_encoding(), TextEncoding::Utf8);
}

#[test]
fn network_validity_bounds() {
    let mut net = AppConfig::default().network;
    assert!(net.is_valid_with(true, true));
    assert!(!net.is_valid_with(false, true));
    assert!(!net.is_valid_with(true, false));
    net.port = 1024;
    assert!(!net.is_valid_with(true, true));
    net.port = 1025;
    assert!(net.is_valid_with(true, true));
    net.port = 65534;
    assert!(net.is_valid_with(true, true));
    net.port = 65535;
    assert!(!net.is_valid_with(true, true));
}
