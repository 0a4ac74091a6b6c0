use usniffer::config::ProtocolConfig;

#[test]
fn test_protocol_config_tcp() {
    let config = ProtocolConfig::new();
    assert_eq!(config.get_protocol_by_port(80, true), Some("HTTP"));
    assert_eq!(config.get_protocol_by_port(443, true), Some("HTTPS"));
    assert_eq!(config.get_protocol_by_port(22, true), Some("SSH"));
}

#[test]
fn test_protocol_config_udp() {
    let config = ProtocolConfig::new();
    assert_eq!(config.get_protocol_by_port(53, false), Some("DNS"));
    assert_eq!(config.get_protocol_by_port(123, false), None); // NTP not configured
}
