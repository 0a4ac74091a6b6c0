use usniffer::packet::ParsedPacket;

#[test]
fn test_parsed_packet_creation() {
    let packet = ParsedPacket::new(
        vec![1, 2, 3],
        "12:00:00".to_string(),
        "192.168.1.1".to_string(),
        "192.168.1.2".to_string(),
        "TCP".to_string(),
        64,
        "80->443".to_string(),
    );

    assert_eq!(packet.protocol, "TCP");
    assert_eq!(packet.length, 64);
    assert_eq!(packet.info, "80->443");
}
