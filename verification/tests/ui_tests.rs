use usniffer::packet::ParsedPacket;
use usniffer::ui::UIState;

#[test]
fn test_ui_state_creation() {
    let ui_state = UIState::new();
    assert_eq!(ui_state.protocol_filter, "All");
    assert_eq!(ui_state.packets.len(), 0);
    assert!(!ui_state.loading);
}

#[test]
fn test_ui_state_filtering() {
    let mut ui_state = UIState::new();

    let packet1 = ParsedPacket::new(
        vec![1, 2, 3],
        "12:00:00".to_string(),
        "192.168.1.1".to_string(),
        "192.168.1.2".to_string(),
        "TCP".to_string(),
        64,
        "80->443".to_string(),
    );

    let packet2 = ParsedPacket::new(
        vec![4, 5, 6],
        "12:00:01".to_string(),
        "192.168.1.3".to_string(),
        "192.168.1.4".to_string(),
        "UDP".to_string(),
        32,
        "53->12345".to_string(),
    );

    ui_state.packets.push(packet1);
    ui_state.packets.push(packet2);

    // Test protocol filter
    ui_state.protocol_filter = "TCP".to_string();
    let filtered = ui_state.get_filtered_packets();
    assert_eq!(filtered.len(), 1);
    assert_eq!(filtered[0].1.protocol, "TCP");

    // Test IP filter
    ui_state.protocol_filter = "All".to_string();
    ui_state.ip_port_filter = "192.168.1.3".to_string();
    let filtered = ui_state.get_filtered_packets();
    assert_eq!(filtered.len(), 1);
    assert_eq!(filtered[0].1.src_ip, "192.168.1.3");
}
