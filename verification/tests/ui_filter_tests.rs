use usniffer::packet::ParsedPacket;
use usniffer::session::{
    capture_command, pause_capture, record_packet, start_capture, stop_capture, CaptureCommand,
};
use usniffer::protocol::TcpStreamManager;
use usniffer::traffic::ProtocolAnalyzer;
use usniffer::ui::{passes_lowered_texts, UIState};

fn packet(src: &str, protocol: &str, info: &str) -> ParsedPacket {
    ParsedPacket::new(
        vec![1],
        "t".to_string(),
        src.to_string(),
        "10.0.0.9".to_string(),
        protocol.to_string(),
        10,
        info.to_string(),
    )
}

#[test]
fn filters_compare_in_lower_case() {
    let mut s = UIState::new();
    s.packets.push(packet("host-ABC", "TCP", "1->2 ,Flags: 2"));
    s.packets.push(packet("other", "UDP", "53->9 ,Length: 8"));
    s.ip_port_filter = "abc".to_string();
    let f = s.get_filtered_packets();
    assert_eq!(f.len(), 1);
    assert_eq!(f[0].0, 0);
    s.ip_port_filter = "ABC".to_string();
    assert_eq!(s.get_filtered_packets().len(), 1);
    s.ip_port_filter.clear();
    s.port_filter = "LENGTH".to_string();
    let f = s.get_filtered_packets();
    assert_eq!(f.len(), 1);
    assert_eq!(f[0].0, 1);
    s.port_filter.clear();
    assert_eq!(s.get_filtered_packets().len(), 2);
    s.clear();
    assert_eq!(s.protocol_filter, "All");
    assert!(s.get_filtered_packets().is_empty());
}

#[test]
fn lowered_filter_decision() {
    assert!(passes_lowered_texts("All", "TCP", None, "a", "b", None, "x"));
    assert!(!passes_lowered_texts("UDP", "TCP", None, "a", "b", None, "x"));
    assert!(passes_lowered_texts("TCP", "TCP", Some("b"), "a", "b", None, "x"));
    assert!(!passes_lowered_texts("All", "TCP", Some("c"), "a", "b", None, "x"));
    assert!(!passes_lowered_texts("All", "TCP", None, "a", "b", Some("y"), "x"));
}

#[test]
fn session_records_and_stops() {
    let mut ui = UIState::new();
    let mut analyzer = ProtocolAnalyzer::new(60);
    let mut streams = TcpStreamManager::new();
    record_packet(&mut ui, &mut analyzer, &mut streams, packet("1.1.1.1", "HTTP", "5000->80 ,Flags: 2, Seq: 0, Ack: 0"), "t".to_string());
    record_packet(&mut ui, &mut analyzer, &mut streams, packet("1.1.1.1", "ARP", "aa->bb"), "t".to_string());
    assert_eq!(ui.packets.len(), 2);
    assert_eq!(streams.get_streams().len(), 1);
    ui.loading = true;
    stop_capture(&mut ui, &mut analyzer, &mut streams);
    assert!(!ui.loading);
    assert!(ui.packets.is_empty());
    assert!(streams.get_streams().is_empty());
    assert!(analyzer.get_current_traffic().is_empty());
    assert_eq!(capture_command(true, false), CaptureCommand::Start);
    assert_eq!(capture_command(false, true), CaptureCommand::Stop);
    assert_eq!(capture_command(true, true), CaptureCommand::Keep);
    assert_eq!(capture_command(false, false), CaptureCommand::Keep);
}

#[test]
fn start_and_pause_keep_what_was_captured() {
    let mut s = UIState::new();
    s.packets.push(packet("a", "TCP", "1->2 ,Flags: 2"));
    s.port_filter = "x".to_string();
    start_capture(&mut s);
    assert!(s.loading);
    start_capture(&mut s);
    assert!(s.loading);
    pause_capture(&mut s);
    assert!(!s.loading);
    assert_eq!(s.packets.len(), 1);
    assert_eq!(s.port_filter, "x");
}
