use usniffer::packet::ParsedPacket;
use usniffer::protocol::{TcpStream, TH_ACK, TH_FIN, TH_SYN};
use usniffer::traffic::ProtocolAnalyzer;

#[test]
fn test_tcp_stream_creation() {
    let packet = ParsedPacket::new(
        vec![1, 2, 3],
        "12:00:00".to_string(),
        "192.168.1.1".to_string(),
        "192.168.1.2".to_string(),
        "TCP".to_string(),
        64,
        "12345->80 ,Flags: 2".to_string(),
    );

    let stream = TcpStream::new(
        "192.168.1.1".to_string(),
        12345,
        "192.168.1.2".to_string(),
        80,
        packet,
        "12:00:00".to_string(),
    );

    assert_eq!(stream.src_ip, "192.168.1.1");
    assert_eq!(stream.src_port, 12345);
    assert_eq!(stream.dst_ip, "192.168.1.2");
    assert_eq!(stream.dst_port, 80);
    assert_eq!(stream.packets.len(), 1);
}

#[test]
fn test_tcp_flags_parsing() {
    assert!(TcpStream::is_syn_packet(TH_SYN));
    assert!(!TcpStream::is_syn_packet(TH_ACK));
    assert!(TcpStream::is_syn_ack_packet(TH_SYN | TH_ACK));
    assert!(TcpStream::is_ack_packet(TH_ACK));
    assert!(TcpStream::is_fin_packet(TH_FIN));

    let flags_str = TcpStream::parse_flags(TH_SYN | TH_ACK);
    assert!(flags_str.contains("SYN"));
    assert!(flags_str.contains("ACK"));
}

#[test]
fn test_protocol_analyzer() {
    let mut analyzer = ProtocolAnalyzer::new(10);
    analyzer.add_packet("TCP", 100);
    analyzer.add_packet("UDP", 50);
    analyzer.add_packet("TCP", 75);

    let current = analyzer.get_current_traffic();
    assert_eq!(current.get("TCP"), Some(&175));
    assert_eq!(current.get("UDP"), Some(&50));
}
