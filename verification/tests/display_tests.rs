use usniffer::display::{
    carries_tcp_stream, control_message_summary, flags_field, packet_category, packet_header_text,
    parse_flag_byte, port_fields, protocol_color, protocol_distribution, raw_data_views,
    stream_status, tcp_summary, total_bytes, traffic_series, udp_summary, arp_summary,
    PacketCategory, StreamStatus,
};
use usniffer::packet::ParsedPacket;
use usniffer::protocol::TcpStream;
use usniffer::traffic::TrafficMap;

fn packet(protocol: &str, info: &str) -> ParsedPacket {
    ParsedPacket::new(
        vec![0x41, 0x00, 0x7e],
        "12:00:00".to_string(),
        "10.0.0.1".to_string(),
        "10.0.0.2".to_string(),
        protocol.to_string(),
        64,
        info.to_string(),
    )
}

#[test]
fn categories() {
    assert_eq!(packet_category("HTTPS"), PacketCategory::Tcp);
    assert_eq!(packet_category("DNS"), PacketCategory::Udp);
    assert_eq!(packet_category("ICMP"), PacketCategory::Icmp);
    assert_eq!(packet_category("ARP"), PacketCategory::Arp);
    assert_eq!(packet_category("Other"), PacketCategory::Other);
    assert!(carries_tcp_stream("DNS"));
    assert!(carries_tcp_stream("SIP"));
    assert!(!carries_tcp_stream("UDP"));
    assert!(!carries_tcp_stream("ARP"));
}

#[test]
fn info_fields() {
    assert_eq!(
        port_fields("12345->80 ,Flags: 2, Seq: 0, Ack: 0"),
        Some(("12345".to_string(), "80".to_string()))
    );
    assert_eq!(port_fields("80->443"), None);
    assert_eq!(flags_field("1->2 ,Flags: 18, Seq: 0, Ack: 0"), Some("18".to_string()));
    assert_eq!(flags_field("1->2 ,Flags: 18"), None);
    assert_eq!(parse_flag_byte("18"), Some(18));
    assert_eq!(parse_flag_byte("256"), None);
    assert_eq!(parse_flag_byte(""), None);
}

#[test]
fn summaries() {
    assert_eq!(tcp_summary("5000->80 ,Flags: 18, Seq: 0, Ack: 1"), " (5000 -> 80, SYN|ACK)");
    assert_eq!(tcp_summary("5000->80 ,Flags: 0, Seq: 0, Ack: 1"), " (5000 -> 80)");
    assert_eq!(tcp_summary("Flags: 1, Seq: 0"), " (FIN)");
    assert_eq!(tcp_summary("nothing"), "");
    assert_eq!(udp_summary("53->1234 ,Length: 40"), " (53 -> 1234)");
    assert_eq!(udp_summary("53"), "");
    assert_eq!(
        control_message_summary("Type: IcmpType(8), Code: IcmpCode(0)"),
        " (Type: IcmpType(8),, Code: IcmpCode(0))"
    );
    assert_eq!(control_message_summary("Type: 3 only"), "");
    assert_eq!(arp_summary("aa:bb->cc:dd"), " (aa:bb -> cc:dd)");
    assert_eq!(arp_summary("none"), "");
}

#[test]
fn header_line() {
    let p = packet("UDP", "53->1234 ,Length: 40");
    assert_eq!(
        packet_header_text(7, &p),
        "No.7:[12:00:00]\t10.0.0.1 -> 10.0.0.2\tUDP\t(64 bytes)\t (53 -> 1234)\t"
    );
    let q = packet("Other", "TTL: 64, DF: No, MF: No");
    assert_eq!(
        packet_header_text(0, &q),
        "No.0:[12:00:00]\t10.0.0.1 -> 10.0.0.2\tOther\t(64 bytes)\t\t"
    );
}

#[test]
fn raw_views() {
    let (hex, ascii) = raw_data_views(&[0x41, 0x00, 0x7e]);
    assert_eq!(hex, "41 00 7e ");
    assert_eq!(ascii, "A.~");
    let bytes: Vec<u8> = (0u8..17).collect();
    let (hex, ascii) = raw_data_views(&bytes);
    assert_eq!(hex.lines().count(), 2);
    assert!(hex.ends_with("\n10 "));
    assert_eq!(ascii, "................\n.");
}

#[test]
fn status_and_colors() {
    let mut s = TcpStream::new("a".into(), 1, "b".into(), 2, packet("TCP", "1->2 ,Flags: 2"), "t".into());
    assert_eq!(stream_status(&s), StreamStatus::Connecting);
    s.handshake_complete = true;
    assert_eq!(stream_status(&s), StreamStatus::Active);
    s.teardown_started = true;
    assert_eq!(stream_status(&s), StreamStatus::Complete);
    assert_eq!(protocol_color("TCP"), (40, 80, 160, 70));
    assert_eq!(protocol_color("HTTPS"), (40, 140, 140, 70));
    assert_eq!(protocol_color("SSH"), (100, 100, 100, 70));
}

#[test]
fn distribution_and_series() {
    let mut m = TrafficMap::new();
    m.add("UDP", 50);
    m.add("TCP", 175);
    m.add("ARP", 50);
    let d = protocol_distribution(&m);
    let names: Vec<&str> = d.iter().map(|(n, _)| n.as_str()).collect();
    assert_eq!(names, vec!["TCP", "UDP", "ARP"]);
    assert_eq!(total_bytes(&d), Some(275));
    assert_eq!(total_bytes(&vec![("A".to_string(), usize::MAX), ("B".to_string(), 1)]), None);
    let history = vec![(1u64, m), (2u64, TrafficMap::new())];
    assert_eq!(traffic_series(&history, "TCP"), vec![175, 0]);
}
