use usniffer::config::ProtocolConfig;
use usniffer::packet::PacketParser;

fn ethernet(ethertype: [u8; 2], payload: &[u8]) -> Vec<u8> {
    let mut f = vec![0x11, 0x22, 0x33, 0x44, 0x55, 0x66, 0xaa, 0xbb, 0xcc, 0xdd, 0xee, 0xff];
    f.extend_from_slice(&ethertype);
    f.extend_from_slice(payload);
    f
}

fn ipv4(protocol: u8, src: [u8; 4], dst: [u8; 4], flags_byte: u8, ttl: u8, body: &[u8]) -> Vec<u8> {
    let total = (20 + body.len()) as u16;
    let mut p = vec![0x45, 0, (total >> 8) as u8, total as u8, 0, 0, flags_byte, 0, ttl, protocol, 0, 0];
    p.extend_from_slice(&src);
    p.extend_from_slice(&dst);
    p.extend_from_slice(body);
    p
}

fn tcp(src: u16, dst: u16, seq: u32, ack: u32, flags: u8) -> Vec<u8> {
    let mut t = Vec::new();
    t.extend_from_slice(&src.to_be_bytes());
    t.extend_from_slice(&dst.to_be_bytes());
    t.extend_from_slice(&seq.to_be_bytes());
    t.extend_from_slice(&ack.to_be_bytes());
    t.push(0x50);
    t.push(flags);
    t.extend_from_slice(&[0, 0, 0, 0, 0, 0]);
    t
}

#[test]
fn parses_tcp_segment_with_service_name() {
    let parser = PacketParser::default();
    let frame = ethernet(
        [0x08, 0x00],
        &ipv4(6, [192, 168, 1, 1], [93, 184, 216, 34], 0x40, 64, &tcp(12345, 80, 1, 2, 0x12)),
    );
    let p = parser.parse_packet(&frame, "12:00:00").unwrap();
    assert_eq!(p.src_ip, "192.168.1.1");
    assert_eq!(p.dst_ip, "93.184.216.34");
    assert_eq!(p.protocol, "HTTP");
    assert_eq!(p.info, "12345->80 ,Flags: 18, Seq: 1, Ack: 2");
    assert_eq!(p.time, "12:00:00");
    assert_eq!(p.length, frame.len());
    assert_eq!(p.raw, frame);
}

#[test]
fn tcp_service_named_by_source_port_when_destination_unknown() {
    let parser = PacketParser::new(ProtocolConfig::new());
    let frame = ethernet(
        [0x08, 0x00],
        &ipv4(6, [10, 0, 0, 2], [10, 0, 0, 9], 0, 64, &tcp(22, 50000, 4294967295, 0, 0x10)),
    );
    let p = parser.parse_packet(&frame, "t").unwrap();
    assert_eq!(p.protocol, "SSH");
    assert_eq!(p.info, "22->50000 ,Flags: 16, Seq: 4294967295, Ack: 0");
}

#[test]
fn unknown_tcp_ports_give_tcp() {
    let parser = PacketParser::default();
    let frame = ethernet(
        [0x08, 0x00],
        &ipv4(6, [10, 0, 0, 2], [10, 0, 0, 9], 0, 64, &tcp(40000, 40001, 7, 8, 0x02)),
    );
    assert_eq!(parser.parse_packet(&frame, "t").unwrap().protocol, "TCP");
}

#[test]
fn parses_udp_datagram() {
    let parser = PacketParser::default();
    let udp = [0x30, 0x39, 0x00, 0x35, 0x00, 0x10, 0, 0, 1, 2, 3, 4, 5, 6, 7, 8];
    let frame = ethernet([0x08, 0x00], &ipv4(17, [10, 0, 0, 1], [8, 8, 8, 8], 0, 64, &udp));
    let p = parser.parse_packet(&frame, "t").unwrap();
    assert_eq!(p.protocol, "DNS");
    assert_eq!(p.info, "12345->53 ,Length: 16");
    assert_eq!(p.dst_ip, "8.8.8.8");
}

#[test]
fn parses_icmp_message() {
    let parser = PacketParser::default();
    let icmp = [8, 0, 0xf7, 0xff, 0, 0, 0, 0];
    let frame = ethernet([0x08, 0x00], &ipv4(1, [10, 0, 0, 1], [10, 0, 0, 2], 0, 64, &icmp));
    let p = parser.parse_packet(&frame, "t").unwrap();
    assert_eq!(p.protocol, "ICMP");
    assert_eq!(p.info, "Type: IcmpType(8), Code: IcmpCode(0)");
}

#[test]
fn other_ip_protocol_reports_ttl_and_fragment_flags() {
    let parser = PacketParser::default();
    let frame = ethernet([0x08, 0x00], &ipv4(47, [1, 2, 3, 4], [5, 6, 7, 8], 0x40, 128, &[0; 4]));
    let p = parser.parse_packet(&frame, "t").unwrap();
    assert_eq!(p.protocol, "Other");
    assert_eq!(p.info, "TTL: 128, DF: Yes, MF: No");
    let frame = ethernet([0x08, 0x00], &ipv4(47, [1, 2, 3, 4], [5, 6, 7, 8], 0x20, 1, &[0; 4]));
    assert_eq!(parser.parse_packet(&frame, "t").unwrap().info, "TTL: 1, DF: No, MF: Yes");
}

#[test]
fn parses_arp_packet() {
    let parser = PacketParser::default();
    let arp = [
        0, 1, 8, 0, 6, 4, 0, 1, 0xde, 0xad, 0xbe, 0xef, 0x00, 0x01, 192, 168, 0, 1, 0, 0, 0, 0, 0,
        0x0a, 192, 168, 0, 254,
    ];
    let frame = ethernet([0x08, 0x06], &arp);
    let p = parser.parse_packet(&frame, "t").unwrap();
    assert_eq!(p.protocol, "ARP");
    assert_eq!(p.src_ip, "192.168.0.1");
    assert_eq!(p.dst_ip, "192.168.0.254");
    assert_eq!(p.info, "de:ad:be:ef:00:01->00:00:00:00:00:0a");
}

#[test]
fn rejects_short_or_unknown_frames() {
    let parser = PacketParser::default();
    assert!(parser.parse_packet(&[0u8; 13], "t").is_none());
    assert!(parser.parse_packet(&ethernet([0x86, 0xdd], &[0; 40]), "t").is_none());
    assert!(parser.parse_packet(&ethernet([0x08, 0x06], &[0; 27]), "t").is_none());
    assert!(parser.parse_packet(&ethernet([0x08, 0x00], &[0x45; 19]), "t").is_none());
    let truncated = ipv4(6, [1, 1, 1, 1], [2, 2, 2, 2], 0, 64, &[0; 10]);
    assert!(parser.parse_packet(&ethernet([0x08, 0x00], &truncated), "t").is_none());
}
