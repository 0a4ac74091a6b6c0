use usniffer::packet::ParsedPacket;
use usniffer::protocol::{TcpStream, TcpStreamManager, TH_ACK, TH_FIN, TH_SYN};

fn tcp_packet(src: &str, dst: &str, info: &str) -> ParsedPacket {
    ParsedPacket::new(
        vec![0],
        "t".to_string(),
        src.to_string(),
        dst.to_string(),
        "TCP".to_string(),
        60,
        info.to_string(),
    )
}

#[test]
fn stream_key_orders_endpoints() {
    assert_eq!(
        TcpStreamManager::generate_stream_key("10.0.0.1", 5000, "10.0.0.2", 80),
        "10.0.0.1:5000-10.0.0.2:80"
    );
    assert_eq!(
        TcpStreamManager::generate_stream_key("10.0.0.2", 80, "10.0.0.1", 5000),
        "10.0.0.1:5000-10.0.0.2:80"
    );
    assert_eq!(
        TcpStreamManager::generate_stream_key("10.0.0.1", 80, "10.0.0.1", 79),
        "10.0.0.1:79-10.0.0.1:80"
    );
}

#[test]
fn flags_value_is_read_from_info() {
    assert_eq!(TcpStream::extract_flags_value("1->2 ,Flags: 18, Seq: 1, Ack: 2"), 18);
    assert_eq!(TcpStream::extract_flags_value("Flags: 17"), 17);
    assert_eq!(TcpStream::extract_flags_value("Flags: +9 rest"), 9);
    assert_eq!(TcpStream::extract_flags_value("Flags: 300, Seq"), 0);
    assert_eq!(TcpStream::extract_flags_value("no flags here"), 0);
    assert!(TcpStream::is_control_packet("1->2 ,Flags: 2"));
    assert!(!TcpStream::is_control_packet("1->2 ,Length: 8"));
}

#[test]
fn parse_flags_names_all_set_flags() {
    assert_eq!(TcpStream::parse_flags(TH_SYN | TH_ACK), "SYN,ACK");
    assert_eq!(TcpStream::parse_flags(0xff), "FIN,SYN,RST,PSH,ACK,URG,ECE,CWR");
    assert_eq!(TcpStream::parse_flags(TH_FIN), "FIN");
    assert_eq!(TcpStream::parse_flags(0), "0x00");
}

#[test]
fn flag_classes() {
    assert!(!TcpStream::is_ack_packet(TH_ACK | TH_FIN));
    assert!(!TcpStream::is_syn_packet(TH_SYN | TH_ACK));
    assert!(TcpStream::is_fin_packet(TH_FIN | TH_ACK));
}

#[test]
fn both_directions_share_a_stream_and_complete_it() {
    let mut m = TcpStreamManager::new();
    let a = "192.168.1.10";
    let b = "93.184.216.34";
    m.add_or_update_stream(&tcp_packet(a, b, "5000->80 ,Flags: 2, Seq: 0, Ack: 0"), "12:00:00".to_string());
    m.add_or_update_stream(&tcp_packet(b, a, "80->5000 ,Flags: 18, Seq: 0, Ack: 1"), "12:00:01".to_string());
    m.add_or_update_stream(&tcp_packet(a, b, "5000->80 ,Flags: 16, Seq: 1, Ack: 1"), "12:00:02".to_string());
    assert_eq!(m.get_streams().len(), 1);
    let (key, stream) = &m.get_streams()[0];
    assert_eq!(key, "192.168.1.10:5000-93.184.216.34:80");
    assert_eq!(stream.packets.len(), 3);
    assert!(stream.handshake_complete);
    assert!(!stream.teardown_started);
    assert!(m.get_complete_streams(3).is_empty());
    m.add_or_update_stream(&tcp_packet(b, a, "80->5000 ,Flags: 17, Seq: 1, Ack: 1"), "12:00:03".to_string());
    let complete = m.get_complete_streams(3);
    assert_eq!(complete.len(), 1);
    assert_eq!(complete[0].1.last_activity, "12:00:03");
    m.clear();
    assert!(m.get_streams().is_empty());
}

#[test]
fn first_ack_counts_as_handshake_and_no_ports_no_stream() {
    let mut m = TcpStreamManager::new();
    m.add_or_update_stream(&tcp_packet("1.1.1.1", "2.2.2.2", "10->20 ,Flags: 16, Seq: 0, Ack: 0"), "t".to_string());
    assert!(m.get_streams()[0].1.handshake_complete);
    m.add_or_update_stream(&tcp_packet("1.1.1.1", "2.2.2.2", "no ports"), "t".to_string());
    m.add_or_update_stream(&tcp_packet("1.1.1.1", "2.2.2.2", "x->20 ,Flags: 16"), "t".to_string());
    assert_eq!(m.get_streams().len(), 1);
    assert_eq!(m.get_streams()[0].1.packets.len(), 1);
}

#[test]
fn complete_streams_most_recent_first_and_limited() {
    let mut m = TcpStreamManager::new();
    for (port, time) in [(1u16, "12:00:05"), (2, "12:00:09"), (3, "12:00:01")] {
        let info = format!("{}->80 ,Flags: 16, Seq: 0, Ack: 0", port);
        m.add_or_update_stream(&tcp_packet("1.1.1.1", "2.2.2.2", &info), time.to_string());
        let fin = format!("{}->80 ,Flags: 1, Seq: 0, Ack: 0", port);
        m.add_or_update_stream(&tcp_packet("1.1.1.1", "2.2.2.2", &fin), time.to_string());
    }
    let all = m.get_complete_streams(10);
    let times: Vec<&str> = all.iter().map(|(_, s)| s.last_activity.as_str()).collect();
    assert_eq!(times, vec!["12:00:09", "12:00:05", "12:00:01"]);
    let top = m.get_complete_streams(2);
    assert_eq!(top.len(), 2);
    assert_eq!(top[0].0, "1.1.1.1:2-2.2.2.2:80");
}

#[test]
fn syn_reopens_handshake_and_fin_starts_teardown() {
    let p = tcp_packet("1.1.1.1", "2.2.2.2", "1->2 ,Flags: 2");
    let mut s = TcpStream::new("1.1.1.1".into(), 1, "2.2.2.2".into(), 2, p, "t".into());
    s.update_handshake_status(TH_ACK);
    assert!(s.handshake_complete);
    s.update_handshake_status(TH_FIN);
    assert!(s.teardown_started);
    s.update_handshake_status(TH_SYN);
    assert!(!s.handshake_complete);
    assert!(s.teardown_started);
}

#[test]
fn flag_texts_differ_for_different_bytes() {
    let texts: Vec<String> = (0..=255u8).map(TcpStream::parse_flags).collect();
    for a in 0..256usize {
        for b in (a + 1)..256usize {
            assert_ne!(texts[a], texts[b]);
        }
    }
}

#[test]
fn each_ported_packet_is_held_once_under_its_own_key() {
    let mut m = TcpStreamManager::new();
    let infos = [
        ("10.0.0.1", "10.0.0.2", "5000->80 ,Flags: 2, Seq: 1, Ack: 0"),
        ("10.0.0.2", "10.0.0.1", "80->5000 ,Flags: 18, Seq: 1, Ack: 2"),
        ("10.0.0.3", "10.0.0.2", "no ports here"),
        ("10.0.0.3", "10.0.0.2", "6000->53 ,Length: 30"),
        ("10.0.0.1", "10.0.0.2", "5000->80 ,Flags: 16, Seq: 2, Ack: 2"),
    ];
    for (src, dst, info) in infos.iter() {
        m.add_or_update_stream(&tcp_packet(src, dst, info), "t".to_string());
    }
    let streams = m.get_streams();
    let total: usize = streams.iter().map(|(_, s)| s.packets.len()).sum();
    assert_eq!(total, 4);
    assert_eq!(streams.len(), 2);
    for (k, s) in streams.iter() {
        assert_eq!(
            *k,
            TcpStreamManager::generate_stream_key(&s.src_ip, s.src_port, &s.dst_ip, s.dst_port)
        );
        assert_eq!(s.packets[0].src_ip, s.src_ip);
        assert_eq!(s.packets[0].dst_ip, s.dst_ip);
    }
}
