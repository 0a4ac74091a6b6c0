use usniffer::traffic::{ProtocolAnalyzer, TrafficMap};

#[test]
fn traffic_map_adds_per_protocol() {
    let mut m = TrafficMap::new();
    assert!(m.is_empty());
    m.add("TCP", 10);
    m.add("TCP", 5);
    m.add("UDP", 0);
    assert_eq!(m.get("TCP"), Some(&15));
    assert_eq!(m.get("UDP"), Some(&0));
    assert_eq!(m.get("ICMP"), None);
    assert_eq!(m.len(), 2);
}

#[test]
fn seconds_roll_into_history() {
    let mut a = ProtocolAnalyzer::new(2);
    a.clear();
    let start = 1_000u64;
    let mut b = ProtocolAnalyzer::new(2);
    // a fresh analyzer starts at the clock's time; drive it from a known start
    b.add_packet_at("TCP", 1, u64::MAX / 2);
    b.add_packet_at("TCP", 100, u64::MAX / 2);
    assert_eq!(b.get_current_traffic().get("TCP"), Some(&100));
    b.add_packet_at("UDP", 7, u64::MAX / 2);
    b.add_packet_at("TCP", 3, u64::MAX / 2 + 1);
    assert_eq!(b.get_current_traffic().len(), 0);
    let last = &b.get_traffic_history()[b.get_traffic_history().len() - 1];
    assert_eq!(last.1.get("TCP"), Some(&103));
    assert_eq!(last.1.get("UDP"), Some(&7));
    let acc = b.get_accumulated_traffic();
    assert_eq!(acc.get("TCP"), Some(&104));
    assert_eq!(acc.get("UDP"), Some(&7));
    let _ = start;
    assert!(a.get_traffic_history().is_empty());
}

#[test]
fn history_keeps_its_limit() {
    let mut a = ProtocolAnalyzer::new(2);
    let t0 = u64::MAX / 2;
    for k in 0..5u64 {
        a.add_packet_at("TCP", 10, t0 + k);
        assert!(a.get_traffic_history().len() <= 2);
    }
    assert_eq!(a.get_traffic_history().len(), 2);
    let zero = ProtocolAnalyzer::new(0);
    let mut z = zero;
    z.add_packet_at("TCP", 1, t0);
    z.add_packet_at("TCP", 1, t0 + 5);
    assert!(z.get_traffic_history().is_empty());
}

#[test]
fn earlier_reading_counts_in_current_second() {
    let mut a = ProtocolAnalyzer::new(5);
    let t0 = u64::MAX / 2;
    a.add_packet_at("TCP", 4, t0);
    a.add_packet_at("TCP", 6, t0 - 10);
    assert!(a.get_traffic_history().len() <= 1);
    assert_eq!(a.get_current_traffic().get("TCP"), Some(&6));
    let before = a.get_traffic_history().len();
    a.add_packet_at("UDP", 2, 0);
    assert_eq!(a.get_traffic_history().len(), before);
    assert_eq!(a.get_current_traffic().get("UDP"), Some(&2));
}

#[test]
fn clock_packet_is_counted() {
    let mut a = ProtocolAnalyzer::new(5);
    a.add_packet("TCP", 9);
    let acc = a.get_accumulated_traffic();
    assert_eq!(acc.get("TCP"), Some(&9));
}

#[test]
fn new_at_and_clear_at_store_the_reading() {
    let mut a = ProtocolAnalyzer::new_at(3, 100);
    a.add_packet_at("TCP", 5, 100);
    a.add_packet_at("TCP", 5, 101);
    assert_eq!(a.get_traffic_history()[0].0, 100);
    a.clear_at(500);
    assert!(a.get_traffic_history().is_empty());
    assert!(a.get_current_traffic().is_empty());
    a.add_packet_at("UDP", 1, 500);
    assert!(a.get_traffic_history().is_empty());
    a.add_packet_at("UDP", 1, 502);
    assert_eq!(a.get_traffic_history()[0].0, 500);
}

#[test]
fn bytes_conserved_over_a_run_and_history_in_order() {
    let mut a = ProtocolAnalyzer::new_at(10, 1000);
    let steps = [("TCP", 10, 1000), ("UDP", 3, 1000), ("TCP", 7, 1002), ("TCP", 1, 999), ("UDP", 2, 1005)];
    for (p, n, t) in steps.iter() {
        a.add_packet_at(p, *n, *t);
    }
    let acc = a.get_accumulated_traffic();
    assert_eq!(acc.get("TCP"), Some(&18));
    assert_eq!(acc.get("UDP"), Some(&5));
    let h = a.get_traffic_history();
    assert_eq!(h.len(), 2);
    for i in 1..h.len() {
        assert!(h[i - 1].0 < h[i].0);
    }
}
