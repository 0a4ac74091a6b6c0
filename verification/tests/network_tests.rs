use usniffer::network::{InterfaceManager, InterfaceSummary};

fn iface(name: &str, has_ipv4: bool, is_loopback: bool, up: bool) -> InterfaceSummary {
    InterfaceSummary {
        name: name.to_string(),
        has_ipv4,
        is_loopback,
        is_running: up,
        is_up: up,
    }
}

#[test]
fn only_live_ipv4_non_loopback_interfaces() {
    let all = vec![
        iface("lo", true, true, true),
        iface("eth0", true, false, true),
        iface("wlan0", false, false, true),
        iface("eth1", true, false, false),
        iface("eth2", true, false, true),
    ];
    assert_eq!(InterfaceManager::capturable_interfaces(&all), vec![1, 4]);
    assert_eq!(InterfaceManager::find_interface_by_name(&all, "eth2"), Some(4));
    assert_eq!(InterfaceManager::find_interface_by_name(&all, "lo"), None);
    assert_eq!(InterfaceManager::find_interface_by_name(&all, "none"), None);
}

#[test]
fn interface_by_index_counts_capturable_ones() {
    let all = vec![
        iface("lo", true, true, true),
        iface("eth0", true, false, true),
        iface("wlan0", false, false, true),
        iface("eth2", true, false, true),
    ];
    assert_eq!(InterfaceManager::get_interface_by_index(&all, 0), Some(1));
    assert_eq!(InterfaceManager::get_interface_by_index(&all, 1), Some(3));
    assert_eq!(InterfaceManager::get_interface_by_index(&all, 2), None);
}
