//! Protocol configuration: the services known by their well-known ports.

use std::collections::HashMap;
use vstd::prelude::*;

verus! {

broadcast use vstd::std_specs::hash::group_hash_axioms;

/// The service of a well-known port, for TCP and UDP alike.
pub open spec fn well_known_service(port: u16) -> Option<Seq<char>> {
    if port == 80 {
        Some("HTTP"@)
    } else if port == 443 {
        Some("HTTPS"@)
    } else if port == 53 {
        Some("DNS"@)
    } else if port == 21 {
        Some("FTP"@)
    } else if port == 22 {
        Some("SSH"@)
    } else if port == 23 {
        Some("Telnet"@)
    } else if port == 25 {
        Some("SMTP"@)
    } else if port == 110 {
        Some("POP3"@)
    } else if port == 143 {
        Some("IMAP"@)
    } else if port == 3389 {
        Some("RDP"@)
    } else if port == 5060 {
        Some("SIP"@)
    } else if port == 8080 {
        Some("HTTP"@)
    } else {
        None
    }
}

/// `m` maps exactly the well-known ports, each to its service.
pub open spec fn holds_well_known_services(m: Map<u16, &'static str>) -> bool {
    forall|port: u16|
        (#[trigger] m.contains_key(port) <==> well_known_service(port) is Some) && (m.contains_key(
            port,
        ) ==> m[port]@ == well_known_service(port)->0)
}

/// What a port table gives for `port`.
pub open spec fn port_lookup(m: Map<u16, &'static str>, port: u16) -> Option<Seq<char>> {
    if m.contains_key(port) {
        Some(m[port]@)
    } else {
        None
    }
}

/// Protocol configuration mapping well-known ports to protocol names
#[derive(Debug, Clone)]
pub struct ProtocolConfig {
    pub tcp_ports: HashMap<u16, &'static str>,
    pub udp_ports: HashMap<u16, &'static str>,
}

/// The table of well-known ports.
fn well_known_table() -> (m: HashMap<u16, &'static str>)
    ensures
        holds_well_known_services(m@),
{
    let mut m: HashMap<u16, &'static str> = HashMap::new();
    m.insert(80, "HTTP");
    m.insert(443, "HTTPS");
    m.insert(53, "DNS");
    m.insert(21, "FTP");
    m.insert(22, "SSH");
    m.insert(23, "Telnet");
    m.insert(25, "SMTP");
    m.insert(110, "POP3");
    m.insert(143, "IMAP");
    m.insert(3389, "RDP");
    m.insert(5060, "SIP");
    m.insert(8080, "HTTP");  // Alternative HTTP port
    m
}

impl ProtocolConfig {
    pub fn new() -> (r: Self)
        ensures
            holds_well_known_services(r.tcp_ports@),
            holds_well_known_services(r.udp_ports@),
    {
        let tcp_ports = well_known_table();
        let udp_ports = well_known_table();
        Self { tcp_ports, udp_ports }
    }

    pub fn get_protocol_by_port(&self, port: u16, is_tcp: bool) -> (r: Option<&'static str>)
        ensures
            match r {
                Some(s) => port_lookup(
                    if is_tcp {
                        self.tcp_ports@
                    } else {
                        self.udp_ports@
                    },
                    port,
                ) == Some(s@),
                None => port_lookup(
                    if is_tcp {
                        self.tcp_ports@
                    } else {
                        self.udp_ports@
                    },
                    port,
                ) is None,
            },
    {
        let found = if is_tcp {
            self.tcp_ports.get(&port)
        } else {
            self.udp_ports.get(&port)
        };
        match found {
            Some(s) => Some(*s),
            None => None,
        }
    }
}

impl Default for ProtocolConfig {
    fn default() -> (r: Self)
        ensures
            holds_well_known_services(r.tcp_ports@),
            holds_well_known_services(r.udp_ports@),
    {
        Self::new()
    }
}

/// Seconds of traffic history the statistics keep.
pub const TRAFFIC_HISTORY_LIMIT: usize = 60;

/// Complete TCP streams the stream panel shows.
pub const TCP_STREAM_DISPLAY_LIMIT: usize = 3;

} // verus!
