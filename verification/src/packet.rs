//! Captured packets and the parser that turns raw Ethernet frames into
//! them.

use vstd::prelude::*;

use crate::config::{holds_well_known_services, port_lookup, ProtocolConfig};
use crate::text::{decimal, decimal_u8, hex_byte, push_decimal_u8, push_char, push_decimal, push_hex_byte};
use crate::wire::{
    be16, be32, ipv4_payload, read_arp, read_ethernet, read_icmp, read_ipv4, read_tcp, read_udp,
    ETHERTYPE_ARP, ETHERTYPE_IPV4, IP_PROTOCOL_ICMP, IP_PROTOCOL_TCP, IP_PROTOCOL_UDP,
};

verus! {

broadcast use vstd::string::group_string_axioms;

/// What a parsed packet holds, as plain values.
pub struct PacketView {
    pub raw: Seq<u8>,
    pub time: Seq<char>,
    pub src_ip: Seq<char>,
    pub dst_ip: Seq<char>,
    pub protocol: Seq<char>,
    pub length: usize,
    pub info: Seq<char>,
}

/// Parsed packet information.
#[derive(Debug)]
pub struct ParsedPacket {
    pub raw: Vec<u8>,
    pub time: String,
    pub src_ip: String,
    pub dst_ip: String,
    pub protocol: String,
    pub length: usize,
    pub info: String,
}

impl View for ParsedPacket {
    type V = PacketView;

    open spec fn view(&self) -> PacketView {
        PacketView {
            raw: self.raw@,
            time: self.time@,
            src_ip: self.src_ip@,
            dst_ip: self.dst_ip@,
            protocol: self.protocol@,
            length: self.length,
            info: self.info@,
        }
    }
}

impl Clone for ParsedPacket {
    fn clone(&self) -> (r: Self)
        ensures
            r@ == self@,
    {
        let raw = self.raw.clone();
        assert(raw@ =~= self.raw@);
        ParsedPacket {
            raw,
            time: self.time.clone(),
            src_ip: self.src_ip.clone(),
            dst_ip: self.dst_ip.clone(),
            protocol: self.protocol.clone(),
            length: self.length,
            info: self.info.clone(),
        }
    }
}

impl ParsedPacket {
    pub fn new(
        raw: Vec<u8>,
        time: String,
        src_ip: String,
        dst_ip: String,
        protocol: String,
        length: usize,
        info: String,
    ) -> (r: Self)
        ensures
            r.raw == raw,
            r.time == time,
            r.src_ip == src_ip,
            r.dst_ip == dst_ip,
            r.protocol == protocol,
            r.length == length,
            r.info == info,
    {
        ParsedPacket { raw, time, src_ip, dst_ip, protocol, length, info }
    }
}


// ---------------------------------------------------------------------
// Text of header fields
// ---------------------------------------------------------------------

/// An IPv4 address in dotted-decimal form (the `Display` of `Ipv4Addr`).
pub open spec fn dotted_quad(a: Seq<u8>) -> Seq<char> {
    decimal(a[0] as nat) + seq!['.'] + decimal(a[1] as nat) + seq!['.'] + decimal(a[2] as nat)
        + seq!['.'] + decimal(a[3] as nat)
}

/// A MAC address as six colon-separated lower-case hex pairs (the `Display`
/// of `MacAddr`).
pub open spec fn mac_text(m: Seq<u8>) -> Seq<char> {
    hex_byte(m[0]) + seq![':'] + hex_byte(m[1]) + seq![':'] + hex_byte(m[2]) + seq![':']
        + hex_byte(m[3]) + seq![':'] + hex_byte(m[4]) + seq![':'] + hex_byte(m[5])
}

pub open spec fn yes_no(b: bool) -> Seq<char> {
    if b {
        "Yes"@
    } else {
        "No"@
    }
}

/// The service named by the destination port, else by the source port,
/// else `fallback`.
pub open spec fn named_service(ports: Map<u16, &'static str>, dst: u16, src: u16, fallback: Seq<
    char,
>) -> Seq<char> {
    match port_lookup(ports, dst) {
        Some(name) => name,
        None => match port_lookup(ports, src) {
            Some(name) => name,
            None => fallback,
        },
    }
}

/// `"{src}->{dst} ,Flags: {flags}, Seq: {seq}, Ack: {ack}"`.
pub open spec fn tcp_info(src: u16, dst: u16, flags: u8, seq: u32, ack: u32) -> Seq<char> {
    decimal(src as nat) + seq!['-', '>'] + decimal(dst as nat) + " ,Flags: "@ + decimal(
        flags as nat,
    ) + ", Seq: "@ + decimal(seq as nat) + ", Ack: "@ + decimal(ack as nat)
}

/// `"{src}->{dst} ,Length: {length}"`.
pub open spec fn udp_info(src: u16, dst: u16, length: u16) -> Seq<char> {
    decimal(src as nat) + seq!['-', '>'] + decimal(dst as nat) + " ,Length: "@ + decimal(
        length as nat,
    )
}

/// `"Type: IcmpType({t}), Code: IcmpCode({c})"` (the `Debug` of the two
/// fields).
pub open spec fn icmp_info(message_type: u8, message_code: u8) -> Seq<char> {
    "Type: IcmpType("@ + decimal_u8(message_type) + "), Code: IcmpCode("@ + decimal_u8(
        message_code,
    ) + seq![')']
}

/// `"TTL: {ttl}, DF: {Yes|No}, MF: {Yes|No}"` from the TTL and the three
/// IPv4 flag bits.
pub open spec fn ipv4_info(ttl: u8, flags: u8) -> Seq<char> {
    "TTL: "@ + decimal(ttl as nat) + ", DF: "@ + yes_no(flags & 2 != 0) + ", MF: "@ + yes_no(
        flags & 1 != 0,
    )
}

// ---------------------------------------------------------------------
// Parsing
// ---------------------------------------------------------------------

/// Protocol name and info line of the transport layer of IPv4 packet `ip`.
pub open spec fn transport_fields(
    tcp_ports: Map<u16, &'static str>,
    udp_ports: Map<u16, &'static str>,
    ip: Seq<u8>,
) -> Option<(Seq<char>, Seq<char>)> {
    let t = ipv4_payload(ip);
    if ip[9] == IP_PROTOCOL_TCP {
        if t.len() < 20 {
            None
        } else {
            Some(
                (
                    named_service(tcp_ports, be16(t, 2), be16(t, 0), "TCP"@),
                    tcp_info(be16(t, 0), be16(t, 2), t[13], be32(t, 4), be32(t, 8)),
                ),
            )
        }
    } else if ip[9] == IP_PROTOCOL_UDP {
        if t.len() < 8 {
            None
        } else {
            Some(
                (
                    named_service(udp_ports, be16(t, 2), be16(t, 0), "UDP"@),
                    udp_info(be16(t, 0), be16(t, 2), be16(t, 4)),
                ),
            )
        }
    } else if ip[9] == IP_PROTOCOL_ICMP {
        if t.len() < 4 {
            None
        } else {
            Some(("ICMP"@, icmp_info(t[0], t[1])))
        }
    } else {
        Some(("Other"@, ipv4_info(ip[8], ip[6] / 32)))
    }
}

/// What a captured frame parses to: an ARP packet or an IPv4 packet whose
/// transport layer could be read; anything else (too short, another
/// ethertype, a truncated header) gives nothing.
pub open spec fn parse_frame(
    tcp_ports: Map<u16, &'static str>,
    udp_ports: Map<u16, &'static str>,
    frame: Seq<u8>,
    time: Seq<char>,
) -> Option<PacketView> {
    if frame.len() < 14 {
        None
    } else {
        let payload = frame.skip(14);
        if be16(frame, 12) == ETHERTYPE_ARP {
            if payload.len() < 28 {
                None
            } else {
                Some(
                    PacketView {
                        raw: frame,
                        time,
                        src_ip: dotted_quad(payload.subrange(14, 18)),
                        dst_ip: dotted_quad(payload.subrange(24, 28)),
                        protocol: "ARP"@,
                        length: frame.len() as usize,
                        info: mac_text(payload.subrange(8, 14)) + seq!['-', '>'] + mac_text(
                            payload.subrange(18, 24),
                        ),
                    },
                )
            }
        } else if be16(frame, 12) == ETHERTYPE_IPV4 {
            if payload.len() < 20 {
                None
            } else {
                match transport_fields(tcp_ports, udp_ports, payload) {
                    None => None,
                    Some((protocol, info)) => Some(
                        PacketView {
                            raw: frame,
                            time,
                            src_ip: dotted_quad(payload.subrange(12, 16)),
                            dst_ip: dotted_quad(payload.subrange(16, 20)),
                            protocol,
                            length: frame.len() as usize,
                            info,
                        },
                    ),
                }
            }
        } else {
            None
        }
    }
}

fn push_dotted_quad(s: &mut String, a: &[u8; 4])
    ensures
        final(s)@ == old(s)@ + dotted_quad(a@),
{
    push_decimal(s, a[0] as u64);
    push_char(s, '.');
    push_decimal(s, a[1] as u64);
    push_char(s, '.');
    push_decimal(s, a[2] as u64);
    push_char(s, '.');
    push_decimal(s, a[3] as u64);
    assert(s@ =~= old(s)@ + dotted_quad(a@));
}

fn push_mac(s: &mut String, m: &[u8; 6])
    ensures
        final(s)@ == old(s)@ + mac_text(m@),
{
    push_hex_byte(s, m[0]);
    push_char(s, ':');
    push_hex_byte(s, m[1]);
    push_char(s, ':');
    push_hex_byte(s, m[2]);
    push_char(s, ':');
    push_hex_byte(s, m[3]);
    push_char(s, ':');
    push_hex_byte(s, m[4]);
    push_char(s, ':');
    push_hex_byte(s, m[5]);
    assert(s@ =~= old(s)@ + mac_text(m@));
}

fn dotted_quad_string(a: &[u8; 4]) -> (r: String)
    ensures
        r@ == dotted_quad(a@),
{
    let mut r = String::new();
    push_dotted_quad(&mut r, a);
    assert(r@ =~= dotted_quad(a@));
    r
}

/// Packet parser for different protocol layers
#[derive(Clone)]
pub struct PacketParser {
    protocol_config: ProtocolConfig,
}

impl View for PacketParser {
    type V = (Map<u16, &'static str>, Map<u16, &'static str>);

    closed spec fn view(&self) -> (Map<u16, &'static str>, Map<u16, &'static str>) {
        (self.protocol_config.tcp_ports@, self.protocol_config.udp_ports@)
    }
}

impl PacketParser {
    pub fn new(protocol_config: ProtocolConfig) -> (r: Self)
        ensures
            r@ == (protocol_config.tcp_ports@, protocol_config.udp_ports@),
    {
        Self { protocol_config }
    }

    /// Parse a raw packet into structured data
    pub fn parse_packet(&self, packet: &[u8], capture_time: &str) -> (r: Option<ParsedPacket>)
        ensures
            match r {
                Some(p) => parse_frame(self@.0, self@.1, packet@, capture_time@) == Some(p@),
                None => parse_frame(self@.0, self@.1, packet@, capture_time@) is None,
            },
    {
        let raw = vstd::slice::slice_to_vec(packet);
        let length = packet.len();
        let ethernet = match read_ethernet(packet) {
            Some(eth) => eth,
            None => return None,
        };
        if ethernet.ethertype == ETHERTYPE_ARP {
            self.parse_arp_packet(&ethernet.payload, raw, capture_time, length)
        } else if ethernet.ethertype == ETHERTYPE_IPV4 {
            self.parse_ipv4_packet(&ethernet.payload, raw, capture_time, length)
        } else {
            None
        }
    }

    fn parse_arp_packet(&self, payload: &Vec<u8>, raw: Vec<u8>, capture_time: &str, length: usize) -> (r:
        Option<ParsedPacket>)
        ensures
            match r {
                Some(p) => payload@.len() >= 28 && p@ == (PacketView {
                    raw: raw@,
                    time: capture_time@,
                    src_ip: dotted_quad(payload@.subrange(14, 18)),
                    dst_ip: dotted_quad(payload@.subrange(24, 28)),
                    protocol: "ARP"@,
                    length,
                    info: mac_text(payload@.subrange(8, 14)) + seq!['-', '>'] + mac_text(
                        payload@.subrange(18, 24),
                    ),
                }),
                None => payload@.len() < 28,
            },
    {
        let arp = match read_arp(payload.as_slice()) {
            Some(arp) => arp,
            None => return None,
        };
        let mut info = String::new();
        push_mac(&mut info, &arp.sender_hw_addr);
        push_char(&mut info, '-');
        push_char(&mut info, '>');
        push_mac(&mut info, &arp.target_hw_addr);
        let r = ParsedPacket::new(
            raw,
            String::from_str(capture_time),
            dotted_quad_string(&arp.sender_proto_addr),
            dotted_quad_string(&arp.target_proto_addr),
            String::from_str("ARP"),
            length,
            info,
        );
        assert(r.info@ =~= mac_text(payload@.subrange(8, 14)) + seq!['-', '>'] + mac_text(
            payload@.subrange(18, 24),
        ));
        Some(r)
    }

    fn parse_ipv4_packet(&self, payload: &Vec<u8>, raw: Vec<u8>, capture_time: &str, length: usize) -> (r:
        Option<ParsedPacket>)
        ensures
            match r {
                Some(p) => payload@.len() >= 20 && transport_fields(self@.0, self@.1, payload@)
                    == Some((p.protocol@, p.info@)) && p.raw@ == raw@ && p.time@ == capture_time@
                    && p.src_ip@ == dotted_quad(payload@.subrange(12, 16)) && p.dst_ip@
                    == dotted_quad(payload@.subrange(16, 20)) && p.length == length,
                None => payload@.len() < 20 || transport_fields(self@.0, self@.1, payload@) is None,
            },
    {
        let ipv4 = match read_ipv4(payload.as_slice()) {
            Some(ip) => ip,
            None => return None,
        };
        let src_ip = dotted_quad_string(&ipv4.source);
        let dst_ip = dotted_quad_string(&ipv4.destination);
        let (protocol, info) = match self.parse_transport_protocol(&ipv4, Ghost(payload@)) {
            Some(fields) => fields,
            None => return None,
        };
        Some(
            ParsedPacket::new(
                raw,
                String::from_str(capture_time),
                src_ip,
                dst_ip,
                protocol,
                length,
                info,
            ),
        )
    }

    fn parse_transport_protocol(&self, ipv4: &crate::wire::Ipv4Header, Ghost(ip): Ghost<Seq<u8>>) -> (r:
        Option<(String, String)>)
        requires
            ip.len() >= 20,
            ipv4.flags == ip[6] / 32,
            ipv4.ttl == ip[8],
            ipv4.next_level_protocol == ip[9],
            ipv4.payload@ == ipv4_payload(ip),
        ensures
            match r {
                Some((p, i)) => transport_fields(self@.0, self@.1, ip) == Some((p@, i@)),
                None => transport_fields(self@.0, self@.1, ip) is None,
            },
    {
        if ipv4.next_level_protocol == IP_PROTOCOL_TCP {
            self.parse_tcp_protocol(ipv4.payload.as_slice())
        } else if ipv4.next_level_protocol == IP_PROTOCOL_UDP {
            self.parse_udp_protocol(ipv4.payload.as_slice())
        } else if ipv4.next_level_protocol == IP_PROTOCOL_ICMP {
            self.parse_icmp_protocol(ipv4.payload.as_slice())
        } else {
            Some((String::from_str("Other"), Self::get_ipv4_info(ipv4.ttl, ipv4.flags)))
        }
    }

    /// The service named by the ports, else `fallback`.
    fn service_name(&self, dst: u16, src: u16, is_tcp: bool, fallback: &str) -> (r: String)
        ensures
            r@ == named_service(
                if is_tcp {
                    self@.0
                } else {
                    self@.1
                },
                dst,
                src,
                fallback@,
            ),
    {
        match self.protocol_config.get_protocol_by_port(dst, is_tcp) {
            Some(name) => String::from_str(name),
            None => match self.protocol_config.get_protocol_by_port(src, is_tcp) {
                Some(name) => String::from_str(name),
                None => String::from_str(fallback),
            },
        }
    }

    fn parse_tcp_protocol(&self, payload: &[u8]) -> (r: Option<(String, String)>)
        ensures
            match r {
                Some((p, i)) => payload@.len() >= 20 && p@ == named_service(
                    self@.0,
                    be16(payload@, 2),
                    be16(payload@, 0),
                    "TCP"@,
                ) && i@ == tcp_info(
                    be16(payload@, 0),
                    be16(payload@, 2),
                    payload@[13],
                    be32(payload@, 4),
                    be32(payload@, 8),
                ),
                None => payload@.len() < 20,
            },
    {
        let tcp = match read_tcp(payload) {
            Some(tcp) => tcp,
            None => return None,
        };
        let protocol = self.service_name(tcp.destination, tcp.source, true, "TCP");
        let mut info = String::new();
        push_decimal(&mut info, tcp.source as u64);
        push_char(&mut info, '-');
        push_char(&mut info, '>');
        push_decimal(&mut info, tcp.destination as u64);
        info.append(" ,Flags: ");
        push_decimal(&mut info, tcp.flags as u64);
        info.append(", Seq: ");
        push_decimal(&mut info, tcp.sequence as u64);
        info.append(", Ack: ");
        push_decimal(&mut info, tcp.acknowledgement as u64);
        assert(info@ =~= tcp_info(tcp.source, tcp.destination, tcp.flags, tcp.sequence, tcp.acknowledgement));
        Some((protocol, info))
    }

    fn parse_udp_protocol(&self, payload: &[u8]) -> (r: Option<(String, String)>)
        ensures
            match r {
                Some((p, i)) => payload@.len() >= 8 && p@ == named_service(
                    self@.1,
                    be16(payload@, 2),
                    be16(payload@, 0),
                    "UDP"@,
                ) && i@ == udp_info(be16(payload@, 0), be16(payload@, 2), be16(payload@, 4)),
                None => payload@.len() < 8,
            },
    {
        let udp = match read_udp(payload) {
            Some(udp) => udp,
            None => return None,
        };
        let protocol = self.service_name(udp.destination, udp.source, false, "UDP");
        let mut info = String::new();
        push_decimal(&mut info, udp.source as u64);
        push_char(&mut info, '-');
        push_char(&mut info, '>');
        push_decimal(&mut info, udp.destination as u64);
        info.append(" ,Length: ");
        push_decimal(&mut info, udp.length as u64);
        assert(info@ =~= udp_info(udp.source, udp.destination, udp.length));
        Some((protocol, info))
    }

    fn parse_icmp_protocol(&self, payload: &[u8]) -> (r: Option<(String, String)>)
        ensures
            match r {
                Some((p, i)) => payload@.len() >= 4 && p@ == "ICMP"@ && i@ == icmp_info(
                    payload@[0],
                    payload@[1],
                ),
                None => payload@.len() < 4,
            },
    {
        let icmp = match read_icmp(payload) {
            Some(icmp) => icmp,
            None => return None,
        };
        let mut info = String::new();
        info.append("Type: IcmpType(");
        push_decimal_u8(&mut info, icmp.message_type);
        info.append("), Code: IcmpCode(");
        push_decimal_u8(&mut info, icmp.message_code);
        push_char(&mut info, ')');
        assert(info@ =~= icmp_info(icmp.message_type, icmp.message_code));
        Some((String::from_str("ICMP"), info))
    }

    fn get_ipv4_info(ttl: u8, flags: u8) -> (r: String)
        ensures
            r@ == ipv4_info(ttl, flags),
    {
        let mut info = String::new();
        info.append("TTL: ");
        push_decimal(&mut info, ttl as u64);
        info.append(", DF: ");
        info.append(if flags & 0x2 != 0 { "Yes" } else { "No" });
        info.append(", MF: ");
        info.append(if flags & 0x1 != 0 { "Yes" } else { "No" });
        assert(info@ =~= ipv4_info(ttl, flags));
        info
    }
}

impl Default for PacketParser {
    fn default() -> (r: Self)
        ensures
            holds_well_known_services(r@.0),
            holds_well_known_services(r@.1),
    {
        Self::new(ProtocolConfig::default())
    }
}

} // verus!
