//! Header fields of captured frames, as plain values, read with the `pnet`
//! packet views.

use pnet::packet::arp::ArpPacket;
use pnet::packet::ethernet::EthernetPacket;
use pnet::packet::icmp::IcmpPacket;
use pnet::packet::ipv4::Ipv4Packet;
use pnet::packet::tcp::TcpPacket;
use pnet::packet::udp::UdpPacket;
use pnet::packet::Packet;
use vstd::prelude::*;

verus! {

pub const ETHERTYPE_IPV4: u16 = 0x0800;

pub const ETHERTYPE_ARP: u16 = 0x0806;

pub const IP_PROTOCOL_ICMP: u8 = 1;

pub const IP_PROTOCOL_TCP: u8 = 6;

pub const IP_PROTOCOL_UDP: u8 = 17;

/// Big-endian 16-bit value at `i`.
pub open spec fn be16(b: Seq<u8>, i: int) -> u16 {
    (b[i] as int * 256 + b[i + 1] as int) as u16
}

/// Big-endian 32-bit value at `i`.
pub open spec fn be32(b: Seq<u8>, i: int) -> u32 {
    (b[i] as int * 16777216 + b[i + 1] as int * 65536 + b[i + 2] as int * 256 + b[i
        + 3] as int) as u32
}

/// The payload of an IPv4 packet as `pnet` delimits it: it starts after the
/// header (at least 20 bytes, else the header length field times four) and
/// runs for the total length less the header length, cut at the end of the
/// buffer.
pub open spec fn ipv4_payload(b: Seq<u8>) -> Seq<u8> {
    let header_len = (b[0] % 16) as int * 4;
    let start = if header_len < 20 {
        20
    } else {
        header_len
    };
    let total = be16(b, 2) as int;
    let payload_len = if total < header_len {
        0
    } else {
        total - header_len
    };
    let end = if start + payload_len < b.len() {
        start + payload_len
    } else {
        b.len() as int
    };
    if b.len() <= start {
        Seq::empty()
    } else {
        b.subrange(start, end)
    }
}

pub struct EthernetHeader {
    pub ethertype: u16,
    pub payload: Vec<u8>,
}

pub struct ArpHeader {
    pub sender_hw_addr: [u8; 6],
    pub sender_proto_addr: [u8; 4],
    pub target_hw_addr: [u8; 6],
    pub target_proto_addr: [u8; 4],
}

pub struct Ipv4Header {
    pub flags: u8,
    pub ttl: u8,
    pub next_level_protocol: u8,
    pub source: [u8; 4],
    pub destination: [u8; 4],
    pub payload: Vec<u8>,
}

pub struct TcpHeader {
    pub source: u16,
    pub destination: u16,
    pub sequence: u32,
    pub acknowledgement: u32,
    pub flags: u8,
}

pub struct UdpHeader {
    pub source: u16,
    pub destination: u16,
    pub length: u16,
}

pub struct IcmpHeader {
    pub message_type: u8,
    pub message_code: u8,
}

/// Reads an Ethernet frame with `EthernetPacket::new`, `get_ethertype` and
/// `payload`: present when the frame has the 14 bytes of the header; the
/// ethertype is bytes 12 and 13, big-endian; the payload is all that follows
/// the header.
#[verifier::external_body]
pub(crate) fn read_ethernet(frame: &[u8]) -> (r: Option<EthernetHeader>)
    ensures
        r is Some <==> frame@.len() >= 14,
        r matches Some(h) ==> h.ethertype == be16(frame@, 12) && h.payload@ == frame@.skip(14),
{
    match EthernetPacket::new(frame) {
        Some(eth) => Some(
            EthernetHeader { ethertype: eth.get_ethertype().0, payload: eth.payload().to_vec() },
        ),
        None => None,
    }
}

/// Reads an ARP packet with `ArpPacket::new` and its address getters:
/// present when the buffer has the 28 bytes of the packet; the sender's
/// hardware and protocol addresses are bytes 8..14 and 14..18, the target's
/// bytes 18..24 and 24..28.
#[verifier::external_body]
pub(crate) fn read_arp(bytes: &[u8]) -> (r: Option<ArpHeader>)
    ensures
        r is Some <==> bytes@.len() >= 28,
        r matches Some(h) ==> h.sender_hw_addr@ == bytes@.subrange(8, 14)
            && h.sender_proto_addr@ == bytes@.subrange(14, 18) && h.target_hw_addr@
            == bytes@.subrange(18, 24) && h.target_proto_addr@ == bytes@.subrange(24, 28),
{
    match ArpPacket::new(bytes) {
        Some(arp) => {
            let (s, t) = (arp.get_sender_hw_addr(), arp.get_target_hw_addr());
            Some(
                ArpHeader {
                    sender_hw_addr: [s.0, s.1, s.2, s.3, s.4, s.5],
                    sender_proto_addr: arp.get_sender_proto_addr().octets(),
                    target_hw_addr: [t.0, t.1, t.2, t.3, t.4, t.5],
                    target_proto_addr: arp.get_target_proto_addr().octets(),
                },
            )
        },
        None => None,
    }
}

/// Reads an IPv4 packet with `Ipv4Packet::new`, its getters and `payload`:
/// present when the buffer has the 20 bytes of the fixed header; the flags
/// are the top three bits of byte 6, the TTL byte 8, the next-level protocol
/// byte 9, the source and destination bytes 12..16 and 16..20; the payload
/// is delimited as `ipv4_payload` says.
#[verifier::external_body]
pub(crate) fn read_ipv4(bytes: &[u8]) -> (r: Option<Ipv4Header>)
    ensures
        r is Some <==> bytes@.len() >= 20,
        r matches Some(h) ==> h.flags == bytes@[6] / 32 && h.ttl == bytes@[8]
            && h.next_level_protocol == bytes@[9] && h.source@ == bytes@.subrange(12, 16)
            && h.destination@ == bytes@.subrange(16, 20) && h.payload@ == ipv4_payload(bytes@),
{
    match Ipv4Packet::new(bytes) {
        Some(ip) => Some(
            Ipv4Header {
                flags: ip.get_flags(),
                ttl: ip.get_ttl(),
                next_level_protocol: ip.get_next_level_protocol().0,
                source: ip.get_source().octets(),
                destination: ip.get_destination().octets(),
                payload: ip.payload().to_vec(),
            },
        ),
        None => None,
    }
}

/// Reads a TCP segment with `TcpPacket::new` and its getters: present when
/// the buffer has the 20 bytes of the fixed header; ports at 0 and 2,
/// sequence and acknowledgement numbers at 4 and 8 (all big-endian), flags
/// byte 13.
#[verifier::external_body]
pub(crate) fn read_tcp(bytes: &[u8]) -> (r: Option<TcpHeader>)
    ensures
        r is Some <==> bytes@.len() >= 20,
        r matches Some(h) ==> h.source == be16(bytes@, 0) && h.destination == be16(bytes@, 2)
            && h.sequence == be32(bytes@, 4) && h.acknowledgement == be32(bytes@, 8) && h.flags
            == bytes@[13],
{
    match TcpPacket::new(bytes) {
        Some(tcp) => Some(
            TcpHeader {
                source: tcp.get_source(),
                destination: tcp.get_destination(),
                sequence: tcp.get_sequence(),
                acknowledgement: tcp.get_acknowledgement(),
                flags: tcp.get_flags(),
            },
        ),
        None => None,
    }
}

/// Reads a UDP datagram with `UdpPacket::new` and its getters: present when
/// the buffer has the 8 bytes of the header; ports at 0 and 2 and the length
/// at 4, big-endian.
#[verifier::external_body]
pub(crate) fn read_udp(bytes: &[u8]) -> (r: Option<UdpHeader>)
    ensures
        r is Some <==> bytes@.len() >= 8,
        r matches Some(h) ==> h.source == be16(bytes@, 0) && h.destination == be16(bytes@, 2)
            && h.length == be16(bytes@, 4),
{
    match UdpPacket::new(bytes) {
        Some(udp) => Some(
            UdpHeader {
                source: udp.get_source(),
                destination: udp.get_destination(),
                length: udp.get_length(),
            },
        ),
        None => None,
    }
}

/// Reads an ICMP message with `IcmpPacket::new` and its getters: present
/// when the buffer has the 4 bytes of the header; type byte 0, code byte 1.
#[verifier::external_body]
pub(crate) fn read_icmp(bytes: &[u8]) -> (r: Option<IcmpHeader>)
    ensures
        r is Some <==> bytes@.len() >= 4,
        r matches Some(h) ==> h.message_type == bytes@[0] && h.message_code == bytes@[1],
{
    match IcmpPacket::new(bytes) {
        Some(icmp) => Some(
            IcmpHeader { message_type: icmp.get_icmp_type().0, message_code: icmp.get_icmp_code().0 },
        ),
        None => None,
    }
}

} // verus!
