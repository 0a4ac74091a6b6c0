//! The texts and choices the packet list and the statistics panels show:
//! header lines, per-protocol summaries, hex dumps, stream status, colours,
//! the protocol distribution and the traffic series.

use vstd::prelude::*;

use crate::packet::ParsedPacket;
use crate::protocol::{
    arrow, arrow_chars, space_comma, space_comma_chars, stream_complete, StreamView, TcpStream,
    TH_ACK, TH_FIN, TH_PSH, TH_RST, TH_SYN, TH_URG, flag_set,
};
use crate::text::{
    chars_of, contains, decimal, find, find_from, find_from_exec, hex_byte,
    lemma_find_from_result, lemma_trim_bounds, matches_at, parse_unsigned, parse_unsigned_range,
    push_char, push_decimal, push_decimal_usize, push_hex_byte, push_range, push_trimmed, string_of_range, text_eq,
    trimmed,
};
use crate::traffic::{traffic_entries, traffic_of, TrafficEntries, TrafficMap};

verus! {

broadcast use vstd::string::group_string_axioms;

// ---------------------------------------------------------------------
// Protocol groups
// ---------------------------------------------------------------------

/// How a packet's protocol is shown in detail.
#[derive(Debug, Clone, Copy, PartialEq, Eq, Structural)]
pub enum PacketCategory {
    Tcp,
    Udp,
    Icmp,
    Arp,
    Other,
}

pub open spec fn is_tcp_service(p: Seq<char>) -> bool {
    p == "TCP"@ || p == "HTTP"@ || p == "HTTPS"@ || p == "FTP"@ || p == "SSH"@ || p == "Telnet"@
        || p == "SMTP"@ || p == "POP3"@ || p == "IMAP"@ || p == "RDP"@ || p == "SIP"@
}

pub open spec fn category_of(p: Seq<char>) -> PacketCategory {
    if is_tcp_service(p) {
        PacketCategory::Tcp
    } else if p == "UDP"@ || p == "DNS"@ {
        PacketCategory::Udp
    } else if p == "ICMP"@ {
        PacketCategory::Icmp
    } else if p == "ARP"@ {
        PacketCategory::Arp
    } else {
        PacketCategory::Other
    }
}

fn tcp_service(p: &str) -> (r: bool)
    ensures
        r == is_tcp_service(p@),
{
    text_eq(p, "TCP") || text_eq(p, "HTTP") || text_eq(p, "HTTPS") || text_eq(p, "FTP")
        || text_eq(p, "SSH") || text_eq(p, "Telnet") || text_eq(p, "SMTP") || text_eq(p, "POP3")
        || text_eq(p, "IMAP") || text_eq(p, "RDP") || text_eq(p, "SIP")
}

/// The group whose details a packet of protocol `protocol` shows.
pub fn packet_category(protocol: &str) -> (r: PacketCategory)
    ensures
        r == category_of(protocol@),
{
    if tcp_service(protocol) {
        PacketCategory::Tcp
    } else if text_eq(protocol, "UDP") || text_eq(protocol, "DNS") {
        PacketCategory::Udp
    } else if text_eq(protocol, "ICMP") {
        PacketCategory::Icmp
    } else if text_eq(protocol, "ARP") {
        PacketCategory::Arp
    } else {
        PacketCategory::Other
    }
}

/// Protocols whose packets the TCP stream tracker follows.
pub open spec fn is_stream_protocol(p: Seq<char>) -> bool {
    is_tcp_service(p) || p == "DNS"@
}

/// Whether packets of `protocol` are handed to the TCP stream tracker.
pub fn carries_tcp_stream(protocol: &str) -> (r: bool)
    ensures
        r == is_stream_protocol(protocol@),
{
    tcp_service(protocol) || text_eq(protocol, "DNS")
}

// ---------------------------------------------------------------------
// Fields of an info line
// ---------------------------------------------------------------------

/// The source and destination port texts of an info line: before the first
/// `"->"`, and from after it to the next `" ,"`.
pub open spec fn port_texts(info: Seq<char>) -> Option<(Seq<char>, Seq<char>)> {
    match find(info, arrow()) {
        None => None,
        Some(a) => match find_from(info, space_comma(), a) {
            None => None,
            Some(c) => Some((info.subrange(0, a as int), info.subrange(a + 2int, c as int))),
        },
    }
}

/// The source and destination port texts of an info line.
pub fn port_fields(info: &str) -> (r: Option<(String, String)>)
    ensures
        match r {
            Some((s, d)) => port_texts(info@) == Some((s@, d@)),
            None => port_texts(info@) is None,
        },
{
    let text = chars_of(info);
    let arrow_text = arrow_chars();
    match find_from_exec(&text, &arrow_text, 0) {
        None => None,
        Some(a) => {
            proof {
                lemma_find_from_result(text@, arrow(), 0);
                assert(text@.subrange(a as int, a + 2)[0] == '-');
                assert(text@.subrange(a as int, a + 2)[1] == '>');
            }
            let sc = space_comma_chars();
            match find_from_exec(&text, &sc, a) {
                None => None,
                Some(c) => {
                    proof {
                        lemma_find_from_result(text@, space_comma(), a as nat);
                        assert(text@.subrange(c as int, c + 2)[0] == ' ');
                    }
                    Some((string_of_range(&text, 0, a), string_of_range(&text, a + 2, c)))
                },
            }
        },
    }
}

/// The text between `"Flags: "` and the following `", Seq:"`.
pub open spec fn flags_text_field(info: Seq<char>) -> Option<Seq<char>> {
    match find(info, "Flags: "@) {
        None => None,
        Some(f) => match find_from(info, ", Seq:"@, f) {
            None => None,
            Some(e) => Some(info.subrange((f + "Flags: "@.len()) as int, e as int)),
        },
    }
}

/// The text between `"Flags: "` and the following `", Seq:"`.
pub fn flags_field(info: &str) -> (r: Option<String>)
    ensures
        match r {
            Some(s) => flags_text_field(info@) == Some(s@),
            None => flags_text_field(info@) is None,
        },
{
    let text = chars_of(info);
    let label = chars_of("Flags: ");
    let end_label = chars_of(", Seq:");
    match find_from_exec(&text, &label, 0) {
        None => None,
        Some(f) => {
            proof {
                reveal_strlit("Flags: ");
                reveal_strlit(", Seq:");
                lemma_find_from_result(text@, label@, 0);
            }
            match find_from_exec(&text, &end_label, f) {
                None => None,
                Some(e) => {
                    proof {
                        lemma_find_from_result(text@, end_label@, f as nat);
                        assert forall|j: int| f <= j < f + 7 implies !matches_at(
                            text@,
                            end_label@,
                            j,
                        ) by {
                            if matches_at(text@, end_label@, j) {
                                assert(text@.subrange(j, j + 6)[0] == ',');
                                assert(text@.subrange(f as int, f + 7)[j - f] == text@[j]);
                            }
                        }
                    }
                    Some(string_of_range(&text, f + label.len(), e))
                },
            }
        },
    }
}

/// Reads a flags text as `str::parse::<u8>` does.
pub fn parse_flag_byte(text: &str) -> (r: Option<u8>)
    ensures
        match r {
            Some(v) => parse_unsigned(text@, 255) == Some(v as nat),
            None => parse_unsigned(text@, 255) is None,
        },
{
    let t = chars_of(text);
    assert(t@.subrange(0, t@.len() as int) =~= t@);
    match parse_unsigned_range(&t, 0, t.len(), 255) {
        Some(v) => Some(v as u8),
        None => None,
    }
}

// ---------------------------------------------------------------------
// Summaries
// ---------------------------------------------------------------------

/// Appends `name` to a list separated by `sep` when `set` holds.
pub open spec fn add_item(acc: Seq<char>, set: bool, name: Seq<char>, sep: Seq<char>) -> Seq<char> {
    if !set {
        acc
    } else if acc.len() == 0 {
        name
    } else {
        acc + sep + name
    }
}

/// The names of the flags SYN, ACK, FIN, RST, PSH, URG set in `v`, in that
/// order, separated by `"|"`.
pub open spec fn summary_flag_names(v: u8) -> Seq<char> {
    let a = add_item(Seq::empty(), flag_set(v, TH_SYN), "SYN"@, seq!['|']);
    let a = add_item(a, flag_set(v, TH_ACK), "ACK"@, seq!['|']);
    let a = add_item(a, flag_set(v, TH_FIN), "FIN"@, seq!['|']);
    let a = add_item(a, flag_set(v, TH_RST), "RST"@, seq!['|']);
    let a = add_item(a, flag_set(v, TH_PSH), "PSH"@, seq!['|']);
    add_item(a, flag_set(v, TH_URG), "URG"@, seq!['|'])
}

/// The flags part of a TCP summary: the names of the flags set, when the
/// flags text reads as a `u8` and some of the six flags is set.
pub open spec fn tcp_flags_part(info: Seq<char>) -> Option<Seq<char>> {
    match flags_text_field(info) {
        None => None,
        Some(t) => match parse_unsigned(t, 255) {
            None => None,
            Some(v) => if summary_flag_names(v as u8).len() > 0 {
                Some(summary_flag_names(v as u8))
            } else {
                None
            },
        },
    }
}

/// `" (" + parts joined by ", " + ")"`, or nothing without parts.
pub open spec fn parenthesized(first: Option<Seq<char>>, second: Option<Seq<char>>) -> Seq<char> {
    match (first, second) {
        (None, None) => Seq::empty(),
        (Some(x), None) => " ("@ + x + seq![')'],
        (None, Some(y)) => " ("@ + y + seq![')'],
        (Some(x), Some(y)) => " ("@ + x + ", "@ + y + seq![')'],
    }
}

/// The extra text of a TCP packet's header line: its ports and its flags.
pub open spec fn tcp_summary_text(info: Seq<char>) -> Seq<char> {
    let ports = match port_texts(info) {
        Some((s, d)) => Some(s + " -> "@ + d),
        None => None,
    };
    parenthesized(ports, tcp_flags_part(info))
}

/// The extra text of a UDP packet's header line: its ports.
pub open spec fn udp_summary_text(info: Seq<char>) -> Seq<char> {
    match port_texts(info) {
        Some((s, d)) => " ("@ + s + " -> "@ + d + seq![')'],
        None => Seq::empty(),
    }
}

/// The ICMP texts can be cut out: unless both labels are present and the
/// code label starts inside the type label or before it.
pub open spec fn control_message_text_defined(info: Seq<char>) -> bool {
    contains(info, "Type:"@) && contains(info, "Code:"@) ==> match (
        find(info, "Type: "@),
        find(info, "Code: "@),
    ) {
        (Some(t), Some(c)) => t + "Type: "@.len() <= c,
        _ => true,
    }
}

/// The extra text of an ICMP packet's header line: type and code, trimmed.
pub open spec fn control_message_text(info: Seq<char>) -> Seq<char> {
    if contains(info, "Type:"@) && contains(info, "Code:"@) {
        match (find(info, "Type: "@), find(info, "Code: "@)) {
            (Some(t), Some(c)) => " (Type: "@ + trimmed(info, (t + "Type: "@.len()) as int, c as int)
                + ", Code: "@ + trimmed(info, (c + "Code: "@.len()) as int, info.len() as int) + seq![')'],
            _ => Seq::empty(),
        }
    } else {
        Seq::empty()
    }
}

/// The extra text of an ARP packet's header line: the two hardware
/// addresses.
pub open spec fn arp_summary_text(info: Seq<char>) -> Seq<char> {
    match find(info, arrow()) {
        Some(a) => " ("@ + info.subrange(0, a as int) + " -> "@ + info.subrange(
            a + 2int,
            info.len() as int,
        ) + seq![')'],
        None => Seq::empty(),
    }
}

/// The extra text of a packet's header line, by its protocol.
pub open spec fn protocol_summary_text(protocol: Seq<char>, info: Seq<char>) -> Seq<char> {
    match category_of(protocol) {
        PacketCategory::Tcp => tcp_summary_text(info),
        PacketCategory::Udp => udp_summary_text(info),
        PacketCategory::Icmp => control_message_text(info),
        PacketCategory::Arp => arp_summary_text(info),
        PacketCategory::Other => Seq::empty(),
    }
}

fn append_item(s: &mut String, set: bool, name: &str)
    ensures
        final(s)@ == add_item(old(s)@, set, name@, seq!['|']),
{
    if set {
        if !s.as_str().is_empty() {
            push_char(s, '|');
        }
        s.append(name);
        assert(s@ =~= add_item(old(s)@, set, name@, seq!['|']));
    }
}

fn tcp_flags_summary(info: &str) -> (r: Option<String>)
    ensures
        match r {
            Some(s) => tcp_flags_part(info@) == Some(s@),
            None => tcp_flags_part(info@) is None,
        },
{
    let field = match flags_field(info) {
        Some(f) => f,
        None => return None,
    };
    let v = match parse_flag_byte(field.as_str()) {
        Some(v) => v,
        None => return None,
    };
    let mut names = String::new();
    append_item(&mut names, v & TH_SYN != 0, "SYN");
    append_item(&mut names, v & TH_ACK != 0, "ACK");
    append_item(&mut names, v & TH_FIN != 0, "FIN");
    append_item(&mut names, v & TH_RST != 0, "RST");
    append_item(&mut names, v & TH_PSH != 0, "PSH");
    append_item(&mut names, v & TH_URG != 0, "URG");
    if names.as_str().is_empty() {
        None
    } else {
        Some(names)
    }
}

fn push_parenthesized(s: &mut String, first: Option<String>, second: Option<String>)
    ensures
        final(s)@ == old(s)@ + parenthesized(
            match first {
                Some(x) => Some(x@),
                None => None,
            },
            match second {
                Some(x) => Some(x@),
                None => None,
            },
        ),
{
    match (first, second) {
        (None, None) => {
            assert(s@ =~= old(s)@ + Seq::<char>::empty());
        },
        (Some(x), None) => {
            s.append(" (");
            s.append(x.as_str());
            push_char(s, ')');
            assert(s@ =~= old(s)@ + (" ("@ + x@ + seq![')']));
        },
        (None, Some(y)) => {
            s.append(" (");
            s.append(y.as_str());
            push_char(s, ')');
            assert(s@ =~= old(s)@ + (" ("@ + y@ + seq![')']));
        },
        (Some(x), Some(y)) => {
            s.append(" (");
            s.append(x.as_str());
            s.append(", ");
            s.append(y.as_str());
            push_char(s, ')');
            assert(s@ =~= old(s)@ + (" ("@ + x@ + ", "@ + y@ + seq![')']));
        },
    }
}

/// The ports and flags of a TCP packet, for its header line.
pub fn tcp_summary(info: &str) -> (r: String)
    ensures
        r@ == tcp_summary_text(info@),
{
    let ports = match port_fields(info) {
        Some((src, dst)) => {
            let mut p = src;
            p.append(" -> ");
            p.append(dst.as_str());
            Some(p)
        },
        None => None,
    };
    let flags = tcp_flags_summary(info);
    let mut r = String::new();
    push_parenthesized(&mut r, ports, flags);
    assert(r@ =~= tcp_summary_text(info@));
    r
}

/// The ports of a UDP datagram, for its header line.
pub fn udp_summary(info: &str) -> (r: String)
    ensures
        r@ == udp_summary_text(info@),
{
    let mut r = String::new();
    match port_fields(info) {
        Some((src, dst)) => {
            r.append(" (");
            r.append(src.as_str());
            r.append(" -> ");
            r.append(dst.as_str());
            push_char(&mut r, ')');
            assert(r@ =~= " ("@ + src@ + " -> "@ + dst@ + seq![')']);
        },
        None => {},
    }
    r
}

/// The type and code of an ICMP message, for its header line.
pub fn control_message_summary(info: &str) -> (r: String)
    requires
        control_message_text_defined(info@),
    ensures
        r@ == control_message_text(info@),
{
    let text = chars_of(info);
    let type_colon = chars_of("Type:");
    let code_colon = chars_of("Code:");
    let mut r = String::new();
    if find_from_exec(&text, &type_colon, 0).is_some() && find_from_exec(&text, &code_colon, 0).is_some() {
        let type_label = chars_of("Type: ");
        let code_label = chars_of("Code: ");
        match (find_from_exec(&text, &type_label, 0), find_from_exec(&text, &code_label, 0)) {
            (Some(t), Some(c)) => {
                proof {
                    lemma_find_from_result(text@, code_label@, 0);
                    lemma_find_from_result(text@, type_label@, 0);
                    lemma_trim_bounds(text@, t + type_label@.len(), c as int);
                    lemma_trim_bounds(text@, c + code_label@.len(), text@.len() as int);
                }
                assert(c + code_label.len() <= text.len());
                r.append(" (Type: ");
                push_trimmed(&mut r, &text, t + type_label.len(), c);
                r.append(", Code: ");
                push_trimmed(&mut r, &text, c + code_label.len(), text.len());
                push_char(&mut r, ')');
                assert(r@ =~= control_message_text(info@));
            },
            _ => {},
        }
    }
    r
}

/// Whether the type and code texts of an ICMP info line can be cut out
/// (see `control_message_text_defined`).
pub fn control_message_text_ok(info: &str) -> (r: bool)
    ensures
        r == control_message_text_defined(info@),
{
    let text = chars_of(info);
    let type_colon = chars_of("Type:");
    let code_colon = chars_of("Code:");
    if find_from_exec(&text, &type_colon, 0).is_none() || find_from_exec(&text, &code_colon, 0).is_none() {
        return true;
    }
    let type_label = chars_of("Type: ");
    let code_label = chars_of("Code: ");
    match (find_from_exec(&text, &type_label, 0), find_from_exec(&text, &code_label, 0)) {
        (Some(t), Some(c)) => {
            proof {
                lemma_find_from_result(text@, type_label@, 0);
            }
            assert(t + type_label.len() <= text.len());
            t + type_label.len() <= c
        },
        _ => true,
    }
}

/// Whether a packet's header line can be built (see `packet_header_text`).
pub fn header_text_ok(packet: &ParsedPacket) -> (r: bool)
    ensures
        r == (category_of(packet.protocol@) == PacketCategory::Icmp ==> control_message_text_defined(
            packet.info@,
        )),
{
    match packet_category(packet.protocol.as_str()) {
        PacketCategory::Icmp => control_message_text_ok(packet.info.as_str()),
        _ => true,
    }
}

/// The two hardware addresses of an ARP packet, for its header line.
pub fn arp_summary(info: &str) -> (r: String)
    ensures
        r@ == arp_summary_text(info@),
{
    let text = chars_of(info);
    let arrow_text = arrow_chars();
    let mut r = String::new();
    match find_from_exec(&text, &arrow_text, 0) {
        Some(a) => {
            proof {
                lemma_find_from_result(text@, arrow(), 0);
            }
            assert(a + 2 <= text.len());
            r.append(" (");
            push_range(&mut r, &text, 0, a);
            r.append(" -> ");
            push_range(&mut r, &text, a + 2, text.len());
            push_char(&mut r, ')');
            assert(r@ =~= arp_summary_text(info@));
        },
        None => {},
    }
    r
}

/// The extra text of a packet's header line, by its protocol.
pub fn protocol_summary(packet: &ParsedPacket) -> (r: String)
    requires
        category_of(packet.protocol@) == PacketCategory::Icmp ==> control_message_text_defined(
            packet.info@,
        ),
    ensures
        r@ == protocol_summary_text(packet.protocol@, packet.info@),
{
    match packet_category(packet.protocol.as_str()) {
        PacketCategory::Tcp => tcp_summary(packet.info.as_str()),
        PacketCategory::Udp => udp_summary(packet.info.as_str()),
        PacketCategory::Icmp => control_message_summary(packet.info.as_str()),
        PacketCategory::Arp => arp_summary(packet.info.as_str()),
        PacketCategory::Other => String::new(),
    }
}

/// `"No.{index}:[{time}]\t{src} -> {dst}\t{protocol}\t({length} bytes)\t{extra}\t"`.
pub open spec fn header_line(
    index: usize,
    time: Seq<char>,
    src: Seq<char>,
    dst: Seq<char>,
    protocol: Seq<char>,
    length: usize,
    extra: Seq<char>,
) -> Seq<char> {
    "No."@ + decimal(index as nat) + ":["@ + time + "]\t"@ + src + " -> "@ + dst + seq!['\t']
        + protocol + "\t("@ + decimal(length as nat) + " bytes)\t"@ + extra + seq!['\t']
}

/// The header line of a packet in the packet list.
pub fn packet_header_text(index: usize, packet: &ParsedPacket) -> (r: String)
    requires
        category_of(packet.protocol@) == PacketCategory::Icmp ==> control_message_text_defined(
            packet.info@,
        ),
    ensures
        r@ == header_line(
            index,
            packet.time@,
            packet.src_ip@,
            packet.dst_ip@,
            packet.protocol@,
            packet.length,
            protocol_summary_text(packet.protocol@, packet.info@),
        ),
{
    let extra = protocol_summary(packet);
    let mut r = String::new();
    r.append("No.");
    push_decimal_usize(&mut r, index);
    r.append(":[");
    r.append(packet.time.as_str());
    r.append("]\t");
    r.append(packet.src_ip.as_str());
    r.append(" -> ");
    r.append(packet.dst_ip.as_str());
    push_char(&mut r, '\t');
    r.append(packet.protocol.as_str());
    r.append("\t(");
    push_decimal_usize(&mut r, packet.length);
    r.append(" bytes)\t");
    r.append(extra.as_str());
    push_char(&mut r, '\t');
    assert(r@ =~= header_line(
        index,
        packet.time@,
        packet.src_ip@,
        packet.dst_ip@,
        packet.protocol@,
        packet.length,
        extra@,
    ));
    r
}


// ---------------------------------------------------------------------
// Raw data
// ---------------------------------------------------------------------

/// The character a byte shows as in the ASCII view: itself when printable,
/// else `'.'`.
pub open spec fn ascii_shown(b: u8) -> char {
    if 32 <= b && b <= 126 {
        (b as u32) as char
    } else {
        '.'
    }
}

/// A line break before every sixteenth byte but the first.
pub open spec fn line_break_before(i: int) -> Seq<char> {
    if i % 16 == 0 && i > 0 {
        seq!['\n']
    } else {
        Seq::empty()
    }
}

/// The hex view: two lower-case hex digits and a space per byte, sixteen
/// bytes per line.
pub open spec fn hex_view(raw: Seq<u8>) -> Seq<char>
    decreases raw.len(),
{
    if raw.len() == 0 {
        Seq::empty()
    } else {
        hex_view(raw.drop_last()) + line_break_before(raw.len() - 1) + hex_byte(raw.last())
            + seq![' ']
    }
}

/// The ASCII view: one character per byte, sixteen bytes per line.
pub open spec fn ascii_view(raw: Seq<u8>) -> Seq<char>
    decreases raw.len(),
{
    if raw.len() == 0 {
        Seq::empty()
    } else {
        ascii_view(raw.drop_last()) + line_break_before(raw.len() - 1) + seq![ascii_shown(raw.last())]
    }
}

fn ascii_char(b: u8) -> (c: char)
    ensures
        c == ascii_shown(b),
{
    if 32 <= b && b <= 126 {
        b as char
    } else {
        '.'
    }
}

/// The hex view and the ASCII view of a packet's raw bytes.
pub fn raw_data_views(raw: &[u8]) -> (r: (String, String))
    ensures
        r.0@ == hex_view(raw@),
        r.1@ == ascii_view(raw@),
{
    let mut hex = String::new();
    let mut ascii = String::new();
    let mut i: usize = 0;
    assert(raw@.take(0) =~= Seq::<u8>::empty());
    while i < raw.len()
        invariant
            0 <= i <= raw@.len(),
            hex@ == hex_view(raw@.take(i as int)),
            ascii@ == ascii_view(raw@.take(i as int)),
        decreases raw@.len() - i,
    {
        let ghost h0 = hex@;
        let ghost a0 = ascii@;
        if i % 16 == 0 && i > 0 {
            push_char(&mut hex, '\n');
            push_char(&mut ascii, '\n');
        }
        push_hex_byte(&mut hex, raw[i]);
        push_char(&mut hex, ' ');
        push_char(&mut ascii, ascii_char(raw[i]));
        proof {
            let t = raw@.take(i + 1);
            assert(t.drop_last() =~= raw@.take(i as int));
            assert(t.last() == raw@[i as int]);
            assert(hex@ =~= h0 + line_break_before(i as int) + hex_byte(raw@[i as int]) + seq![' ']);
            assert(ascii@ =~= a0 + line_break_before(i as int) + seq![ascii_shown(raw@[i as int])]);
        }
        i = i + 1;
    }
    assert(raw@.take(raw@.len() as int) =~= raw@);
    (hex, ascii)
}

// ---------------------------------------------------------------------
// Streams and colours
// ---------------------------------------------------------------------

/// What the stream panel says of a stream's connection.
#[derive(Debug, Clone, Copy, PartialEq, Eq, Structural)]
pub enum StreamStatus {
    Complete,
    Active,
    Connecting,
}

pub open spec fn status_of(s: StreamView) -> StreamStatus {
    if stream_complete(s) {
        StreamStatus::Complete
    } else if s.handshake_complete {
        StreamStatus::Active
    } else {
        StreamStatus::Connecting
    }
}

/// Complete once handshake and teardown were seen, active after the
/// handshake alone, connecting before.
pub fn stream_status(stream: &TcpStream) -> (r: StreamStatus)
    ensures
        r == status_of(stream@),
{
    if stream.handshake_complete && stream.teardown_started {
        StreamStatus::Complete
    } else if stream.handshake_complete {
        StreamStatus::Active
    } else {
        StreamStatus::Connecting
    }
}

/// The background colour of a packet's header (premultiplied RGBA).
pub open spec fn color_of(protocol: Seq<char>) -> (u8, u8, u8, u8) {
    if protocol == "TCP"@ {
        (40, 80, 160, 70)
    } else if protocol == "UDP"@ {
        (160, 100, 40, 70)
    } else if protocol == "ICMP"@ {
        (120, 40, 160, 70)
    } else if protocol == "ARP"@ {
        (40, 140, 80, 70)
    } else if protocol == "HTTP"@ {
        (180, 60, 80, 70)
    } else if protocol == "HTTPS"@ {
        (40, 140, 140, 70)
    } else {
        (100, 100, 100, 70)
    }
}

/// The background colour of a packet's header (premultiplied RGBA).
pub fn protocol_color(protocol: &str) -> (r: (u8, u8, u8, u8))
    ensures
        r == color_of(protocol@),
{
    if text_eq(protocol, "TCP") {
        (40, 80, 160, 70)
    } else if text_eq(protocol, "UDP") {
        (160, 100, 40, 70)
    } else if text_eq(protocol, "ICMP") {
        (120, 40, 160, 70)
    } else if text_eq(protocol, "ARP") {
        (40, 140, 80, 70)
    } else if text_eq(protocol, "HTTP") {
        (180, 60, 80, 70)
    } else if text_eq(protocol, "HTTPS") {
        (40, 140, 140, 70)
    } else {
        (100, 100, 100, 70)
    }
}

// ---------------------------------------------------------------------
// Statistics
// ---------------------------------------------------------------------

pub open spec fn sorted_by_bytes_desc(e: TrafficEntries) -> bool {
    forall|j1: int, j2: int| 0 <= j1 < j2 < e.len() ==> #[trigger] e[j1].1 >= #[trigger] e[j2].1
}

/// The protocols of a traffic table ordered by bytes, most first; protocols
/// with equal bytes keep the table's order.
pub fn protocol_distribution(traffic: &TrafficMap) -> (r: Vec<(String, usize)>)
    ensures
        traffic_entries(r@).to_multiset() == traffic@.to_multiset(),
        sorted_by_bytes_desc(traffic_entries(r@)),
{
    broadcast use vstd::seq_lib::group_to_multiset_ensures;

    let entries = traffic.entries();
    let ghost e = traffic@;
    let mut r: Vec<(String, usize)> = Vec::new();
    let mut i: usize = 0;
    assert(e.take(0) =~= Seq::<(Seq<char>, usize)>::empty());
    assert(traffic_entries(r@) =~= Seq::<(Seq<char>, usize)>::empty());
    while i < entries.len()
        invariant
            traffic_entries(entries@) == e,
            0 <= i <= e.len(),
            traffic_entries(r@).to_multiset() == e.take(i as int).to_multiset(),
            sorted_by_bytes_desc(traffic_entries(r@)),
        decreases e.len() - i,
    {
        let bytes = entries[i].1;
        let mut pos: usize = 0;
        while pos < r.len() && r[pos].1 >= bytes
            invariant
                0 <= pos <= r@.len(),
                forall|j: int| 0 <= j < pos ==> #[trigger] r@[j].1 >= bytes,
            decreases r@.len() - pos,
        {
            pos = pos + 1;
        }
        let ghost before = traffic_entries(r@);
        let item = (entries[i].0.clone(), bytes);
        r.insert(pos, item);
        proof {
            let after = traffic_entries(r@);
            assert(after =~= before.insert(pos as int, (entries@[i as int].0@, bytes)));
            assert(e[i as int] == (entries@[i as int].0@, bytes));
            assert(e.take(i + 1) =~= e.take(i as int).push(e[i as int]));
            vstd::seq_lib::to_multiset_insert(before, pos as int, e[i as int]);
            vstd::seq_lib::to_multiset_build(e.take(i as int), e[i as int]);
            assert forall|j1: int, j2: int| 0 <= j1 < j2 < after.len() implies #[trigger] after[j1].1
                >= #[trigger] after[j2].1 by {
                if j2 < pos {
                } else if j2 == pos {
                    assert(after[j1] == before[j1]);
                } else if j1 < pos {
                    assert(after[j1] == before[j1]);
                    assert(after[j2] == before[j2 - 1]);
                    if pos < before.len() {
                        assert(before[pos as int].1 < bytes);
                    }
                } else if j1 == pos {
                    assert(after[j2] == before[j2 - 1]);
                    assert(before[pos as int].1 < bytes);
                    assert(before[pos as int].1 >= before[j2 - 1].1);
                } else {
                    assert(after[j1] == before[j1 - 1]);
                    assert(after[j2] == before[j2 - 1]);
                }
            }
        }
        i = i + 1;
    }
    assert(e.take(e.len() as int) =~= e);
    r
}

/// The sum of the byte counts of a list.
pub open spec fn bytes_sum(e: TrafficEntries) -> nat
    decreases e.len(),
{
    if e.len() == 0 {
        0
    } else {
        bytes_sum(e.drop_last()) + e.last().1 as nat
    }
}

/// The total of a list of byte counts; `None` when it exceeds `usize`.
pub fn total_bytes(list: &Vec<(String, usize)>) -> (r: Option<usize>)
    ensures
        match r {
            Some(t) => t == bytes_sum(traffic_entries(list@)),
            None => bytes_sum(traffic_entries(list@)) > usize::MAX,
        },
{
    let ghost e = traffic_entries(list@);
    let mut total: usize = 0;
    let mut i: usize = 0;
    assert(e.take(0) =~= Seq::<(Seq<char>, usize)>::empty());
    while i < list.len()
        invariant
            e == traffic_entries(list@),
            0 <= i <= e.len(),
            total == bytes_sum(e.take(i as int)),
        decreases e.len() - i,
    {
        proof {
            assert(e.take(i + 1).drop_last() =~= e.take(i as int));
            assert(e.take(i + 1).last() == e[i as int]);
        }
        if list[i].1 > usize::MAX - total {
            proof {
                lemma_bytes_sum_prefix(e, i + 1);
            }
            return None;
        }
        total = total + list[i].1;
        i = i + 1;
    }
    assert(e.take(e.len() as int) =~= e);
    Some(total)
}

pub proof fn lemma_bytes_sum_prefix(e: TrafficEntries, j: int)
    requires
        0 <= j <= e.len(),
    ensures
        bytes_sum(e.take(j)) <= bytes_sum(e),
    decreases e.len() - j,
{
    if j < e.len() {
        assert(e.take(j + 1).drop_last() =~= e.take(j));
        lemma_bytes_sum_prefix(e, j + 1);
    } else {
        assert(e.take(j) =~= e);
    }
}

/// The bytes of `protocol` in each second of the history, oldest first.
pub fn traffic_series(history: &Vec<(u64, TrafficMap)>, protocol: &str) -> (r: Vec<usize>)
    ensures
        r@.len() == history@.len(),
        forall|i: int| 0 <= i < r@.len() ==> #[trigger] r@[i] == traffic_of(history@[i].1@, protocol@),
{
    let mut r: Vec<usize> = Vec::new();
    let mut i: usize = 0;
    while i < history.len()
        invariant
            0 <= i <= history@.len(),
            r@.len() == i,
            forall|j: int| 0 <= j < i ==> #[trigger] r@[j] == traffic_of(history@[j].1@, protocol@),
        decreases history@.len() - i,
    {
        let v = match history[i].1.get(protocol) {
            Some(v) => *v,
            None => 0,
        };
        r.push(v);
        i = i + 1;
    }
    r
}

} // verus!
