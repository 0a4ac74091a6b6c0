//! TCP flag handling and TCP stream tracking.

use vstd::prelude::*;

use crate::packet::{PacketView, ParsedPacket};
use crate::text::{
    chars_of, contains, hex_byte, hex_digit_char, decimal, digit, digit_char, lex_less, lex_lt, lemma_lex_irreflexive,
    lemma_lex_total, lemma_lex_transitive, lemma_lex_asymmetric, push_decimal, find, find_from_exec, find_separator_from,
    find_separator_from_exec, is_field_separator, lemma_find_from_result, parse_unsigned,
    parse_unsigned_range, push_char, find_from,
};

verus! {

broadcast use vstd::string::group_string_axioms;

/// TCP flags constants
pub const TH_FIN: u8 = 0x01;

pub const TH_SYN: u8 = 0x02;

pub const TH_RST: u8 = 0x04;

pub const TH_PSH: u8 = 0x08;

pub const TH_ACK: u8 = 0x10;

pub const TH_URG: u8 = 0x20;

pub const TH_ECE: u8 = 0x40;

pub const TH_CWR: u8 = 0x80;

// ---------------------------------------------------------------------
// Texts the stream tracker looks for in a packet's info line
// ---------------------------------------------------------------------

/// `"->"`, between the source and the destination port.
pub open spec fn arrow() -> Seq<char> {
    seq!['-', '>']
}

/// `" ,"`, after the destination port.
pub open spec fn space_comma() -> Seq<char> {
    seq![' ', ',']
}

/// `"Flags:"`, present in the info line of a TCP packet.
pub open spec fn flags_marker() -> Seq<char> {
    seq!['F', 'l', 'a', 'g', 's', ':']
}

/// `"Flags: "`, in front of the flags value.
pub open spec fn flags_label() -> Seq<char> {
    seq!['F', 'l', 'a', 'g', 's', ':', ' ']
}

pub fn arrow_chars() -> (r: Vec<char>)
    ensures
        r@ == arrow(),
{
    let mut r = Vec::new();
    r.push('-');
    r.push('>');
    assert(r@ =~= arrow());
    r
}

pub fn space_comma_chars() -> (r: Vec<char>)
    ensures
        r@ == space_comma(),
{
    let mut r = Vec::new();
    r.push(' ');
    r.push(',');
    assert(r@ =~= space_comma());
    r
}

pub fn flags_label_chars() -> (r: Vec<char>)
    ensures
        r@ == flags_label(),
{
    let mut r = Vec::new();
    r.push('F');
    r.push('l');
    r.push('a');
    r.push('g');
    r.push('s');
    r.push(':');
    r.push(' ');
    assert(r@ =~= flags_label());
    r
}

pub fn flags_marker_chars() -> (r: Vec<char>)
    ensures
        r@ == flags_marker(),
{
    let mut r = Vec::new();
    r.push('F');
    r.push('l');
    r.push('a');
    r.push('g');
    r.push('s');
    r.push(':');
    assert(r@ =~= flags_marker());
    r
}

// ---------------------------------------------------------------------
// Flags
// ---------------------------------------------------------------------

pub open spec fn flag_set(flags: u8, bit: u8) -> bool {
    flags & bit != 0
}

pub open spec fn spec_is_syn(flags: u8) -> bool {
    flag_set(flags, TH_SYN) && !flag_set(flags, TH_ACK)
}

pub open spec fn spec_is_syn_ack(flags: u8) -> bool {
    flag_set(flags, TH_SYN) && flag_set(flags, TH_ACK)
}

pub open spec fn spec_is_ack(flags: u8) -> bool {
    flag_set(flags, TH_ACK) && !flag_set(flags, TH_SYN) && !flag_set(flags, TH_FIN)
}

pub open spec fn spec_is_fin(flags: u8) -> bool {
    flag_set(flags, TH_FIN)
}

/// The flags value written after `"Flags: "` in an info line: the digits up
/// to the next comma or space (or to the end), read as a `u8`; 0 when there
/// is no such label or the text is no `u8`.
pub open spec fn flags_value_in(info: Seq<char>) -> u8 {
    match find(info, flags_label()) {
        None => 0,
        Some(p) => {
            let start = p + 7;
            let end = match find_separator_from(info, start) {
                Some(e) => e,
                None => info.len(),
            };
            match parse_unsigned(info.subrange(start as int, end as int), 255) {
                Some(v) => v as u8,
                None => 0,
            }
        },
    }
}

/// Appends `name` to a comma-separated list when `set` holds.
pub open spec fn add_name(acc: Seq<char>, set: bool, name: Seq<char>) -> Seq<char> {
    if !set {
        acc
    } else if acc.len() == 0 {
        name
    } else {
        acc + seq![','] + name
    }
}

/// The names of the flags set in `flags`, comma-separated, in the order
/// FIN, SYN, RST, PSH, ACK, URG, ECE, CWR.
pub open spec fn flag_names(flags: u8) -> Seq<char> {
    let a = add_name(Seq::empty(), flag_set(flags, TH_FIN), "FIN"@);
    let a = add_name(a, flag_set(flags, TH_SYN), "SYN"@);
    let a = add_name(a, flag_set(flags, TH_RST), "RST"@);
    let a = add_name(a, flag_set(flags, TH_PSH), "PSH"@);
    let a = add_name(a, flag_set(flags, TH_ACK), "ACK"@);
    let a = add_name(a, flag_set(flags, TH_URG), "URG"@);
    let a = add_name(a, flag_set(flags, TH_ECE), "ECE"@);
    add_name(a, flag_set(flags, TH_CWR), "CWR"@)
}

/// What `parse_flags` renders: the flag names, or `0x` and the value in two
/// hexadecimal digits when no flag is set.
pub open spec fn flags_text(flags: u8) -> Seq<char> {
    if flag_names(flags).len() == 0 {
        seq!['0', 'x'] + hex_byte(flags)
    } else {
        flag_names(flags)
    }
}

/// Appends the name of one flag when it is set.
fn append_flag(s: &mut String, set: bool, name: &str)
    ensures
        final(s)@ == add_name(old(s)@, set, name@),
{
    if set {
        if !s.as_str().is_empty() {
            push_char(s, ',');
        }
        s.append(name);
        assert(s@ =~= add_name(old(s)@, set, name@));
    }
}

/// State of a TCP stream's connection as its packets reveal it.
pub open spec fn handshake_after(handshake_complete: bool, flags: u8) -> bool {
    if spec_is_syn(flags) || spec_is_syn_ack(flags) {
        false
    } else if spec_is_ack(flags) && !handshake_complete {
        true
    } else {
        handshake_complete
    }
}

pub open spec fn teardown_after(handshake_complete: bool, teardown_started: bool, flags: u8) -> bool {
    if spec_is_syn(flags) || spec_is_syn_ack(flags) {
        teardown_started
    } else if spec_is_ack(flags) && !handshake_complete {
        teardown_started
    } else if spec_is_fin(flags) {
        true
    } else {
        teardown_started
    }
}

// ---------------------------------------------------------------------
// Streams
// ---------------------------------------------------------------------

/// What a TCP stream holds, as plain values.
pub struct StreamView {
    pub src_ip: Seq<char>,
    pub src_port: u16,
    pub dst_ip: Seq<char>,
    pub dst_port: u16,
    pub packets: Seq<PacketView>,
    pub last_activity: Seq<char>,
    pub handshake_complete: bool,
    pub teardown_started: bool,
}

/// TCP stream information
#[derive(Debug, Clone)]
pub struct TcpStream {
    pub src_ip: String,
    pub src_port: u16,
    pub dst_ip: String,
    pub dst_port: u16,
    pub packets: Vec<ParsedPacket>,
    pub last_activity: String,
    pub handshake_complete: bool,
    pub teardown_started: bool,
}

pub open spec fn packets_view(ps: Seq<ParsedPacket>) -> Seq<PacketView> {
    ps.map_values(|p: ParsedPacket| p@)
}

impl View for TcpStream {
    type V = StreamView;

    open spec fn view(&self) -> StreamView {
        StreamView {
            src_ip: self.src_ip@,
            src_port: self.src_port,
            dst_ip: self.dst_ip@,
            dst_port: self.dst_port,
            packets: packets_view(self.packets@),
            last_activity: self.last_activity@,
            handshake_complete: self.handshake_complete,
            teardown_started: self.teardown_started,
        }
    }
}

/// The stream's view after one more packet at time `t`.
pub open spec fn with_packet(s: StreamView, p: PacketView, t: Seq<char>) -> StreamView {
    StreamView { packets: s.packets.push(p), last_activity: t, ..s }
}

/// The stream's view after the handshake update for flags `f`.
pub open spec fn with_flags(s: StreamView, f: u8) -> StreamView {
    StreamView {
        handshake_complete: handshake_after(s.handshake_complete, f),
        teardown_started: teardown_after(s.handshake_complete, s.teardown_started, f),
        ..s
    }
}

impl TcpStream {
    pub fn new(
        src_ip: String,
        src_port: u16,
        dst_ip: String,
        dst_port: u16,
        first_packet: ParsedPacket,
        capture_time: String,
    ) -> (r: Self)
        ensures
            r@ == (StreamView {
                src_ip: src_ip@,
                src_port,
                dst_ip: dst_ip@,
                dst_port,
                packets: seq![first_packet@],
                last_activity: capture_time@,
                handshake_complete: false,
                teardown_started: false,
            }),
    {
        let mut packets = Vec::new();
        packets.push(first_packet);
        let r = TcpStream {
            src_ip,
            src_port,
            dst_ip,
            dst_port,
            packets,
            last_activity: capture_time,
            handshake_complete: false,
            teardown_started: false,
        };
        assert(packets_view(r.packets@) =~= seq![first_packet@]);
        r
    }

    pub fn add_packet(&mut self, packet: ParsedPacket, capture_time: String)
        ensures
            final(self)@ == with_packet(old(self)@, packet@, capture_time@),
    {
        self.packets.push(packet);
        self.last_activity = capture_time;
        assert(packets_view(self.packets@) =~= packets_view(old(self).packets@).push(packet@));
    }

    pub fn update_handshake_status(&mut self, flags_value: u8)
        ensures
            final(self)@ == with_flags(old(self)@, flags_value),
    {
        if Self::is_syn_packet(flags_value) || Self::is_syn_ack_packet(flags_value) {
            self.handshake_complete = false;
        } else if Self::is_ack_packet(flags_value) && !self.handshake_complete {
            self.handshake_complete = true;
        } else if Self::is_fin_packet(flags_value) {
            self.teardown_started = true;
        }
    }

    pub fn is_syn_packet(flags_value: u8) -> (r: bool)
        ensures
            r == spec_is_syn(flags_value),
    {
        (flags_value & TH_SYN != 0) && (flags_value & TH_ACK == 0)
    }

    pub fn is_syn_ack_packet(flags_value: u8) -> (r: bool)
        ensures
            r == spec_is_syn_ack(flags_value),
    {
        (flags_value & TH_SYN != 0) && (flags_value & TH_ACK != 0)
    }

    pub fn is_ack_packet(flags_value: u8) -> (r: bool)
        ensures
            r == spec_is_ack(flags_value),
    {
        (flags_value & TH_ACK != 0) && (flags_value & TH_SYN == 0) && (flags_value & TH_FIN == 0)
    }

    pub fn is_fin_packet(flags_value: u8) -> (r: bool)
        ensures
            r == spec_is_fin(flags_value),
    {
        flags_value & TH_FIN != 0
    }

    pub fn is_control_packet(info: &str) -> (r: bool)
        ensures
            r == contains(info@, flags_marker()),
    {
        let text = chars_of(info);
        let marker = flags_marker_chars();
        find_from_exec(&text, &marker, 0).is_some()
    }

    pub fn extract_flags_value(info: &str) -> (r: u8)
        ensures
            r == flags_value_in(info@),
    {
        let text = chars_of(info);
        let label = flags_label_chars();
        match find_from_exec(&text, &label, 0) {
            None => 0,
            Some(p) => {
                proof {
                    lemma_find_from_result(text@, label@, 0);
                }
                assert(p + 7 <= text.len());
                let start = p + 7;
                let end = match find_separator_from_exec(&text, start) {
                    Some(e) => {
                        proof {
                            lemma_separator_in_bounds(text@, start as nat);
                        }
                        e
                    },
                    None => text.len(),
                };
                match parse_unsigned_range(&text, start, end, 255) {
                    Some(v) => v as u8,
                    None => 0,
                }
            },
        }
    }

    pub fn parse_flags(flags_value: u8) -> (r: String)
        ensures
            r@ == flags_text(flags_value),
    {
        let mut s = String::new();
        append_flag(&mut s, flags_value & TH_FIN != 0, "FIN");
        append_flag(&mut s, flags_value & TH_SYN != 0, "SYN");
        append_flag(&mut s, flags_value & TH_RST != 0, "RST");
        append_flag(&mut s, flags_value & TH_PSH != 0, "PSH");
        append_flag(&mut s, flags_value & TH_ACK != 0, "ACK");
        append_flag(&mut s, flags_value & TH_URG != 0, "URG");
        append_flag(&mut s, flags_value & TH_ECE != 0, "ECE");
        append_flag(&mut s, flags_value & TH_CWR != 0, "CWR");
        if s.as_str().is_empty() {
            let mut h = String::new();
            push_char(&mut h, '0');
            push_char(&mut h, 'x');
            push_char(&mut h, hex_digit_char(flags_value / 16));
            push_char(&mut h, hex_digit_char(flags_value % 16));
            assert(h@ =~= seq!['0', 'x'] + hex_byte(flags_value));
            h
        } else {
            s
        }
    }
}

/// A separator found by the search lies inside the text.
pub proof fn lemma_separator_in_bounds(s: Seq<char>, i: nat)
    ensures
        find_separator_from(s, i) matches Some(e) ==> i <= e < s.len(),
    decreases s.len() - i,
{
    if i < s.len() && !is_field_separator(s[i as int]) {
        lemma_separator_in_bounds(s, i + 1);
    }
}


// ---------------------------------------------------------------------
// Stream keys and ports
// ---------------------------------------------------------------------

/// `"{a}:{p}-{b}:{q}"`.
pub open spec fn endpoint_pair(a: Seq<char>, p: u16, b: Seq<char>, q: u16) -> Seq<char> {
    a + seq![':'] + decimal(p as nat) + seq!['-'] + b + seq![':'] + decimal(q as nat)
}

/// The key of the stream between two endpoints: the endpoint with the
/// smaller address (then the smaller port) is written first, so both
/// directions of a connection share one key.
pub open spec fn stream_key(src_ip: Seq<char>, src_port: u16, dst_ip: Seq<char>, dst_port: u16) -> Seq<
    char,
> {
    if lex_lt(src_ip, dst_ip) || (src_ip == dst_ip && src_port < dst_port) {
        endpoint_pair(src_ip, src_port, dst_ip, dst_port)
    } else {
        endpoint_pair(dst_ip, dst_port, src_ip, src_port)
    }
}

/// The ports an info line names: the text before the first `"->"` and the
/// text from after it up to the next `" ,"`, each read as a `u16`.
pub open spec fn stream_ports(info: Seq<char>) -> Option<(u16, u16)> {
    match find(info, arrow()) {
        None => None,
        Some(a) => match find_from(info, space_comma(), a) {
            None => None,
            Some(c) => match (
                parse_unsigned(info.subrange(0, a as int), 65535),
                parse_unsigned(info.subrange(a + 2int, c as int), 65535),
            ) {
                (Some(sp), Some(dp)) => Some((sp as u16, dp as u16)),
                _ => None,
            },
        },
    }
}

/// The ports named by an info line (see `stream_ports`).
pub fn parse_stream_ports(info: &Vec<char>) -> (r: Option<(u16, u16)>)
    ensures
        r == stream_ports(info@),
{
    let arrow_text = arrow_chars();
    match find_from_exec(info, &arrow_text, 0) {
        None => None,
        Some(a) => {
            proof {
                lemma_find_from_result(info@, arrow(), 0);
                assert(info@.subrange(a as int, a + 2)[0] == '-');
                assert(info@.subrange(a as int, a + 2)[1] == '>');
            }
            let sc = space_comma_chars();
            match find_from_exec(info, &sc, a) {
                None => None,
                Some(c) => {
                    proof {
                        lemma_find_from_result(info@, space_comma(), a as nat);
                        assert(info@.subrange(c as int, c + 2)[0] == ' ');
                        assert(info@[c as int] == ' ');
                        assert(info@[a as int] == '-');
                        assert(info@[a + 1] == '>');
                    }
                    let sp = parse_unsigned_range(info, 0, a, 65535);
                    let dp = parse_unsigned_range(info, a + 2, c, 65535);
                    match (sp, dp) {
                        (Some(x), Some(y)) => Some((x as u16, y as u16)),
                        _ => None,
                    }
                },
            }
        },
    }
}

// ---------------------------------------------------------------------
// Stream manager
// ---------------------------------------------------------------------

/// The stream a first packet opens: a TCP packet whose flags are a plain
/// ACK opens it with the handshake taken as complete.
pub open spec fn fresh_stream(p: PacketView, sp: u16, dp: u16, t: Seq<char>) -> StreamView {
    StreamView {
        src_ip: p.src_ip,
        src_port: sp,
        dst_ip: p.dst_ip,
        dst_port: dp,
        packets: seq![p],
        last_activity: t,
        handshake_complete: contains(p.info, flags_marker()) && spec_is_ack(
            flags_value_in(p.info),
        ),
        teardown_started: false,
    }
}

/// A stream after one more of its packets.
pub open spec fn grown_stream(s: StreamView, p: PacketView, t: Seq<char>) -> StreamView {
    if contains(p.info, flags_marker()) {
        with_flags(with_packet(s, p, t), flags_value_in(p.info))
    } else {
        with_packet(s, p, t)
    }
}

pub open spec fn has_key(e: Seq<(Seq<char>, StreamView)>, k: Seq<char>) -> bool {
    exists|i: int| 0 <= i < e.len() && #[trigger] e[i].0 == k
}

/// `e` holds the stream `s` under the key `k`.
pub open spec fn holds_entry(e: Seq<(Seq<char>, StreamView)>, k: Seq<char>, s: StreamView) -> bool {
    exists|i: int| 0 <= i < e.len() && #[trigger] e[i] == (k, s)
}

pub open spec fn keys_distinct(e: Seq<(Seq<char>, StreamView)>) -> bool {
    forall|i: int, j: int| 0 <= i < j < e.len() ==> #[trigger] e[i].0 != #[trigger] e[j].0
}

/// The streams after a packet captured at `t`: the packet joins the stream
/// of its key, or opens a new one; a packet whose info line names no ports
/// changes nothing.
pub open spec fn streams_after(e: Seq<(Seq<char>, StreamView)>, p: PacketView, t: Seq<char>) -> Seq<
    (Seq<char>, StreamView),
> {
    match stream_ports(p.info) {
        None => e,
        Some((sp, dp)) => {
            let k = stream_key(p.src_ip, sp, p.dst_ip, dp);
            if has_key(e, k) {
                let i = choose|i: int| 0 <= i < e.len() && #[trigger] e[i].0 == k;
                e.update(i, (k, grown_stream(e[i].1, p, t)))
            } else {
                e.push((k, fresh_stream(p, sp, dp, t)))
            }
        },
    }
}

pub open spec fn stream_complete(s: StreamView) -> bool {
    s.handshake_complete && s.teardown_started
}

/// A stream sits under the key of its own endpoints, and its first packet
/// went from its source address to its destination address.
pub open spec fn entry_well_formed(k: Seq<char>, s: StreamView) -> bool {
    &&& k == stream_key(s.src_ip, s.src_port, s.dst_ip, s.dst_port)
    &&& s.packets.len() >= 1
    &&& s.packets[0].src_ip == s.src_ip
    &&& s.packets[0].dst_ip == s.dst_ip
}

/// Keys are distinct and every stream is well formed.
pub open spec fn streams_well_formed(e: Seq<(Seq<char>, StreamView)>) -> bool {
    &&& keys_distinct(e)
    &&& forall|i: int| 0 <= i < e.len() ==> entry_well_formed(#[trigger] e[i].0, e[i].1)
}

/// The number of packets held over all streams.
pub open spec fn packet_count(e: Seq<(Seq<char>, StreamView)>) -> nat
    decreases e.len(),
{
    if e.len() == 0 {
        0
    } else {
        packet_count(e.drop_last()) + e.last().1.packets.len()
    }
}

/// Replacing one stream changes the packet count by the difference of the
/// two streams' packet counts.
pub proof fn lemma_packet_count_update(
    e: Seq<(Seq<char>, StreamView)>,
    i: int,
    x: (Seq<char>, StreamView),
)
    requires
        0 <= i < e.len(),
    ensures
        packet_count(e.update(i, x)) + e[i].1.packets.len() == packet_count(e)
            + x.1.packets.len(),
    decreases e.len(),
{
    let u = e.update(i, x);
    if i == e.len() - 1 {
        assert(u.drop_last() =~= e.drop_last());
    } else {
        lemma_packet_count_update(e.drop_last(), i, x);
        assert(u.drop_last() =~= e.drop_last().update(i, x));
    }
}

/// Tracking a packet keeps the streams well formed, and adds one packet to
/// the count exactly when the packet's info line names its ports.
pub proof fn lemma_streams_after_well_formed(
    e: Seq<(Seq<char>, StreamView)>,
    p: PacketView,
    t: Seq<char>,
)
    requires
        streams_well_formed(e),
    ensures
        streams_well_formed(streams_after(e, p, t)),
        packet_count(streams_after(e, p, t)) == packet_count(e) + if stream_ports(p.info) is Some {
            1nat
        } else {
            0nat
        },
{
    match stream_ports(p.info) {
        None => {},
        Some((sp, dp)) => {
            let k = stream_key(p.src_ip, sp, p.dst_ip, dp);
            let after = streams_after(e, p, t);
            if has_key(e, k) {
                let i = choose|i: int| 0 <= i < e.len() && #[trigger] e[i].0 == k;
                let g = grown_stream(e[i].1, p, t);
                assert(g.packets[0] == e[i].1.packets[0]);
                assert(entry_well_formed(e[i].0, e[i].1));
                lemma_packet_count_update(e, i, (k, g));
                assert forall|a: int, b: int| 0 <= a < b < after.len() implies #[trigger] after[a].0
                    != #[trigger] after[b].0 by {
                    assert(after[a].0 == e[a].0);
                    assert(after[b].0 == e[b].0);
                }
                assert forall|j: int| 0 <= j < after.len() implies entry_well_formed(
                    #[trigger] after[j].0,
                    after[j].1,
                ) by {
                    if j != i {
                        assert(entry_well_formed(e[j].0, e[j].1));
                    }
                }
            } else {
                let f = fresh_stream(p, sp, dp, t);
                assert(after.drop_last() =~= e);
                assert forall|a: int, b: int| 0 <= a < b < after.len() implies #[trigger] after[a].0
                    != #[trigger] after[b].0 by {
                    if b == e.len() {
                        assert(after[a].0 == e[a].0);
                    }
                }
                assert forall|j: int| 0 <= j < after.len() implies entry_well_formed(
                    #[trigger] after[j].0,
                    after[j].1,
                ) by {
                    if j < e.len() {
                        assert(after[j] == e[j]);
                        assert(entry_well_formed(e[j].0, e[j].1));
                    }
                }
            }
        },
    }
}

pub open spec fn entries_view(v: Seq<(String, TcpStream)>) -> Seq<(Seq<char>, StreamView)> {
    v.map_values(|e: (String, TcpStream)| (e.0@, e.1@))
}

/// TCP stream manager for tracking multiple streams
pub struct TcpStreamManager {
    streams: Vec<(String, TcpStream)>,
}

impl View for TcpStreamManager {
    type V = Seq<(Seq<char>, StreamView)>;

    closed spec fn view(&self) -> Seq<(Seq<char>, StreamView)> {
        entries_view(self.streams@)
    }
}

impl TcpStreamManager {
    #[verifier::type_invariant]
    spec fn inv(self) -> bool {
        streams_well_formed(entries_view(self.streams@))
    }

    pub fn new() -> (r: Self)
        ensures
            r@ == Seq::<(Seq<char>, StreamView)>::empty(),
            streams_well_formed(r@),
    {
        let r = TcpStreamManager { streams: Vec::new() };
        assert(r@ =~= Seq::<(Seq<char>, StreamView)>::empty());
        r
    }

    /// Position of the stream with key `key`.
    fn find_key(streams: &Vec<(String, TcpStream)>, key: &String) -> (r: Option<usize>)
        ensures
            match r {
                Some(i) => i < streams@.len() && entries_view(streams@)[i as int].0 == key@,
                None => !has_key(entries_view(streams@), key@),
            },
    {
        let mut i: usize = 0;
        while i < streams.len()
            invariant
                0 <= i <= streams@.len(),
                forall|j: int| 0 <= j < i ==> #[trigger] entries_view(streams@)[j].0 != key@,
            decreases streams@.len() - i,
        {
            if streams[i].0 == *key {
                return Some(i);
            }
            i = i + 1;
        }
        None
    }

    pub fn add_or_update_stream(&mut self, packet: &ParsedPacket, capture_time: String)
        ensures
            final(self)@ == streams_after(old(self)@, packet@, capture_time@),
            streams_well_formed(final(self)@),
    {
        proof {
            use_type_invariant(&*self);
            lemma_streams_after_well_formed(self@, packet@, capture_time@);
        }
        let info = chars_of(packet.info.as_str());
        let ports = parse_stream_ports(&info);
        match ports {
            None => {},
            Some((src_port, dst_port)) => {
                let stream_key = Self::generate_stream_key(
                    packet.src_ip.as_str(),
                    src_port,
                    packet.dst_ip.as_str(),
                    dst_port,
                );
                let ghost k = stream_key@;
                let ghost e = self@;
                let mut streams: Vec<(String, TcpStream)> = Vec::new();
                std::mem::swap(&mut streams, &mut self.streams);
                assert(entries_view(streams@) == e);
                match Self::find_key(&streams, &stream_key) {
                    Some(i) => {
                        let (key, mut stream) = streams.remove(i);
                        stream.add_packet(packet.clone(), capture_time);
                        if TcpStream::is_control_packet(packet.info.as_str()) {
                            let flags_value = TcpStream::extract_flags_value(packet.info.as_str());
                            stream.update_handshake_status(flags_value);
                        }
                        streams.insert(i, (key, stream));
                        proof {
                            let j = choose|j: int| 0 <= j < e.len() && #[trigger] e[j].0 == k;
                            assert(j == i as int);
                            assert(entries_view(streams@) =~= e.update(
                                i as int,
                                (k, grown_stream(e[i as int].1, packet@, capture_time@)),
                            ));
                        }
                    },
                    None => {
                        let mut stream = TcpStream::new(
                            packet.src_ip.clone(),
                            src_port,
                            packet.dst_ip.clone(),
                            dst_port,
                            packet.clone(),
                            capture_time,
                        );
                        if TcpStream::is_control_packet(packet.info.as_str()) {
                            let flags_value = TcpStream::extract_flags_value(packet.info.as_str());
                            if TcpStream::is_ack_packet(flags_value) {
                                stream.handshake_complete = true;
                            }
                        }
                        streams.push((stream_key, stream));
                        assert(entries_view(streams@) =~= e.push(
                            (k, fresh_stream(packet@, src_port, dst_port, capture_time@)),
                        ));
                    },
                }
                self.streams = streams;
            },
        }
    }

    pub fn get_streams(&self) -> (r: &Vec<(String, TcpStream)>)
        ensures
            entries_view(r@) == self@,
            streams_well_formed(self@),
    {
        proof {
            use_type_invariant(self);
        }
        &self.streams
    }

    /// Whether `x` is among the elements of `v`.
    fn holds_index(v: &Vec<usize>, x: usize) -> (r: bool)
        ensures
            r == v@.contains(x),
    {
        let mut i: usize = 0;
        while i < v.len()
            invariant
                0 <= i <= v@.len(),
                forall|j: int| 0 <= j < i ==> v@[j] != x,
            decreases v@.len() - i,
        {
            if v[i] == x {
                assert(v@[i as int] == x);
                return true;
            }
            i = i + 1;
        }
        false
    }

    /// Up to `limit` complete streams (handshake done and teardown started),
    /// most recent activity first.
    pub fn get_complete_streams(&self, limit: usize) -> (r: Vec<(&String, &TcpStream)>)
        ensures
            r.len() <= limit,
            forall|j: int|
                0 <= j < r.len() ==> holds_entry(self@, #[trigger] r[j].0@, r[j].1@)
                    && stream_complete(r[j].1@),
            forall|j1: int, j2: int|
                0 <= j1 < j2 < r.len() ==> #[trigger] r[j1].0@ != #[trigger] r[j2].0@,
            forall|j1: int, j2: int|
                0 <= j1 < j2 < r.len() ==> !lex_lt(
                    #[trigger] r[j1].1.last_activity@,
                    #[trigger] r[j2].1.last_activity@,
                ),
            forall|i: int|
                0 <= i < self@.len() && stream_complete(#[trigger] self@[i].1) && (forall|j: int|
                    0 <= j < r.len() ==> r[j].0@ != self@[i].0) ==> r.len() == limit && forall|
                    j: int,
                | 0 <= j < r.len() ==> !lex_lt(r[j].1.last_activity@, self@[i].1.last_activity),
    {
        proof {
            use_type_invariant(self);
        }
        let ghost e = self@;
        let n = self.streams.len();
        let mut chosen: Vec<usize> = Vec::new();
        let mut exhausted = false;
        while chosen.len() < limit && !exhausted
            invariant
                n == self.streams@.len(),
                e == self@,
                e.len() == n,
                keys_distinct(e),
                chosen@.len() <= limit,
                forall|j: int| 0 <= j < chosen@.len() ==> #[trigger] chosen@[j] < n,
                forall|j: int|
                    0 <= j < chosen@.len() ==> stream_complete(e[#[trigger] chosen@[j] as int].1),
                forall|j1: int, j2: int|
                    0 <= j1 < j2 < chosen@.len() ==> #[trigger] chosen@[j1] != #[trigger] chosen@[j2],
                forall|j1: int, j2: int|
                    0 <= j1 < j2 < chosen@.len() ==> !lex_lt(
                        e[#[trigger] chosen@[j1] as int].1.last_activity,
                        e[#[trigger] chosen@[j2] as int].1.last_activity,
                    ),
                forall|i: int|
                    0 <= i < n && stream_complete(#[trigger] e[i].1) && !chosen@.contains(
                        i as usize,
                    ) ==> forall|j: int|
                        0 <= j < chosen@.len() ==> !lex_lt(
                            e[#[trigger] chosen@[j] as int].1.last_activity,
                            e[i].1.last_activity,
                        ),
                exhausted ==> forall|i: int|
                    0 <= i < n && stream_complete(#[trigger] e[i].1) ==> chosen@.contains(
                        i as usize,
                    ),
            decreases limit - chosen@.len() + (if exhausted {
                0int
            } else {
                1int
            }),
        {
            let mut best: Option<usize> = None;
            let mut i: usize = 0;
            while i < n
                invariant
                    n == self.streams@.len(),
                    e == self@,
                    e.len() == n,
                    0 <= i <= n,
                    best matches Some(b) ==> b < i && stream_complete(e[b as int].1)
                        && !chosen@.contains(b) && forall|k: int|
                        0 <= k < i && stream_complete(#[trigger] e[k].1) && !chosen@.contains(
                            k as usize,
                        ) ==> !lex_lt(e[b as int].1.last_activity, e[k].1.last_activity),
                    best is None ==> forall|k: int|
                        0 <= k < i && stream_complete(#[trigger] e[k].1) ==> chosen@.contains(
                            k as usize,
                        ),
                decreases n - i,
            {
                let st = &self.streams[i].1;
                assert(e[i as int].1 == st@);
                if st.handshake_complete && st.teardown_started && !Self::holds_index(&chosen, i) {
                    match best {
                        None => {
                            proof {
                                lemma_lex_irreflexive(e[i as int].1.last_activity);
                            }
                            best = Some(i);
                        },
                        Some(b) => {
                            let cur = chars_of(self.streams[b].1.last_activity.as_str());
                            let cand = chars_of(st.last_activity.as_str());
                            if lex_less(&cur, &cand) {
                                proof {
                                    lemma_lex_irreflexive(e[i as int].1.last_activity);
                                    assert forall|k: int|
                                        0 <= k < i + 1 && stream_complete(#[trigger] e[k].1)
                                            && !chosen@.contains(k as usize) implies !lex_lt(
                                        e[i as int].1.last_activity,
                                        e[k].1.last_activity,
                                    ) by {
                                        if k < i && lex_lt(
                                            e[i as int].1.last_activity,
                                            e[k].1.last_activity,
                                        ) {
                                            lemma_lex_transitive(
                                                e[b as int].1.last_activity,
                                                e[i as int].1.last_activity,
                                                e[k].1.last_activity,
                                            );
                                        }
                                    }
                                }
                                best = Some(i);
                            }
                        },
                    }
                }
                i = i + 1;
            }
            match best {
                None => {
                    exhausted = true;
                },
                Some(b) => {
                    let ghost old_chosen = chosen@;
                    chosen.push(b);
                    proof {
                        assert forall|x: usize| chosen@.contains(x) <==> (old_chosen.contains(x) || x
                            == b) by {
                            if chosen@.contains(x) {
                                let j = choose|j: int| 0 <= j < chosen@.len() && chosen@[j] == x;
                                if j < old_chosen.len() {
                                    assert(old_chosen[j] == x);
                                }
                            }
                            if old_chosen.contains(x) {
                                let j = choose|j: int| 0 <= j < old_chosen.len() && old_chosen[j] == x;
                                assert(chosen@[j] == x);
                            }
                            if x == b {
                                assert(chosen@[old_chosen.len() as int] == x);
                            }
                        }
                        assert forall|j1: int, j2: int|
                            0 <= j1 < j2 < chosen@.len() implies #[trigger] chosen@[j1]
                            != #[trigger] chosen@[j2] by {
                            if j2 == old_chosen.len() {
                                assert(old_chosen.contains(chosen@[j1]));
                            }
                        }
                    }
                },
            }
        }
        let mut r: Vec<(&String, &TcpStream)> = Vec::new();
        let mut j: usize = 0;
        while j < chosen.len()
            invariant
                n == self.streams@.len(),
                e == self@,
                e.len() == n,
                0 <= j <= chosen@.len(),
                r@.len() == j,
                forall|x: int| 0 <= x < chosen@.len() ==> #[trigger] chosen@[x] < n,
                forall|x: int|
                    #![trigger r@[x]]
                    0 <= x < j ==> r@[x].0@ == e[chosen@[x] as int].0 && r@[x].1@ == e[chosen@[
                        x] as int].1,
            decreases chosen@.len() - j,
        {
            let c = chosen[j];
            let entry = &self.streams[c];
            r.push((&entry.0, &entry.1));
            j = j + 1;
        }
        proof {
            assert forall|x: int| 0 <= x < r.len() implies holds_entry(
                self@,
                #[trigger] r[x].0@,
                r[x].1@,
            ) && stream_complete(r[x].1@) by {
                let i = chosen@[x] as int;
                assert(r@[x].0@ == e[i].0);
                assert(r@[x].1@ == e[i].1);
                assert(stream_complete(e[i].1));
                assert(self@[i] == (r[x].0@, r[x].1@));
            }
            assert forall|j1: int, j2: int| 0 <= j1 < j2 < r.len() implies #[trigger] r[j1].0@
                != #[trigger] r[j2].0@ by {
                assert(r@[j1].0@ == e[chosen@[j1] as int].0);
                assert(r@[j2].0@ == e[chosen@[j2] as int].0);
            }
            assert forall|j1: int, j2: int| 0 <= j1 < j2 < r.len() implies !lex_lt(
                #[trigger] r[j1].1.last_activity@,
                #[trigger] r[j2].1.last_activity@,
            ) by {
                assert(r@[j1].1@ == e[chosen@[j1] as int].1);
                assert(r@[j2].1@ == e[chosen@[j2] as int].1);
            }
            assert forall|i: int|
                0 <= i < self@.len() && stream_complete(#[trigger] self@[i].1) && (forall|j: int|
                    0 <= j < r.len() ==> r[j].0@ != self@[i].0) implies r.len() == limit && forall|
                j: int,
            | 0 <= j < r.len() ==> !lex_lt(r[j].1.last_activity@, self@[i].1.last_activity) by {
                if chosen@.contains(i as usize) {
                    let j = choose|j: int| 0 <= j < chosen@.len() && chosen@[j] == i as usize;
                    assert(r@[j].0@ == e[i].0);
                }
                assert forall|j: int| 0 <= j < r.len() implies !lex_lt(
                    r[j].1.last_activity@,
                    self@[i].1.last_activity,
                ) by {
                    assert(r@[j].1@ == e[chosen@[j] as int].1);
                }
            }
        }
        r
    }

    pub fn clear(&mut self)
        ensures
            final(self)@ == Seq::<(Seq<char>, StreamView)>::empty(),
    {
        self.streams = Vec::new();
        assert(self@ =~= Seq::<(Seq<char>, StreamView)>::empty());
    }

    pub fn generate_stream_key(src_ip: &str, src_port: u16, dst_ip: &str, dst_port: u16) -> (r:
        String)
        ensures
            r@ == stream_key(src_ip@, src_port, dst_ip@, dst_port),
    {
        let a = chars_of(src_ip);
        let b = chars_of(dst_ip);
        let a_first = lex_less(&a, &b);
        let b_first = lex_less(&b, &a);
        proof {
            lemma_lex_total(a@, b@);
        }
        let same = !a_first && !b_first;
        let mut r = String::new();
        if a_first || (same && src_port < dst_port) {
            r.append(src_ip);
            push_char(&mut r, ':');
            push_decimal(&mut r, src_port as u64);
            push_char(&mut r, '-');
            r.append(dst_ip);
            push_char(&mut r, ':');
            push_decimal(&mut r, dst_port as u64);
            assert(r@ =~= endpoint_pair(src_ip@, src_port, dst_ip@, dst_port));
        } else {
            r.append(dst_ip);
            push_char(&mut r, ':');
            push_decimal(&mut r, dst_port as u64);
            push_char(&mut r, '-');
            r.append(src_ip);
            push_char(&mut r, ':');
            push_decimal(&mut r, src_port as u64);
            assert(r@ =~= endpoint_pair(dst_ip@, dst_port, src_ip@, src_port));
        }
        r
    }
}

impl Default for TcpStreamManager {
    fn default() -> (r: Self)
        ensures
            r@ == Seq::<(Seq<char>, StreamView)>::empty(),
    {
        Self::new()
    }
}

} // verus!
