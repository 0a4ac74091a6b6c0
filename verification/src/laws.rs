//! Properties that span several functions of the library.

use vstd::prelude::*;

use crate::config::{holds_well_known_services, port_lookup, well_known_service};
use crate::packet::{tcp_info, udp_info, PacketView};
use crate::protocol::{
    arrow, flag_names, flags_label, flags_marker, flags_value_in, grown_stream, has_key,
    keys_distinct, space_comma, spec_is_ack, spec_is_fin, spec_is_syn, spec_is_syn_ack,
    stream_key, stream_ports, streams_after, StreamView, add_name, with_flags, with_packet,
    handshake_after, teardown_after, streams_well_formed, packet_count,
    lemma_streams_after_well_formed, flag_set, flags_text, TH_FIN, TH_SYN, TH_RST, TH_PSH,
    TH_ACK, TH_URG, TH_ECE, TH_CWR,
};
use crate::traffic::{
    add_traffic, all_tables, analyzer_after, lemma_add_traffic, protocols_distinct,
    total_traffic, traffic_of, AnalyzerView, TrafficEntries, history_in_order,
    lemma_history_in_order_step,
};
use crate::ui::{all_protocols, filtered_positions, lowered, passes_filters};
use crate::display::{category_of, is_stream_protocol, summary_flag_names, PacketCategory, add_item};
use crate::text::{
    all_digits, contains, decimal, digits_value, find, find_from, find_separator_from,
    is_ascii_digit, is_field_separator, lemma_decimal_digits, lemma_find_from_first,
    lemma_find_from_result,
    lemma_lex_asymmetric, lemma_lex_irreflexive, lemma_lex_total, matches_at, parse_unsigned,
    unsigned_digits,
};

verus! {

/// A decimal rendering reads back as the number it renders, for any bound
/// the number respects.
pub proof fn lemma_parse_decimal(n: nat, max: nat)
    requires
        n <= max,
    ensures
        parse_unsigned(decimal(n), max) == Some(n),
{
    lemma_decimal_digits(n);
    let d = decimal(n);
    assert(is_ascii_digit(d[0]));
    assert(unsigned_digits(d) == d);
}

/// No occurrence of `needle` starts at a position of `[from, to)` whose
/// character differs from the needle's first.
proof fn lemma_no_match_before(hay: Seq<char>, needle: Seq<char>, from: int, to: int)
    requires
        needle.len() > 0,
        forall|j: int| from <= j < to ==> hay[j] != needle[0],
    ensures
        forall|j: int| from <= j < to ==> !#[trigger] matches_at(hay, needle, j),
{
    assert forall|j: int| from <= j < to implies !#[trigger] matches_at(hay, needle, j) by {
        if matches_at(hay, needle, j) {
            assert(hay.subrange(j, j + needle.len())[0] == hay[j]);
        }
    }
}

/// An info line that starts with two port numbers joined by `"->"` and
/// followed by `" ,"` reads back as those ports.
proof fn lemma_ports_read_back(src: u16, dst: u16, tail: Seq<char>)
    requires
        tail.len() >= 2,
        tail[0] == ' ',
        tail[1] == ',',
    ensures
        stream_ports(decimal(src as nat) + arrow() + decimal(dst as nat) + tail) == Some((src, dst)),
{
    let s1 = decimal(src as nat);
    let s2 = decimal(dst as nat);
    let info = s1 + arrow() + s2 + tail;
    lemma_decimal_digits(src as nat);
    lemma_decimal_digits(dst as nat);
    let a = s1.len() as int;
    let c = a + 2 + s2.len();
    assert forall|j: int| 0 <= j < a implies info[j] != arrow()[0] by {
        assert(info[j] == s1[j]);
        assert(is_ascii_digit(s1[j]));
    }
    lemma_no_match_before(info, arrow(), 0, a);
    assert(info.subrange(a, a + 2) =~= arrow());
    lemma_find_from_first(info, arrow(), 0, a as nat);
    assert forall|j: int| a <= j < c implies info[j] != space_comma()[0] by {
        if j >= a + 2 {
            assert(info[j] == s2[j - a - 2]);
            assert(is_ascii_digit(s2[j - a - 2]));
        }
    }
    lemma_no_match_before(info, space_comma(), a, c);
    assert(info.subrange(c, c + 2) =~= space_comma());
    lemma_find_from_first(info, space_comma(), a as nat, c as nat);
    assert(info.subrange(0, a) =~= s1);
    assert(info.subrange(a + 2, c) =~= s2);
    lemma_parse_decimal(src as nat, 65535);
    lemma_parse_decimal(dst as nat, 65535);
}

/// A text with no `'F'` before `"Flags: "`, then a flags value, then a
/// comma, carries that flags value.
proof fn lemma_flags_read_back(head: Seq<char>, flags: u8, rest: Seq<char>)
    requires
        forall|j: int| 0 <= j < head.len() ==> #[trigger] head[j] != 'F',
        rest.len() > 0,
        rest[0] == ',',
    ensures
        contains(head + flags_label() + decimal(flags as nat) + rest, flags_marker()),
        flags_value_in(head + flags_label() + decimal(flags as nat) + rest) == flags,
{
    let s3 = decimal(flags as nat);
    let info = head + flags_label() + s3 + rest;
    lemma_decimal_digits(flags as nat);
    let p = head.len() as int;
    let start = p + 7;
    let l3 = s3.len() as int;
    assert forall|j: int| 0 <= j < p implies info[j] != flags_label()[0] by {
        assert(info[j] == head[j]);
    }
    lemma_no_match_before(info, flags_label(), 0, p);
    assert(info.subrange(p, p + 7) =~= flags_label());
    lemma_find_from_first(info, flags_label(), 0, p as nat);
    assert forall|j: int| 0 <= j < p implies info[j] != flags_marker()[0] by {
        assert(info[j] == head[j]);
    }
    lemma_no_match_before(info, flags_marker(), 0, p);
    assert(info.subrange(p, p + 6) =~= flags_marker());
    lemma_find_from_first(info, flags_marker(), 0, p as nat);
    assert forall|j: int| start <= j < start + l3 implies is_ascii_digit(#[trigger] info[j]) by {
        assert(info[j] == s3[j - start]);
    }
    assert(info[start + l3] == rest[0]);
    lemma_separator_after_digits(info, start, start + l3);
    assert(info.subrange(start, start + l3) =~= s3);
    lemma_parse_decimal(flags as nat, 255);
}

/// Reading the ports and flags back from the info line of a TCP packet
/// gives the ports and flags it was written from: the stream tracker sees
/// the connection the parser saw.
pub proof fn law_tcp_info_reads_back(src: u16, dst: u16, flags: u8, seq: u32, ack: u32)
    ensures
        stream_ports(tcp_info(src, dst, flags, seq, ack)) == Some((src, dst)),
        contains(tcp_info(src, dst, flags, seq, ack), flags_marker()),
        flags_value_in(tcp_info(src, dst, flags, seq, ack)) == flags,
{
    reveal_strlit(" ,Flags: ");
    reveal_strlit(", Seq: ");
    let s1 = decimal(src as nat);
    let s2 = decimal(dst as nat);
    let s3 = decimal(flags as nat);
    let rest = ", Seq: "@ + decimal(seq as nat) + ", Ack: "@ + decimal(ack as nat);
    let info = tcp_info(src, dst, flags, seq, ack);
    let tail = " ,Flags: "@ + s3 + rest;
    assert(info =~= s1 + arrow() + s2 + tail);
    lemma_ports_read_back(src, dst, tail);
    let head = s1 + arrow() + s2 + seq![' ', ','];
    lemma_decimal_digits(src as nat);
    lemma_decimal_digits(dst as nat);
    assert forall|j: int| 0 <= j < head.len() implies #[trigger] head[j] != 'F' by {
        if j < s1.len() {
            assert(is_ascii_digit(s1[j]));
        } else if s1.len() + 2 <= j < s1.len() + 2 + s2.len() {
            assert(head[j] == s2[j - s1.len() - 2]);
            assert(is_ascii_digit(s2[j - s1.len() - 2]));
        }
    }
    assert(info =~= head + flags_label() + s3 + rest);
    lemma_flags_read_back(head, flags, rest);
}

/// Reading the ports back from the info line of a UDP datagram gives the
/// ports it was written from.
pub proof fn law_udp_info_reads_back(src: u16, dst: u16, length: u16)
    ensures
        stream_ports(udp_info(src, dst, length)) == Some((src, dst)),
{
    reveal_strlit(" ,Length: ");
    let tail = " ,Length: "@ + decimal(length as nat);
    assert(udp_info(src, dst, length) =~= decimal(src as nat) + arrow() + decimal(dst as nat)
        + tail);
    lemma_ports_read_back(src, dst, tail);
}

/// In `s`, the characters of `[from, to)` are digits and the one at `to`
/// is a comma: the separator search from `from` stops at `to`.
proof fn lemma_separator_after_digits(s: Seq<char>, from: int, to: int)
    requires
        0 <= from <= to < s.len(),
        forall|j: int| from <= j < to ==> is_ascii_digit(#[trigger] s[j]),
        s[to] == ',',
    ensures
        find_separator_from(s, from as nat) == Some(to as nat),
    decreases to - from,
{
    if from < to {
        assert(is_ascii_digit(s[from]));
        assert(!is_field_separator(s[from]));
        lemma_separator_after_digits(s, from + 1, to);
    }
}

/// Both directions of a connection share one stream key.
pub proof fn law_stream_key_symmetric(a: Seq<char>, p: u16, b: Seq<char>, q: u16)
    ensures
        stream_key(a, p, b, q) == stream_key(b, q, a, p),
{
    lemma_lex_total(a, b);
    lemma_lex_asymmetric(a, b);
    lemma_lex_asymmetric(b, a);
    lemma_lex_irreflexive(a);
}


/// A TCP packet's flags are at most one of SYN, SYN-ACK, plain ACK; a
/// plain ACK carries neither SYN nor FIN.
pub proof fn law_flag_classes_exclusive(flags: u8)
    ensures
        !(spec_is_syn(flags) && spec_is_syn_ack(flags)),
        spec_is_ack(flags) ==> !spec_is_syn(flags) && !spec_is_syn_ack(flags) && !spec_is_fin(
            flags,
        ),
{
}

/// The rendered flag names are empty exactly when no flag bit is set (and
/// then the value is shown in hex).
pub proof fn law_flag_names_empty_iff_zero(flags: u8)
    ensures
        flag_names(flags).len() == 0 <==> flags == 0,
{
    reveal_strlit("FIN");
    reveal_strlit("SYN");
    reveal_strlit("RST");
    reveal_strlit("PSH");
    reveal_strlit("ACK");
    reveal_strlit("URG");
    reveal_strlit("ECE");
    reveal_strlit("CWR");
    assert(flags != 0 ==> flags & 1 != 0 || flags & 2 != 0 || flags & 4 != 0 || flags & 8 != 0
        || flags & 16 != 0 || flags & 32 != 0 || flags & 64 != 0 || flags & 128 != 0)
        by (bit_vector);
    assert(flags == 0 ==> flags & 1 == 0 && flags & 2 == 0 && flags & 4 == 0 && flags & 8 == 0
        && flags & 16 == 0 && flags & 32 == 0 && flags & 64 == 0 && flags & 128 == 0)
        by (bit_vector);
}

/// The `i`-th flag bit in the order the flag names are written.
spec fn flag_bit(i: nat) -> u8 {
    if i == 0 {
        TH_FIN
    } else if i == 1 {
        TH_SYN
    } else if i == 2 {
        TH_RST
    } else if i == 3 {
        TH_PSH
    } else if i == 4 {
        TH_ACK
    } else if i == 5 {
        TH_URG
    } else if i == 6 {
        TH_ECE
    } else {
        TH_CWR
    }
}

/// The name of the `i`-th flag bit.
spec fn flag_label(i: nat) -> Seq<char> {
    if i == 0 {
        seq!['F', 'I', 'N']
    } else if i == 1 {
        seq!['S', 'Y', 'N']
    } else if i == 2 {
        seq!['R', 'S', 'T']
    } else if i == 3 {
        seq!['P', 'S', 'H']
    } else if i == 4 {
        seq!['A', 'C', 'K']
    } else if i == 5 {
        seq!['U', 'R', 'G']
    } else if i == 6 {
        seq!['E', 'C', 'E']
    } else {
        seq!['C', 'W', 'R']
    }
}

/// The names of the set flags among the first `n` bits, comma-separated.
spec fn names_upto(v: u8, n: nat) -> Seq<char>
    decreases n,
{
    if n == 0 {
        Seq::empty()
    } else {
        add_name(
            names_upto(v, (n - 1) as nat),
            flag_set(v, flag_bit((n - 1) as nat)),
            flag_label((n - 1) as nat),
        )
    }
}

proof fn lemma_flag_label(i: nat)
    ensures
        flag_label(i).len() == 3,
        flag_label(i)[0] != 'x',
        forall|j: nat| j != i && j < 8 && i < 8 ==> flag_label(j)[0] != flag_label(i)[0],
{
}

proof fn lemma_flag_names_upto(v: u8)
    ensures
        flag_names(v) == names_upto(v, 8),
{
    reveal_strlit("FIN");
    reveal_strlit("SYN");
    reveal_strlit("RST");
    reveal_strlit("PSH");
    reveal_strlit("ACK");
    reveal_strlit("URG");
    reveal_strlit("ECE");
    reveal_strlit("CWR");
    reveal_with_fuel(names_upto, 9);
    assert("FIN"@ =~= flag_label(0));
    assert("SYN"@ =~= flag_label(1));
    assert("RST"@ =~= flag_label(2));
    assert("PSH"@ =~= flag_label(3));
    assert("ACK"@ =~= flag_label(4));
    assert("URG"@ =~= flag_label(5));
    assert("ECE"@ =~= flag_label(6));
    assert("CWR"@ =~= flag_label(7));
}

/// A non-empty list of names ends with a whole name of one of its bits.
proof fn lemma_names_tail(v: u8, n: nat)
    requires
        n <= 8,
    ensures
        names_upto(v, n).len() > 0 ==> names_upto(v, n).len() >= 3 && exists|j: nat|
            j < n && names_upto(v, n)[names_upto(v, n).len() - 3] == #[trigger] flag_label(j)[0],
    decreases n,
{
    if n > 0 {
        let m = (n - 1) as nat;
        lemma_names_tail(v, m);
        lemma_flag_label(m);
        let x = names_upto(v, m);
        let r = names_upto(v, n);
        if flag_set(v, flag_bit(m)) {
            if x.len() > 0 {
                assert(r == x + seq![','] + flag_label(m));
            }
            assert(r[r.len() - 3] == flag_label(m)[0]);
        } else {
            if x.len() > 0 {
                let j = choose|j: nat| j < m && x[x.len() - 3] == #[trigger] flag_label(j)[0];
                assert(r[r.len() - 3] == flag_label(j)[0]);
            }
        }
    }
}

/// Equal name lists come from equal bits.
proof fn lemma_names_injective(a: u8, b: u8, n: nat)
    requires
        n <= 8,
        names_upto(a, n) == names_upto(b, n),
    ensures
        forall|i: nat| i < n ==> flag_set(a, #[trigger] flag_bit(i)) == flag_set(b, flag_bit(i)),
    decreases n,
{
    if n > 0 {
        let m = (n - 1) as nat;
        let xa = names_upto(a, m);
        let xb = names_upto(b, m);
        let r = names_upto(a, n);
        let sa = flag_set(a, flag_bit(m));
        let sb = flag_set(b, flag_bit(m));
        lemma_flag_label(m);
        lemma_names_tail(a, m);
        lemma_names_tail(b, m);
        if sa && !sb {
            assert(r[r.len() - 3] == flag_label(m)[0]);
            let j = choose|j: nat| j < m && xb[xb.len() - 3] == #[trigger] flag_label(j)[0];
            lemma_flag_label(j);
            assert(false);
        }
        if !sa && sb {
            assert(names_upto(b, n)[r.len() - 3] == flag_label(m)[0]);
            let j = choose|j: nat| j < m && xa[xa.len() - 3] == #[trigger] flag_label(j)[0];
            lemma_flag_label(j);
            assert(false);
        }
        if sa && sb {
            if xa.len() > 0 && xb.len() > 0 {
                assert(xa =~= r.subrange(0, r.len() - 4));
                assert(xb =~= r.subrange(0, r.len() - 4));
            } else if xa.len() > 0 {
                assert(r.len() >= 7);
                assert(false);
            } else if xb.len() > 0 {
                assert(r.len() >= 7);
                assert(false);
            } else {
                assert(xa =~= xb);
            }
        }
        lemma_names_injective(a, b, m);
    }
}

/// The text `parse_flags` renders determines the flags byte: different
/// bytes are rendered differently.
pub proof fn law_flags_text_determines_flags(a: u8, b: u8)
    requires
        flags_text(a) == flags_text(b),
    ensures
        a == b,
{
    law_flag_names_empty_iff_zero(a);
    law_flag_names_empty_iff_zero(b);
    lemma_flag_names_upto(a);
    lemma_flag_names_upto(b);
    lemma_names_tail(a, 8);
    lemma_names_tail(b, 8);
    if flag_names(a).len() == 0 && flag_names(b).len() > 0 {
        let t = flag_names(b);
        assert(flags_text(a)[1] == 'x');
        let j = choose|j: nat| j < 8 && t[t.len() - 3] == #[trigger] flag_label(j)[0];
        lemma_flag_label(j);
        assert(false);
    }
    if flag_names(b).len() == 0 && flag_names(a).len() > 0 {
        let t = flag_names(a);
        assert(flags_text(b)[1] == 'x');
        let j = choose|j: nat| j < 8 && t[t.len() - 3] == #[trigger] flag_label(j)[0];
        lemma_flag_label(j);
        assert(false);
    }
    if flag_names(a).len() > 0 && flag_names(b).len() > 0 {
        lemma_names_injective(a, b, 8);
        assert(flag_set(a, flag_bit(0)) == flag_set(b, flag_bit(0)));
        assert(flag_set(a, flag_bit(1)) == flag_set(b, flag_bit(1)));
        assert(flag_set(a, flag_bit(2)) == flag_set(b, flag_bit(2)));
        assert(flag_set(a, flag_bit(3)) == flag_set(b, flag_bit(3)));
        assert(flag_set(a, flag_bit(4)) == flag_set(b, flag_bit(4)));
        assert(flag_set(a, flag_bit(5)) == flag_set(b, flag_bit(5)));
        assert(flag_set(a, flag_bit(6)) == flag_set(b, flag_bit(6)));
        assert(flag_set(a, flag_bit(7)) == flag_set(b, flag_bit(7)));
        assert(a == b) by (bit_vector)
            requires
                (a & 1 != 0) == (b & 1 != 0),
                (a & 2 != 0) == (b & 2 != 0),
                (a & 4 != 0) == (b & 4 != 0),
                (a & 8 != 0) == (b & 8 != 0),
                (a & 16 != 0) == (b & 16 != 0),
                (a & 32 != 0) == (b & 32 != 0),
                (a & 64 != 0) == (b & 64 != 0),
                (a & 128 != 0) == (b & 128 != 0),
        ;
    }
}

/// A configuration holding the well-known services names each port by its
/// service.
pub proof fn law_well_known_lookup(m: Map<u16, &'static str>, port: u16)
    requires
        holds_well_known_services(m),
    ensures
        port_lookup(m, port) == well_known_service(port),
{
    assert(m.contains_key(port) <==> well_known_service(port) is Some);
}

/// Tracking a packet keeps every stream where it was, under its key; at
/// most one stream is added, at the end.
pub proof fn law_streams_kept(e: Seq<(Seq<char>, StreamView)>, p: PacketView, t: Seq<char>)
    ensures
        e.len() <= streams_after(e, p, t).len() <= e.len() + 1,
        forall|i: int| 0 <= i < e.len() ==> (#[trigger] streams_after(e, p, t)[i]).0 == e[i].0,
{
}

/// A packet whose info line names its ports lands, with its capture time,
/// at the end of the stream of its key.
pub proof fn law_packet_joins_its_stream(
    e: Seq<(Seq<char>, StreamView)>,
    p: PacketView,
    t: Seq<char>,
    sp: u16,
    dp: u16,
)
    requires
        stream_ports(p.info) == Some((sp, dp)),
    ensures
        exists|i: int|
            0 <= i < streams_after(e, p, t).len() && #[trigger] streams_after(e, p, t)[i].0
                == stream_key(p.src_ip, sp, p.dst_ip, dp) && streams_after(e, p, t)[i].1.packets.last()
                == p && streams_after(e, p, t)[i].1.last_activity == t,
{
    let k = stream_key(p.src_ip, sp, p.dst_ip, dp);
    let after = streams_after(e, p, t);
    if has_key(e, k) {
        let i = choose|i: int| 0 <= i < e.len() && #[trigger] e[i].0 == k;
        assert(after[i].0 == k);
    } else {
        assert(after[e.len() as int].0 == k);
    }
}

/// The streams after tracking the packets of `events` (each with its
/// capture time) in order, starting with no stream.
pub open spec fn streams_of_run(events: Seq<(PacketView, Seq<char>)>) -> Seq<(Seq<char>, StreamView)>
    decreases events.len(),
{
    if events.len() == 0 {
        Seq::empty()
    } else {
        streams_after(streams_of_run(events.drop_last()), events.last().0, events.last().1)
    }
}

/// How many of `events` carry an info line that names its ports.
pub open spec fn ported_count(events: Seq<(PacketView, Seq<char>)>) -> nat
    decreases events.len(),
{
    if events.len() == 0 {
        0
    } else {
        ported_count(events.drop_last()) + if stream_ports(events.last().0.info) is Some {
            1nat
        } else {
            0nat
        }
    }
}

/// In every state reached from an empty tracker, every stream sits under
/// the key of its own endpoints with a first packet from its source to its
/// destination, keys are distinct, and each packet whose info line names
/// its ports is held exactly once.
pub proof fn law_streams_of_run(events: Seq<(PacketView, Seq<char>)>)
    ensures
        streams_well_formed(streams_of_run(events)),
        packet_count(streams_of_run(events)) == ported_count(events),
    decreases events.len(),
{
    if events.len() > 0 {
        law_streams_of_run(events.drop_last());
        lemma_streams_after_well_formed(
            streams_of_run(events.drop_last()),
            events.last().0,
            events.last().1,
        );
    }
}

/// Once a stream's teardown has started it stays started, whatever packet
/// comes next.
pub proof fn law_teardown_sticky(e: Seq<(Seq<char>, StreamView)>, p: PacketView, t: Seq<char>)
    ensures
        forall|i: int|
            0 <= i < e.len() && e[i].1.teardown_started ==> (#[trigger] streams_after(
                e,
                p,
                t,
            )[i]).1.teardown_started,
{
}

/// A SYN or SYN-ACK seen on a known stream leaves its handshake incomplete.
pub proof fn law_syn_reopens_handshake(s: StreamView, p: PacketView, t: Seq<char>)
    requires
        contains(p.info, flags_marker()),
        spec_is_syn(flags_value_in(p.info)) || spec_is_syn_ack(flags_value_in(p.info)),
    ensures
        !grown_stream(s, p, t).handshake_complete,
        grown_stream(s, p, t).teardown_started == s.teardown_started,
{
}

/// The history never grows past its limit once within it.
pub proof fn law_history_bounded(a: AnalyzerView, protocol: Seq<char>, length: usize, now: u64)
    requires
        a.history.len() <= a.history_limit,
    ensures
        analyzer_after(a, protocol, length, now).history.len() <= a.history_limit,
        analyzer_after(a, protocol, length, now).history_limit == a.history_limit,
{
}

proof fn lemma_tables_push(h: Seq<(u64, TrafficEntries)>, x: (u64, TrafficEntries))
    ensures
        h.push(x).map_values(|e: (u64, TrafficEntries)| e.1) == h.map_values(
            |e: (u64, TrafficEntries)| e.1,
        ).push(x.1),
{
    assert(h.push(x).map_values(|e: (u64, TrafficEntries)| e.1) =~= h.map_values(
        |e: (u64, TrafficEntries)| e.1,
    ).push(x.1));
}

/// Counting a packet adds its length to the total of its protocol, and to
/// no other, unless it closes a second while the history is full: no byte
/// is lost when a second is closed into a history with room.
pub proof fn law_traffic_conserved(
    a: AnalyzerView,
    protocol: Seq<char>,
    length: usize,
    now: u64,
    k: Seq<char>,
)
    requires
        protocols_distinct(a.current),
        traffic_of(a.current, protocol) + length <= usize::MAX,
        a.history.len() < a.history_limit || now <= a.last_update_time,
    ensures
        total_traffic(all_tables(analyzer_after(a, protocol, length, now)), k) == total_traffic(
            all_tables(a),
            k,
        ) + if k == protocol {
            length as nat
        } else {
            0
        },
{
    let b = analyzer_after(a, protocol, length, now);
    let cur = add_traffic(a.current, protocol, length);
    lemma_add_traffic(a.current, protocol, length, k);
    let tables = a.history.map_values(|e: (u64, TrafficEntries)| e.1);
    assert(all_tables(a).drop_last() =~= tables);
    assert(all_tables(a).last() == a.current);
    assert(total_traffic(all_tables(a), k) == total_traffic(tables, k) + traffic_of(a.current, k));
    if now - a.last_update_time >= 1 {
        lemma_tables_push(a.history, (a.last_update_time, cur));
        let t2 = tables.push(cur);
        assert(b.history == a.history.push((a.last_update_time, cur)));
        assert(all_tables(b) =~= t2.push(Seq::empty()));
        assert(all_tables(b).drop_last() =~= t2);
        assert(t2.drop_last() =~= tables);
        assert(traffic_of(Seq::<(Seq<char>, usize)>::empty(), k) == 0);
        assert(total_traffic(t2, k) == total_traffic(tables, k) + traffic_of(cur, k));
        assert(total_traffic(all_tables(b), k) == total_traffic(t2, k) + traffic_of(
            Seq::<(Seq<char>, usize)>::empty(),
            k,
        ));
    } else {
        assert(all_tables(b) =~= tables.push(cur));
        assert(all_tables(b).drop_last() =~= tables);
        assert(total_traffic(all_tables(b), k) == total_traffic(tables, k) + traffic_of(cur, k));
    }
}

/// The analyzer after counting the packets of `steps` in order, each a
/// protocol, a length and the clock reading at which it was counted.
pub open spec fn analyzer_run(a: AnalyzerView, steps: Seq<(Seq<char>, usize, u64)>) -> AnalyzerView
    decreases steps.len(),
{
    if steps.len() == 0 {
        a
    } else {
        analyzer_after(
            analyzer_run(a, steps.drop_last()),
            steps.last().0,
            steps.last().1,
            steps.last().2,
        )
    }
}

/// No count of a protocol in a second exceeds `usize` along the run.
pub open spec fn run_fits(a: AnalyzerView, steps: Seq<(Seq<char>, usize, u64)>) -> bool
    decreases steps.len(),
{
    steps.len() == 0 || (run_fits(a, steps.drop_last()) && traffic_of(
        analyzer_run(a, steps.drop_last()).current,
        steps.last().0,
    ) + steps.last().1 <= usize::MAX)
}

/// How many seconds the run closes.
pub open spec fn run_rollovers(a: AnalyzerView, steps: Seq<(Seq<char>, usize, u64)>) -> nat
    decreases steps.len(),
{
    if steps.len() == 0 {
        0
    } else {
        run_rollovers(a, steps.drop_last()) + if steps.last().2 > analyzer_run(
            a,
            steps.drop_last(),
        ).last_update_time {
            1nat
        } else {
            0nat
        }
    }
}

/// The bytes the run counts for protocol `k`.
pub open spec fn run_bytes(steps: Seq<(Seq<char>, usize, u64)>, k: Seq<char>) -> nat
    decreases steps.len(),
{
    if steps.len() == 0 {
        0
    } else {
        run_bytes(steps.drop_last(), k) + if steps.last().0 == k {
            steps.last().1 as nat
        } else {
            0nat
        }
    }
}

/// Over a run of counted packets that drops no second from the history,
/// the totals per protocol grow by exactly the bytes counted: none is lost
/// or counted twice when seconds roll into the history. From a fresh or
/// cleared analyzer the totals are exactly the bytes counted.
pub proof fn law_traffic_conserved_over_run(
    a: AnalyzerView,
    steps: Seq<(Seq<char>, usize, u64)>,
    k: Seq<char>,
)
    requires
        protocols_distinct(a.current),
        run_fits(a, steps),
        a.history.len() + run_rollovers(a, steps) <= a.history_limit,
    ensures
        total_traffic(all_tables(analyzer_run(a, steps)), k) == total_traffic(all_tables(a), k)
            + run_bytes(steps, k),
        a.history.len() == 0 && a.current.len() == 0 ==> total_traffic(
            all_tables(analyzer_run(a, steps)),
            k,
        ) == run_bytes(steps, k),
        protocols_distinct(analyzer_run(a, steps).current),
        analyzer_run(a, steps).history.len() == a.history.len() + run_rollovers(a, steps),
        analyzer_run(a, steps).history_limit == a.history_limit,
    decreases steps.len(),
{
    if steps.len() > 0 {
        let pre = steps.drop_last();
        let s = steps.last();
        law_traffic_conserved_over_run(a, pre, k);
        let b = analyzer_run(a, pre);
        law_traffic_conserved(b, s.0, s.1, s.2, k);
        lemma_add_traffic(b.current, s.0, s.1, k);
    }
    if a.history.len() == 0 && a.current.len() == 0 {
        let t = all_tables(a);
        assert(t.len() == 1);
        assert(t.drop_last() =~= Seq::<TrafficEntries>::empty());
        assert(t.last() == a.current);
        assert(total_traffic(t.drop_last(), k) == 0);
        assert(traffic_of(a.current, k) == 0);
        assert(total_traffic(t, k) == 0);
    }
}

/// Along any run of counted packets, whatever the clock reads, the history
/// keeps at most its limit of seconds, oldest first, each started before
/// the current second.
pub proof fn law_history_in_order_over_run(a: AnalyzerView, steps: Seq<(Seq<char>, usize, u64)>)
    requires
        history_in_order(a),
    ensures
        history_in_order(analyzer_run(a, steps)),
    decreases steps.len(),
{
    if steps.len() > 0 {
        law_history_in_order_over_run(a, steps.drop_last());
        lemma_history_in_order_step(
            analyzer_run(a, steps.drop_last()),
            steps.last().0,
            steps.last().1,
            steps.last().2,
        );
    }
}

/// With the protocol filter on `"All"` and both text filters empty, every
/// packet is listed, in capture order.
pub proof fn law_no_filter_lists_all(packets: Seq<PacketView>)
    ensures
        filtered_positions(all_protocols(), Seq::empty(), Seq::empty(), packets) == Seq::new(
            packets.len(),
            |i: int| i,
        ),
    decreases packets.len(),
{
    if packets.len() > 0 {
        law_no_filter_lists_all(packets.drop_last());
        assert(passes_filters(all_protocols(), Seq::empty(), Seq::empty(), packets.last()));
        assert(Seq::new((packets.len() - 1) as nat, |i: int| i).push(packets.len() - 1) =~= Seq::new(
            packets.len(),
            |i: int| i,
        ));
    } else {
        assert(Seq::new(packets.len(), |i: int| i) =~= Seq::<int>::empty());
    }
}

/// The listed packets are listed in capture order, each once, and each
/// passes the filters.
pub proof fn law_filtered_in_order(
    protocol_filter: Seq<char>,
    ip_filter: Seq<char>,
    port_filter: Seq<char>,
    packets: Seq<PacketView>,
)
    ensures
        ({
            let pos = filtered_positions(protocol_filter, ip_filter, port_filter, packets);
            &&& forall|j: int|
                0 <= j < pos.len() ==> 0 <= #[trigger] pos[j] < packets.len() && passes_filters(
                    protocol_filter,
                    ip_filter,
                    port_filter,
                    packets[pos[j]],
                )
            &&& forall|j1: int, j2: int|
                0 <= j1 < j2 < pos.len() ==> #[trigger] pos[j1] < #[trigger] pos[j2]
        }),
    decreases packets.len(),
{
    if packets.len() > 0 {
        let rest = packets.drop_last();
        law_filtered_in_order(protocol_filter, ip_filter, port_filter, rest);
        let pos = filtered_positions(protocol_filter, ip_filter, port_filter, packets);
        let rpos = filtered_positions(protocol_filter, ip_filter, port_filter, rest);
        assert forall|j: int| 0 <= j < rpos.len() implies packets[rpos[j]] == rest[rpos[j]] by {
        }
    }
}

} // verus!

verus! {

/// Closing a second (a clock reading past the start of the current one)
/// appends that second, with its start and its bytes including the new
/// packet, after the seconds already kept; a full history loses its oldest
/// second first. A reading within the current second leaves the history
/// alone and adds the bytes to the current second.
pub proof fn law_analyzer_step(
    a: AnalyzerView,
    protocol: Seq<char>,
    length: usize,
    now: u64,
    q: Seq<char>,
)
    requires
        protocols_distinct(a.current),
        traffic_of(a.current, protocol) + length <= usize::MAX,
        a.history.len() <= a.history_limit,
    ensures
        analyzer_after(a, protocol, length, now).history_limit == a.history_limit,
        analyzer_after(a, protocol, length, now).history.len() <= a.history_limit,
        now > a.last_update_time && a.history_limit > 0 ==> {
            &&& analyzer_after(a, protocol, length, now).history.len() > 0
            &&& analyzer_after(a, protocol, length, now).history.last().0 == a.last_update_time
            &&& traffic_of(analyzer_after(a, protocol, length, now).history.last().1, q)
                == traffic_of(a.current, q) + if q == protocol {
                length as nat
            } else {
                0nat
            }
            &&& analyzer_after(a, protocol, length, now).history.drop_last() == if a.history.len()
                < a.history_limit {
                a.history
            } else {
                a.history.subrange(1, a.history.len() as int)
            }
            &&& analyzer_after(a, protocol, length, now).current.len() == 0
            &&& analyzer_after(a, protocol, length, now).last_update_time == now
        },
        now <= a.last_update_time ==> {
            &&& analyzer_after(a, protocol, length, now).history == a.history
            &&& analyzer_after(a, protocol, length, now).last_update_time == a.last_update_time
            &&& traffic_of(analyzer_after(a, protocol, length, now).current, q) == traffic_of(
                a.current,
                q,
            ) + if q == protocol {
                length as nat
            } else {
                0nat
            }
        },
{
    lemma_add_traffic(a.current, protocol, length, q);
    let b = analyzer_after(a, protocol, length, now);
    if now > a.last_update_time && a.history_limit > 0 {
        let cur = add_traffic(a.current, protocol, length);
        let h = a.history.push((a.last_update_time, cur));
        if h.len() > a.history_limit {
            assert(b.history == h.drop_first());
            assert(h.drop_first().drop_last() =~= a.history.subrange(1, a.history.len() as int));
            assert(h.drop_first().last() == h.last());
        } else {
            assert(b.history == h);
            assert(h.drop_last() =~= a.history);
        }
    }
}

/// With a protocol chosen (anything but `"All"`), a packet passes the
/// filters only when its protocol is exactly the chosen one; with both
/// text filters empty, exactly the packets of that protocol pass, and with
/// `"All"` every packet does.
pub proof fn law_protocol_filter_exact(
    protocol_filter: Seq<char>,
    ip_filter: Seq<char>,
    port_filter: Seq<char>,
    p: PacketView,
)
    ensures
        passes_filters(protocol_filter, ip_filter, port_filter, p) ==> protocol_filter == "All"@
            || p.protocol == protocol_filter,
        ip_filter.len() == 0 && port_filter.len() == 0 ==> (passes_filters(
            protocol_filter,
            ip_filter,
            port_filter,
            p,
        ) <==> (protocol_filter == "All"@ || p.protocol == protocol_filter)),
{
}

/// With every protocol let through and no port filter, a packet passes an
/// address filter exactly when its source or its destination address,
/// lower-cased, contains the lower-cased filter; with no address filter, a
/// packet passes a port filter exactly when its lower-cased info line
/// contains the lower-cased filter.
pub proof fn law_text_filters(ip_filter: Seq<char>, port_filter: Seq<char>, p: PacketView)
    ensures
        ip_filter.len() > 0 ==> (passes_filters("All"@, ip_filter, Seq::empty(), p) <==> (contains(
            lowered(p.src_ip),
            lowered(ip_filter),
        ) || contains(lowered(p.dst_ip), lowered(ip_filter)))),
        port_filter.len() > 0 ==> (passes_filters("All"@, Seq::empty(), port_filter, p) <==> contains(
            lowered(p.info),
            lowered(port_filter),
        )),
{
}

/// The port table names exactly these services at these ports: 80 and
/// 8080 HTTP, 443 HTTPS, 53 DNS, 21 FTP, 22 SSH, 23 Telnet, 25 SMTP, 110
/// POP3, 143 IMAP, 3389 RDP, 5060 SIP; no other port has an entry.
pub proof fn law_port_table(m: Map<u16, &'static str>)
    requires
        holds_well_known_services(m),
    ensures
        m.contains_key(80) && m[80]@ == "HTTP"@,
        m.contains_key(8080) && m[8080]@ == "HTTP"@,
        m.contains_key(443) && m[443]@ == "HTTPS"@,
        m.contains_key(53) && m[53]@ == "DNS"@,
        m.contains_key(21) && m[21]@ == "FTP"@,
        m.contains_key(22) && m[22]@ == "SSH"@,
        m.contains_key(23) && m[23]@ == "Telnet"@,
        m.contains_key(25) && m[25]@ == "SMTP"@,
        m.contains_key(110) && m[110]@ == "POP3"@,
        m.contains_key(143) && m[143]@ == "IMAP"@,
        m.contains_key(3389) && m[3389]@ == "RDP"@,
        m.contains_key(5060) && m[5060]@ == "SIP"@,
        forall|port: u16|
            #[trigger] m.contains_key(port) ==> port == 80 || port == 8080 || port == 443 || port
                == 53 || port == 21 || port == 22 || port == 23 || port == 25 || port == 110
                || port == 143 || port == 3389 || port == 5060,
{
    assert(m.contains_key(80));
    assert(m.contains_key(8080));
    assert(m.contains_key(443));
    assert(m.contains_key(53));
    assert(m.contains_key(21));
    assert(m.contains_key(22));
    assert(m.contains_key(23));
    assert(m.contains_key(25));
    assert(m.contains_key(110));
    assert(m.contains_key(143));
    assert(m.contains_key(3389));
    assert(m.contains_key(5060));
}

/// The stream tracker follows the packets of exactly these protocols: TCP,
/// HTTP, HTTPS, FTP, SSH, Telnet, SMTP, POP3, IMAP, RDP, SIP and DNS; all
/// but DNS are shown with the TCP details, UDP and DNS with the UDP ones.
pub proof fn law_stream_protocols(p: Seq<char>)
    ensures
        is_stream_protocol(p) <==> (p == "TCP"@ || p == "HTTP"@ || p == "HTTPS"@ || p == "FTP"@
            || p == "SSH"@ || p == "Telnet"@ || p == "SMTP"@ || p == "POP3"@ || p == "IMAP"@
            || p == "RDP"@ || p == "SIP"@ || p == "DNS"@),
        category_of(p) == PacketCategory::Tcp <==> (p == "TCP"@ || p == "HTTP"@ || p == "HTTPS"@
            || p == "FTP"@ || p == "SSH"@ || p == "Telnet"@ || p == "SMTP"@ || p == "POP3"@
            || p == "IMAP"@ || p == "RDP"@ || p == "SIP"@),
        category_of(p) == PacketCategory::Udp <==> (p == "UDP"@ || p == "DNS"@),
        category_of(p) == PacketCategory::Icmp <==> p == "ICMP"@,
        category_of(p) == PacketCategory::Arp <==> p == "ARP"@,
{
    reveal_strlit("TCP");
    reveal_strlit("HTTP");
    reveal_strlit("HTTPS");
    reveal_strlit("FTP");
    reveal_strlit("SSH");
    reveal_strlit("Telnet");
    reveal_strlit("SMTP");
    reveal_strlit("POP3");
    reveal_strlit("IMAP");
    reveal_strlit("RDP");
    reveal_strlit("SIP");
    reveal_strlit("DNS");
    reveal_strlit("UDP");
    reveal_strlit("ICMP");
    reveal_strlit("ARP");
    assert("UDP"@[0] == 'U' && "DNS"@[0] == 'D' && "ICMP"@[0] == 'I' && "ARP"@[0] == 'A');
    assert("TCP"@[0] == 'T' && "HTTP"@[0] == 'H' && "HTTPS"@[0] == 'H' && "FTP"@[0] == 'F');
    assert("SSH"@[0] == 'S' && "Telnet"@[0] == 'T' && "SMTP"@[0] == 'S' && "POP3"@[0] == 'P');
    assert("IMAP"@[0] == 'I' && "RDP"@[0] == 'R' && "SIP"@[0] == 'S');
    assert("IMAP"@[1] == 'M' && "ICMP"@[1] == 'C');
    assert("ARP"@.len() == 3 && "ICMP"@.len() == 4);
}


/// A text contains `n` exactly when `n` matches at some position.
proof fn lemma_contains_iff_match(h: Seq<char>, n: Seq<char>)
    ensures
        contains(h, n) <==> exists|i: int| matches_at(h, n, i),
{
    lemma_find_from_result(h, n, 0);
    if exists|i: int| matches_at(h, n, i) {
        let i = choose|i: int| matches_at(h, n, i);
        assert(0 <= i);
    }
}

/// A three-letter name with no `'|'` occurs in a `'|'`-separated list with
/// one more name exactly when it occurs in the list or is that name.
proof fn lemma_contains_item(acc: Seq<char>, set: bool, name: Seq<char>, n: Seq<char>)
    requires
        name.len() == 3,
        n.len() == 3,
        n[0] != '|' && n[1] != '|' && n[2] != '|',
    ensures
        contains(add_item(acc, set, name, seq!['|']), n) <==> contains(acc, n) || (set && name == n),
{
    let h = add_item(acc, set, name, seq!['|']);
    lemma_contains_iff_match(h, n);
    lemma_contains_iff_match(acc, n);
    if set {
        if acc.len() == 0 {
            assert(h == name);
            if exists|i: int| matches_at(h, n, i) {
                let i = choose|i: int| matches_at(h, n, i);
                assert(i == 0);
                assert(h.subrange(0, 3) =~= h);
            }
            if name == n {
                assert(h.subrange(0, 3) =~= h);
                assert(matches_at(h, n, 0));
            }
            if exists|i: int| matches_at(acc, n, i) {
                let i = choose|i: int| matches_at(acc, n, i);
                assert(false);
            }
        } else {
            let l = acc.len() as int;
            assert(h == acc + seq!['|'] + name);
            assert(h[l] == '|');
            if exists|i: int| matches_at(h, n, i) {
                let i = choose|i: int| matches_at(h, n, i);
                assert(h.subrange(i, i + 3)[0] == n[0]);
                if i + 3 <= l {
                    assert(acc.subrange(i, i + 3) =~= h.subrange(i, i + 3));
                    assert(matches_at(acc, n, i));
                } else if i <= l {
                    assert(h.subrange(i, i + 3)[l - i] == h[l]);
                    assert(false);
                } else {
                    assert(i == l + 1);
                    assert(h.subrange(i, i + 3) =~= name);
                }
            }
            if exists|i: int| matches_at(acc, n, i) {
                let i = choose|i: int| matches_at(acc, n, i);
                assert(acc.subrange(i, i + 3) =~= h.subrange(i, i + 3));
                assert(matches_at(h, n, i));
            }
            if name == n {
                assert(h.subrange(l + 1, l + 4) =~= name);
                assert(matches_at(h, n, l + 1));
            }
        }
    }
}

/// Joining a name of capitals to a list of capitals and `'|'` gives such a
/// list.
proof fn lemma_item_letters(acc: Seq<char>, set: bool, name: Seq<char>)
    requires
        forall|i: int| 0 <= i < acc.len() ==> #[trigger] acc[i] == '|' || ('A' <= acc[i] && acc[i] <= 'Z'),
        forall|i: int| 0 <= i < name.len() ==> 'A' <= #[trigger] name[i] && name[i] <= 'Z',
    ensures
        forall|i: int|
            0 <= i < add_item(acc, set, name, seq!['|']).len() ==> #[trigger] add_item(
                acc,
                set,
                name,
                seq!['|'],
            )[i] == '|' || ('A' <= add_item(acc, set, name, seq!['|'])[i] && add_item(
                acc,
                set,
                name,
                seq!['|'],
            )[i] <= 'Z'),
{
    let h = add_item(acc, set, name, seq!['|']);
    if set && acc.len() > 0 {
        assert forall|i: int| 0 <= i < h.len() implies #[trigger] h[i] == '|' || ('A' <= h[i]
            && h[i] <= 'Z') by {
            if i < acc.len() {
                assert(h[i] == acc[i]);
            } else if i > acc.len() {
                assert(h[i] == name[i - acc.len() - 1]);
            }
        }
    }
}

/// The flags part of a TCP packet's summary names SYN, ACK, FIN, RST, PSH
/// and URG each exactly when its bit is set in the flags value.
pub proof fn law_flag_summary_names(v: u8)
    ensures
        contains(summary_flag_names(v), "SYN"@) <==> v & 2 != 0,
        contains(summary_flag_names(v), "ACK"@) <==> v & 16 != 0,
        contains(summary_flag_names(v), "FIN"@) <==> v & 1 != 0,
        contains(summary_flag_names(v), "RST"@) <==> v & 4 != 0,
        contains(summary_flag_names(v), "PSH"@) <==> v & 8 != 0,
        contains(summary_flag_names(v), "URG"@) <==> v & 32 != 0,
        forall|i: int|
            0 <= i < summary_flag_names(v).len() ==> #[trigger] summary_flag_names(v)[i] == '|' || (
            'A' <= summary_flag_names(v)[i] && summary_flag_names(v)[i] <= 'Z'),
{
    reveal_strlit("SYN");
    reveal_strlit("ACK");
    reveal_strlit("FIN");
    reveal_strlit("RST");
    reveal_strlit("PSH");
    reveal_strlit("URG");
    let names = seq!["SYN"@, "ACK"@, "FIN"@, "RST"@, "PSH"@, "URG"@];
    let bits = seq![flag_set(v, TH_SYN), flag_set(v, TH_ACK), flag_set(v, TH_FIN), flag_set(
        v,
        TH_RST,
    ), flag_set(v, TH_PSH), flag_set(v, TH_URG)];
    let a0 = Seq::<char>::empty();
    let a1 = add_item(a0, bits[0], names[0], seq!['|']);
    let a2 = add_item(a1, bits[1], names[1], seq!['|']);
    let a3 = add_item(a2, bits[2], names[2], seq!['|']);
    let a4 = add_item(a3, bits[3], names[3], seq!['|']);
    let a5 = add_item(a4, bits[4], names[4], seq!['|']);
    let a6 = add_item(a5, bits[5], names[5], seq!['|']);
    assert(a6 == summary_flag_names(v));
    assert forall|k: int| 0 <= k < 6 implies contains(a6, #[trigger] names[k]) <==> bits[k] by {
        let n = names[k];
        assert(n.len() == 3 && n[0] != '|' && n[1] != '|' && n[2] != '|');
        lemma_contains_iff_match(a0, n);
        lemma_contains_item(a0, bits[0], names[0], n);
        lemma_contains_item(a1, bits[1], names[1], n);
        lemma_contains_item(a2, bits[2], names[2], n);
        lemma_contains_item(a3, bits[3], names[3], n);
        lemma_contains_item(a4, bits[4], names[4], n);
        lemma_contains_item(a5, bits[5], names[5], n);
        assert(forall|j: int| 0 <= j < 6 && j != k ==> names[j][0] != n[0]);
    }
    assert forall|k: int| 0 <= k < 6 implies forall|i: int|
        0 <= i < (#[trigger] names[k]).len() ==> 'A' <= names[k][i] && names[k][i] <= 'Z' by {}
    lemma_item_letters(a0, bits[0], names[0]);
    lemma_item_letters(a1, bits[1], names[1]);
    lemma_item_letters(a2, bits[2], names[2]);
    lemma_item_letters(a3, bits[3], names[3]);
    lemma_item_letters(a4, bits[4], names[4]);
    lemma_item_letters(a5, bits[5], names[5]);
    assert(contains(a6, names[0]) <==> bits[0]);
    assert(contains(a6, names[1]) <==> bits[1]);
    assert(contains(a6, names[2]) <==> bits[2]);
    assert(contains(a6, names[3]) <==> bits[3]);
    assert(contains(a6, names[4]) <==> bits[4]);
    assert(contains(a6, names[5]) <==> bits[5]);
}

} // verus!
