//! The state behind the packet list: captured packets, the filters the user
//! typed, and which packets pass them.

use vstd::prelude::*;

use crate::packet::{PacketView, ParsedPacket};
use crate::text::{chars_of, contains, find_from_exec, text_eq};

verus! {

broadcast use vstd::string::group_string_axioms;

/// The lower-case form of a text (`str::to_lowercase`, Unicode case
/// mapping).
pub uninterp spec fn lowercase(s: Seq<char>) -> Seq<char>;

/// Whether every character of the text is ASCII.
pub open spec fn is_ascii_text(s: Seq<char>) -> bool {
    forall|i: int| 0 <= i < s.len() ==> (#[trigger] s[i] as u32) < 128
}

/// An ASCII letter `A`..`Z` in lower case; any other character as it is.
pub open spec fn ascii_lower_char(c: char) -> char {
    if 'A' <= c && c <= 'Z' {
        ((c as u32) + 32) as char
    } else {
        c
    }
}

/// The text with its ASCII capitals in lower case.
pub open spec fn ascii_lowercase(s: Seq<char>) -> Seq<char> {
    s.map_values(|c: char| ascii_lower_char(c))
}

/// The lower-case form the filters compare: for ASCII text, its capitals in
/// lower case; otherwise `lowercase`.
pub open spec fn lowered(s: Seq<char>) -> Seq<char> {
    if is_ascii_text(s) {
        ascii_lowercase(s)
    } else {
        lowercase(s)
    }
}

/// `str::to_lowercase`: its result is `lowercase` of the text. Of the
/// Unicode case mapping only the ASCII part is stated: in an ASCII text the
/// capitals `A`..`Z` become `a`..`z` and every other character stays.
#[verifier::external_body]
fn to_lowercase(s: &str) -> (r: String)
    ensures
        r@ == lowercase(s@),
        is_ascii_text(s@) ==> r@ == ascii_lowercase(s@),
{
    s.to_lowercase()
}

/// The lower-case form of a text, as the filters compare it.
fn lower_text(s: &str) -> (r: String)
    ensures
        r@ == lowered(s@),
{
    to_lowercase(s)
}

/// The protocol filter that lets every protocol through.
pub open spec fn all_protocols() -> Seq<char> {
    "All"@
}

/// Whether a packet passes the filters, from the lower-cased texts that the
/// address and port filters compare (`None`: that filter is empty).
pub open spec fn passes_lowered(
    protocol_filter: Seq<char>,
    protocol: Seq<char>,
    ip_filter: Option<Seq<char>>,
    src_ip: Seq<char>,
    dst_ip: Seq<char>,
    port_filter: Option<Seq<char>>,
    info: Seq<char>,
) -> bool {
    &&& (protocol_filter == all_protocols() || protocol == protocol_filter)
    &&& match ip_filter {
        None => true,
        Some(f) => contains(src_ip, f) || contains(dst_ip, f),
    }
    &&& match port_filter {
        None => true,
        Some(f) => contains(info, f),
    }
}

/// Whether packet `p` passes the filters: its protocol is the chosen one
/// (or the choice is `"All"`), its source or destination address contains
/// the address filter, and its info line contains the port filter, both
/// compared in lower case; an empty filter lets everything through.
pub open spec fn passes_filters(
    protocol_filter: Seq<char>,
    ip_filter: Seq<char>,
    port_filter: Seq<char>,
    p: PacketView,
) -> bool {
    passes_lowered(
        protocol_filter,
        p.protocol,
        if ip_filter.len() == 0 {
            None
        } else {
            Some(lowered(ip_filter))
        },
        lowered(p.src_ip),
        lowered(p.dst_ip),
        if port_filter.len() == 0 {
            None
        } else {
            Some(lowered(port_filter))
        },
        lowered(p.info),
    )
}

/// Positions of the packets that pass the filters, in capture order.
pub open spec fn filtered_positions(
    protocol_filter: Seq<char>,
    ip_filter: Seq<char>,
    port_filter: Seq<char>,
    packets: Seq<PacketView>,
) -> Seq<int>
    decreases packets.len(),
{
    if packets.len() == 0 {
        Seq::empty()
    } else {
        let rest = filtered_positions(protocol_filter, ip_filter, port_filter, packets.drop_last());
        if passes_filters(protocol_filter, ip_filter, port_filter, packets.last()) {
            rest.push(packets.len() - 1)
        } else {
            rest
        }
    }
}

/// Whether a packet passes the filters, given the lower-cased texts the
/// address and port filters compare (`None`: that filter is empty).
pub fn passes_lowered_texts(
    protocol_filter: &str,
    protocol: &str,
    ip_filter: Option<&str>,
    src_ip: &str,
    dst_ip: &str,
    port_filter: Option<&str>,
    info: &str,
) -> (r: bool)
    ensures
        r == passes_lowered(
            protocol_filter@,
            protocol@,
            match ip_filter {
                None => None,
                Some(f) => Some(f@),
            },
            src_ip@,
            dst_ip@,
            match port_filter {
                None => None,
                Some(f) => Some(f@),
            },
            info@,
        ),
{
    proof {
        reveal_strlit("All");
    }
    if !text_eq(protocol_filter, "All") && !text_eq(protocol, protocol_filter) {
        return false;
    }
    match ip_filter {
        None => {},
        Some(f) => {
            let needle = chars_of(f);
            let src = chars_of(src_ip);
            let dst = chars_of(dst_ip);
            if find_from_exec(&src, &needle, 0).is_none() && find_from_exec(&dst, &needle, 0).is_none() {
                return false;
            }
        },
    }
    match port_filter {
        None => true,
        Some(f) => {
            let needle = chars_of(f);
            let text = chars_of(info);
            find_from_exec(&text, &needle, 0).is_some()
        },
    }
}

/// UI state management
#[derive(Debug, Clone)]
pub struct UIState {
    pub protocol_filter: String,
    pub ip_port_filter: String,
    pub port_filter: String,
    pub packets: Vec<ParsedPacket>,
    pub loading: bool,
}

impl UIState {
    pub fn new() -> (r: Self)
        ensures
            r.protocol_filter@ == all_protocols(),
            r.ip_port_filter@.len() == 0,
            r.port_filter@.len() == 0,
            r.packets@.len() == 0,
            !r.loading,
    {
        Self {
            protocol_filter: String::from_str("All"),
            ip_port_filter: String::new(),
            port_filter: String::new(),
            packets: Vec::new(),
            loading: false,
        }
    }

    /// Drops the captured packets and resets the filters; whether capture
    /// is running is kept.
    pub fn clear(&mut self)
        ensures
            final(self).protocol_filter@ == all_protocols(),
            final(self).ip_port_filter@.len() == 0,
            final(self).port_filter@.len() == 0,
            final(self).packets@.len() == 0,
            final(self).loading == old(self).loading,
    {
        self.packets = Vec::new();
        self.protocol_filter = String::from_str("All");
        self.ip_port_filter = String::new();
        self.port_filter = String::new();
    }

    /// Whether packet `p` passes the filters.
    fn passes(&self, p: &ParsedPacket, ip_filter: &Option<String>, port_filter: &Option<String>) -> (r:
        bool)
        requires
            ip_filter == (if self.ip_port_filter@.len() == 0 {
                None::<String>
            } else {
                Some(ip_filter->0)
            }),
            ip_filter matches Some(f) ==> f@ == lowered(self.ip_port_filter@),
            port_filter == (if self.port_filter@.len() == 0 {
                None::<String>
            } else {
                Some(port_filter->0)
            }),
            port_filter matches Some(f) ==> f@ == lowered(self.port_filter@),
        ensures
            r == passes_filters(self.protocol_filter@, self.ip_port_filter@, self.port_filter@, p@),
    {
        let src = lower_text(p.src_ip.as_str());
        let dst = lower_text(p.dst_ip.as_str());
        let info = lower_text(p.info.as_str());
        let ipf = match ip_filter {
            None => None,
            Some(f) => Some(f.as_str()),
        };
        let portf = match port_filter {
            None => None,
            Some(f) => Some(f.as_str()),
        };
        passes_lowered_texts(
            self.protocol_filter.as_str(),
            p.protocol.as_str(),
            ipf,
            src.as_str(),
            dst.as_str(),
            portf,
            info.as_str(),
        )
    }

    /// The captured packets that pass the filters, with their positions,
    /// in capture order.
    pub fn get_filtered_packets(&self) -> (r: Vec<(usize, &ParsedPacket)>)
        ensures
            ({
                let pos = filtered_positions(
                    self.protocol_filter@,
                    self.ip_port_filter@,
                    self.port_filter@,
                    self.packets@.map_values(|p: ParsedPacket| p@),
                );
                &&& r.len() == pos.len()
                &&& forall|j: int|
                    0 <= j < r.len() ==> r[j].0 == pos[j] && *r[j].1 == self.packets@[pos[j]]
            }),
    {
        let ip_filter = if self.ip_port_filter.as_str().is_empty() {
            None
        } else {
            Some(lower_text(self.ip_port_filter.as_str()))
        };
        let port_filter = if self.port_filter.as_str().is_empty() {
            None
        } else {
            Some(lower_text(self.port_filter.as_str()))
        };
        let ghost views = self.packets@.map_values(|p: ParsedPacket| p@);
        let ghost pf = self.protocol_filter@;
        let ghost ipf = self.ip_port_filter@;
        let ghost portf = self.port_filter@;
        let mut r: Vec<(usize, &ParsedPacket)> = Vec::new();
        let mut i: usize = 0;
        while i < self.packets.len()
            invariant
                0 <= i <= self.packets@.len(),
                views == self.packets@.map_values(|p: ParsedPacket| p@),
                ip_filter == (if ipf.len() == 0 {
                    None::<String>
                } else {
                    Some(ip_filter->0)
                }),
                ip_filter matches Some(f) ==> f@ == lowered(ipf),
                port_filter == (if portf.len() == 0 {
                    None::<String>
                } else {
                    Some(port_filter->0)
                }),
                port_filter matches Some(f) ==> f@ == lowered(portf),
                pf == self.protocol_filter@,
                ipf == self.ip_port_filter@,
                portf == self.port_filter@,
                ({
                    let pos = filtered_positions(pf, ipf, portf, views.take(i as int));
                    &&& r.len() == pos.len()
                    &&& forall|j: int|
                        0 <= j < r.len() ==> r[j].0 == pos[j] && *r[j].1 == self.packets@[pos[j]]
                }),
            decreases self.packets@.len() - i,
        {
            let p = &self.packets[i];
            let keep = self.passes(p, &ip_filter, &port_filter);
            proof {
                assert(views.take(i + 1).drop_last() =~= views.take(i as int));
                assert(views.take(i + 1).last() == p@);
            }
            if keep {
                r.push((i, p));
            }
            i = i + 1;
        }
        assert(views.take(self.packets@.len() as int) =~= views);
        r
    }
}

/// Application state enum
#[derive(Debug, Clone, Copy, PartialEq, Eq, Structural)]
pub enum AppState {
    Select,
    Main,
}

impl Default for UIState {
    fn default() -> (r: Self)
        ensures
            r.protocol_filter@ == all_protocols(),
            r.ip_port_filter@.len() == 0,
            r.port_filter@.len() == 0,
            r.packets@.len() == 0,
            !r.loading,
    {
        Self::new()
    }
}

} // verus!
