//! What the capture session does with each captured packet, and when it
//! starts and stops capturing.

use vstd::prelude::*;

use crate::display::{carries_tcp_stream, is_stream_protocol};
use crate::packet::ParsedPacket;
use crate::protocol::{streams_after, TcpStreamManager};
use crate::traffic::{analyzer_after, traffic_of, ProtocolAnalyzer};
use crate::ui::{all_protocols, UIState};

verus! {

/// What to do with the capture thread.
#[derive(Debug, Clone, Copy, PartialEq, Eq, Structural)]
pub enum CaptureCommand {
    Start,
    Stop,
    Keep,
}

/// Capture starts when the user asked for it and none runs, and stops when
/// the user paused or stopped it and one runs.
pub fn capture_command(loading: bool, sniffing: bool) -> (r: CaptureCommand)
    ensures
        r == (if loading && !sniffing {
            CaptureCommand::Start
        } else if !loading && sniffing {
            CaptureCommand::Stop
        } else {
            CaptureCommand::Keep
        }),
{
    if loading && !sniffing {
        CaptureCommand::Start
    } else if !loading && sniffing {
        CaptureCommand::Stop
    } else {
        CaptureCommand::Keep
    }
}

/// Starts (or resumes) the capture.
pub fn start_capture(ui_state: &mut UIState)
    ensures
        final(ui_state).loading,
        final(ui_state).packets == old(ui_state).packets,
        final(ui_state).protocol_filter == old(ui_state).protocol_filter,
        final(ui_state).ip_port_filter == old(ui_state).ip_port_filter,
        final(ui_state).port_filter == old(ui_state).port_filter,
{
    ui_state.loading = true;
}

/// Pauses the capture; what was captured stays.
pub fn pause_capture(ui_state: &mut UIState)
    ensures
        !final(ui_state).loading,
        final(ui_state).packets == old(ui_state).packets,
        final(ui_state).protocol_filter == old(ui_state).protocol_filter,
        final(ui_state).ip_port_filter == old(ui_state).ip_port_filter,
        final(ui_state).port_filter == old(ui_state).port_filter,
{
    ui_state.loading = false;
}

/// Stops the capture and forgets everything captured: packets, filters,
/// statistics and streams.
pub fn stop_capture(
    ui_state: &mut UIState,
    analyzer: &mut ProtocolAnalyzer,
    streams: &mut TcpStreamManager,
)
    ensures
        !final(ui_state).loading,
        final(ui_state).packets@.len() == 0,
        final(ui_state).protocol_filter@ == all_protocols(),
        final(ui_state).ip_port_filter@.len() == 0,
        final(ui_state).port_filter@.len() == 0,
        final(analyzer)@.current.len() == 0,
        final(analyzer)@.history.len() == 0,
        final(analyzer)@.history_limit == old(analyzer)@.history_limit,
        final(streams)@.len() == 0,
{
    ui_state.loading = false;
    ui_state.clear();
    analyzer.clear();
    streams.clear();
}

/// Records a captured packet: it joins the packet list, its bytes are
/// counted for its protocol, and the packets of TCP services (and DNS)
/// are followed in their streams.
pub fn record_packet(
    ui_state: &mut UIState,
    analyzer: &mut ProtocolAnalyzer,
    streams: &mut TcpStreamManager,
    packet: ParsedPacket,
    capture_time: String,
)
    ensures
        final(ui_state).packets@.map_values(|p: ParsedPacket| p@) == old(
            ui_state,
        ).packets@.map_values(|p: ParsedPacket| p@).push(packet@),
        final(ui_state).protocol_filter == old(ui_state).protocol_filter,
        final(ui_state).ip_port_filter == old(ui_state).ip_port_filter,
        final(ui_state).port_filter == old(ui_state).port_filter,
        final(ui_state).loading == old(ui_state).loading,
        traffic_of(old(analyzer)@.current, packet.protocol@) + packet.length > usize::MAX
            ==> final(analyzer)@ == old(analyzer)@,
        traffic_of(old(analyzer)@.current, packet.protocol@) + packet.length <= usize::MAX
            ==> exists|now: u64|
            final(analyzer)@ == analyzer_after(
                old(analyzer)@,
                packet.protocol@,
                packet.length,
                now,
            ),
        final(streams)@ == if is_stream_protocol(packet.protocol@) {
            streams_after(old(streams)@, packet@, capture_time@)
        } else {
            old(streams)@
        },
{
    let ghost listed = ui_state.packets@.map_values(|p: ParsedPacket| p@);
    ui_state.packets.push(packet.clone());
    assert(ui_state.packets@.map_values(|p: ParsedPacket| p@) =~= listed.push(packet@));
    analyzer.add_packet(packet.protocol.as_str(), packet.length);
    if carries_tcp_stream(packet.protocol.as_str()) {
        streams.add_or_update_stream(&packet, capture_time);
    }
}

} // verus!
