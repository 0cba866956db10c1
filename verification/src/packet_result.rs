//! What is known of one packet once its reply has been found.

use crate::packet::{ReceivedPacket, SentPacket};
use crate::timespan::TimeSpan;
use vstd::prelude::*;

verus! {

/// Picoseconds in one nanosecond. Latencies are kept in picoseconds so that
/// half of a span of whole nanoseconds is again a whole number.
pub const PICOS_PER_NANO: i128 = 1_000;

/// Picoseconds in one millisecond.
pub const PICOS_PER_MILLI: i128 = 1_000_000_000;

/// The latency that stands for "not available": minus one millisecond.
pub const UNAVAILABLE: i128 = -1_000_000_000;

/// The outcome for one packet that was sent and answered.
#[derive(Clone, Copy, Debug, PartialEq, Eq)]
pub struct PacketResult {
    /// The index of the packet.
    pub index: u64,
    /// Time since the start of the run at which the packet was sent.
    pub tx_time: TimeSpan,
    /// Time since the start of the run at which the reply arrived.
    pub rx_time: TimeSpan,
    /// The reported latency, in picoseconds. Below zero where it is not
    /// available, or where the reply was recorded before the packet.
    pub latency: i128,
    /// Latency from client to server in picoseconds, or `UNAVAILABLE`.
    pub latency_client_to_server: i128,
    /// Latency from server to client in picoseconds, or `UNAVAILABLE`.
    pub latency_server_to_client: i128,
}

/// Whether both one-way latencies can be had from the wall clocks: the
/// server stamped the reply no earlier than the client stamped the packet,
/// and the reply arrived no earlier than the server stamped it. The clocks
/// of both ends are taken to agree; a difference between them that keeps
/// this order goes unnoticed and is counted as latency.
pub open spec fn one_way_available(sent: SentPacket, received: ReceivedPacket) -> bool {
    received.server_timestamp@ >= sent.sent_timestamp@ && received.received_timestamp@
        >= received.server_timestamp@
}

/// Latency from client to server by the wall clocks, in picoseconds.
pub open spec fn client_to_server(sent: SentPacket, received: ReceivedPacket) -> int {
    (received.server_timestamp@ - sent.sent_timestamp@) * 1_000
}

/// Latency from server to client by the wall clocks, in picoseconds.
pub open spec fn server_to_client(received: ReceivedPacket) -> int {
    (received.received_timestamp@ - received.server_timestamp@) * 1_000
}

/// Time from sending to arrival, both read off the clock of the run, in
/// picoseconds. Negative when the reply is recorded before the packet.
pub open spec fn round_trip(sent: SentPacket, received: ReceivedPacket) -> int {
    (received.received_duration@ - sent.sent_duration@) * 1_000
}

/// The latency of the whole path before any halving. In one-way mode it is
/// the sum of the two one-way latencies, or `UNAVAILABLE` when they cannot
/// be had; otherwise it is the round-trip time.
pub open spec fn path_latency(
    sent: SentPacket,
    received: ReceivedPacket,
    measure_owl: bool,
) -> int {
    if measure_owl {
        if one_way_available(sent, received) {
            client_to_server(sent, received) + server_to_client(received)
        } else {
            UNAVAILABLE as int
        }
    } else {
        round_trip(sent, received)
    }
}

/// The latency as reported: the path latency itself when round-trip output
/// is asked for, half of it otherwise. The marker for "not available" is
/// halved like any other value.
pub open spec fn reported_latency(
    sent: SentPacket,
    received: ReceivedPacket,
    measure_owl: bool,
    output_rtt: bool,
) -> int {
    if output_rtt {
        path_latency(sent, received, measure_owl)
    } else {
        path_latency(sent, received, measure_owl) / 2
    }
}

/// The result for `sent` given its reply `received`.
pub open spec fn packet_result(
    sent: SentPacket,
    received: ReceivedPacket,
    measure_owl: bool,
    output_rtt: bool,
) -> PacketResult {
    let one_way = measure_owl && one_way_available(sent, received);
    PacketResult {
        index: sent.index,
        tx_time: sent.sent_duration,
        rx_time: received.received_duration,
        latency: reported_latency(sent, received, measure_owl, output_rtt) as i128,
        latency_client_to_server: if one_way {
            client_to_server(sent, received) as i128
        } else {
            UNAVAILABLE
        },
        latency_server_to_client: if one_way {
            server_to_client(received) as i128
        } else {
            UNAVAILABLE
        },
    }
}

impl PacketResult {
    /// Computes the result for `sent` given its reply `received`.
    pub fn new(
        sent: &SentPacket,
        received: &ReceivedPacket,
        measure_owl: bool,
        output_rtt: bool,
    ) -> (r: PacketResult)
        ensures
            r == packet_result(*sent, *received, measure_owl, output_rtt),
            r.latency == reported_latency(*sent, *received, measure_owl, output_rtt),
    {
        let sent_at = sent.sent_timestamp.as_nanos();
        let served_at = received.server_timestamp.as_nanos();
        let arrived_at = received.received_timestamp.as_nanos();
        let tx = sent.sent_duration.as_nanos();
        let rx = received.received_duration.as_nanos();
        // The factor by which nanoseconds become reported picoseconds.
        let scale: i128 = if output_rtt {
            1_000
        } else {
            500
        };
        let mut latency_client_to_server: i128 = UNAVAILABLE;
        let mut latency_server_to_client: i128 = UNAVAILABLE;
        let latency: i128;
        if measure_owl {
            if served_at >= sent_at && arrived_at >= served_at {
                latency_client_to_server = ((served_at - sent_at) as i128) * 1_000;
                latency_server_to_client = ((arrived_at - served_at) as i128) * 1_000;
                latency = ((arrived_at - sent_at) as i128) * scale;
            } else {
                latency = -1_000_000 * scale;
            }
        } else if rx >= tx {
            latency = ((rx - tx) as i128) * scale;
        } else {
            latency = -(((tx - rx) as i128) * scale);
        }
        PacketResult {
            index: sent.index,
            tx_time: sent.sent_duration,
            rx_time: received.received_duration,
            latency,
            latency_client_to_server,
            latency_server_to_client,
        }
    }
}

/// `result` with its reported latency halved and nothing else changed.
pub open spec fn halved(result: PacketResult) -> PacketResult {
    PacketResult { latency: (result.latency / 2) as i128, ..result }
}

/// The path latency is a whole number of nanoseconds that fits in 128 bits,
/// so halving it loses nothing.
pub proof fn lemma_path_latency_even(sent: SentPacket, received: ReceivedPacket, measure_owl: bool)
    requires
        sent.wf(),
        received.wf(),
    ensures
        path_latency(sent, received, measure_owl) % 2 == 0,
        2 * (path_latency(sent, received, measure_owl) / 2) == path_latency(
            sent,
            received,
            measure_owl,
        ),
        -0x4000_0000_0000_0000_0000_0000_0000_0000 <= path_latency(sent, received, measure_owl)
            <= 0x4000_0000_0000_0000_0000_0000_0000_0000,
{
    let p = path_latency(sent, received, measure_owl);
    let n: int = if measure_owl {
        if one_way_available(sent, received) {
            received.received_timestamp@ - sent.sent_timestamp@
        } else {
            -1_000_000
        }
    } else {
        received.received_duration@ - sent.sent_duration@
    };
    assert(p == n * 1_000);
    assert(p == 2 * (n * 500));
}

/// Latency measured on the clock of the run is never negative when the
/// reply is recorded no earlier than the packet, halved or not.
pub proof fn lemma_round_trip_not_negative(
    sent: SentPacket,
    received: ReceivedPacket,
    output_rtt: bool,
)
    requires
        sent.wf(),
        received.wf(),
        sent.sent_duration@ <= received.received_duration@,
    ensures
        reported_latency(sent, received, false, output_rtt) >= 0,
        packet_result(sent, received, false, output_rtt).latency >= 0,
{
}

/// Without round-trip output the reported latency is exactly half of what
/// round-trip output reports for the same records, and nothing else
/// differs.
pub proof fn lemma_halved_is_half(sent: SentPacket, received: ReceivedPacket, measure_owl: bool)
    requires
        sent.wf(),
        received.wf(),
    ensures
        2 * reported_latency(sent, received, measure_owl, false) == reported_latency(
            sent,
            received,
            measure_owl,
            true,
        ),
        2 * packet_result(sent, received, measure_owl, false).latency == packet_result(
            sent,
            received,
            measure_owl,
            true,
        ).latency,
        packet_result(sent, received, measure_owl, false) == halved(
            packet_result(sent, received, measure_owl, true),
        ),
{
    lemma_path_latency_even(sent, received, measure_owl);
}

/// In one-way mode a reply whose server timestamp lies before the send
/// timestamp, or after the arrival timestamp, yields no one-way latency:
/// both fields read `UNAVAILABLE`, and so does the path latency.
pub proof fn lemma_skew_is_unavailable(
    sent: SentPacket,
    received: ReceivedPacket,
    output_rtt: bool,
)
    requires
        received.server_timestamp@ < sent.sent_timestamp@ || received.received_timestamp@
            < received.server_timestamp@,
    ensures
        packet_result(sent, received, true, output_rtt).latency_client_to_server == UNAVAILABLE,
        packet_result(sent, received, true, output_rtt).latency_server_to_client == UNAVAILABLE,
        path_latency(sent, received, true) == UNAVAILABLE,
{
}

} // verus!
