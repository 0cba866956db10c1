//! The client side of a run: its configuration, the task that sends and the
//! task that receives.
//!
//! The two tasks share nothing. Each keeps its own records, and the caller
//! brings them together once both have ended.

use crate::binary64::{
    is_time,
    lemma_timestamp_round_trip,
    nanos_of_seconds,
    round_trip_limit,
    seconds_bits,
    timestamp_from_bits,
    timestamp_to_bits,
    within_precision,
};
use crate::codec::{
    decode_packet,
    encode_packet,
    header_of,
    lemma_decode_encode,
    packet_bytes,
    Header,
    HEADER_LEN,
};
use crate::messages::{ack_bytes, is_ack};
use crate::pacer::{expected_packet_count, expected_packets, interval_covered, interval_elapsed};
use crate::packet::{ReceivedPacket, SentPacket};
use crate::server_udp::{lemma_reply_echoes_index, reply_bytes};
use crate::sorting::sorted_by_index;
use crate::test_parameters::{
    protocol_named,
    ConfigError,
    Protocol,
    TestParameters,
    MIN_PACKET_SIZE,
};
use crate::test_result::{correlate, lost_count, sent_span, TestResult};
use crate::timespan::TimeSpan;
use crate::transport::ReadOutcome;
use vstd::prelude::*;

verus! {

/// Nanoseconds for which the receiving task goes on after the run's
/// duration has passed.
pub const GRACE_NANOS: u128 = 1_000_000_000;

/// What the probe ahead of a run over datagrams showed.
#[derive(Clone, Copy, Debug, PartialEq, Eq)]
pub enum ProbeVerdict {
    /// Something answered: the run can start.
    Reachable,
    /// The peer refused; the run is called off.
    Refused,
    /// Nothing answered in time; the run is called off.
    Unreachable,
    /// The probe failed in some other way.
    Failed,
}

/// What the answer to the opening of a stream showed.
#[derive(Clone, Copy, Debug, PartialEq, Eq)]
pub enum AckVerdict {
    /// Nothing was read yet; read again.
    KeepWaiting,
    /// The responder acknowledged: the run can start.
    Accepted,
    /// The responder sent something else.
    Invalid,
    /// The read failed.
    Failed,
}

/// What the receiving task does after a read.
#[derive(Clone, Copy, Debug, PartialEq, Eq)]
pub enum ReceiverAction {
    /// Read again, if the time is not up.
    Continue,
    /// End the task; what it has recorded stands.
    Stop,
    /// Abandon the run.
    Fail,
}

/// What the probe ahead of a run over datagrams showed, given how the read
/// of its answer ended.
pub open spec fn probe_verdict_of(outcome: ReadOutcome) -> ProbeVerdict {
    match outcome {
        ReadOutcome::Data => ProbeVerdict::Reachable,
        ReadOutcome::ConnectionRefused => ProbeVerdict::Refused,
        ReadOutcome::TimedOut => ProbeVerdict::Unreachable,
        _ => ProbeVerdict::Failed,
    }
}

/// What the answer to an opening showed, given how its read ended and what
/// was read.
pub open spec fn ack_verdict_of(outcome: ReadOutcome, response: Seq<u8>) -> AckVerdict {
    match outcome {
        ReadOutcome::Data => if response.len() == 0 {
            AckVerdict::KeepWaiting
        } else if response == ack_bytes() {
            AckVerdict::Accepted
        } else {
            AckVerdict::Invalid
        },
        _ => AckVerdict::Failed,
    }
}

/// What the receiving task does after a read that ended in `outcome`. A
/// timeout is the ordinary end of listening, not a failure.
pub open spec fn receiver_action_of(outcome: ReadOutcome) -> ReceiverAction {
    match outcome {
        ReadOutcome::Data => ReceiverAction::Continue,
        ReadOutcome::TimedOut => ReceiverAction::Stop,
        _ => ReceiverAction::Fail,
    }
}

/// The record of the reply `bytes`; `None` where `bytes` is no packet or
/// its timestamp is no time.
pub open spec fn received_packet(
    bytes: Seq<u8>,
    received_duration: TimeSpan,
    received_timestamp: TimeSpan,
) -> Option<ReceivedPacket> {
    match header_of(bytes) {
        Some(header) => if is_time(header.timestamp_bits) {
            Some(
                ReceivedPacket {
                    index: header.index,
                    received_duration,
                    received_timestamp,
                    server_timestamp: TimeSpan::of_nanos(nanos_of_seconds(header.timestamp_bits)),
                },
            )
        } else {
            None
        },
        None => None,
    }
}

/// `received` with the record of `bytes` behind it, if the read gave data
/// and the data is a reply.
pub open spec fn after_read(
    received: Seq<ReceivedPacket>,
    outcome: ReadOutcome,
    bytes: Seq<u8>,
    received_duration: TimeSpan,
    received_timestamp: TimeSpan,
) -> Seq<ReceivedPacket> {
    match outcome {
        ReadOutcome::Data => match received_packet(bytes, received_duration, received_timestamp) {
            Some(packet) => received.push(packet),
            None => received,
        },
        _ => received,
    }
}

/// The task that sends: it numbers the packets from zero, builds each one
/// and keeps a record of it.
pub struct Sender {
    packet_size: usize,
    packets_per_second: u32,
    expected_packet_count: u64,
    sent_packets: Vec<SentPacket>,
}

impl Sender {
    #[verifier::type_invariant]
    spec fn numbered(self) -> bool {
        &&& self.packet_size >= MIN_PACKET_SIZE
        &&& self.sent_packets@.len() <= self.expected_packet_count
        &&& forall|i: int| 0 <= i < self.sent_packets@.len() ==> self.sent_packets@[i].index == i
    }

    /// The records of the packets built so far, in the order of sending.
    pub closed spec fn sent(&self) -> Seq<SentPacket> {
        self.sent_packets@
    }

    /// The number of packets that the task is to send.
    pub closed spec fn expected(&self) -> nat {
        self.expected_packet_count as nat
    }

    /// The size of every packet.
    pub closed spec fn size(&self) -> nat {
        self.packet_size as nat
    }

    /// The rate of sending.
    pub closed spec fn rate(&self) -> nat {
        self.packets_per_second as nat
    }

    /// A task that is to send `expected_packet_count` packets of
    /// `packet_size` bytes at `packets_per_second`. Fails on a packet size
    /// that cannot hold a header.
    pub fn new(packet_size: usize, packets_per_second: u32, expected_packet_count: u64) -> (r:
        Result<Sender, ConfigError>)
        ensures
            match r {
                Ok(sender) => packet_size >= MIN_PACKET_SIZE && sender.sent() == Seq::<
                    SentPacket,
                >::empty() && sender.expected() == expected_packet_count && sender.size()
                    == packet_size && sender.rate() == packets_per_second,
                Err(e) => packet_size < MIN_PACKET_SIZE && e == ConfigError::PacketSizeTooSmall,
            },
    {
        if packet_size < MIN_PACKET_SIZE {
            return Err(ConfigError::PacketSizeTooSmall);
        }
        Ok(
            Sender {
                packet_size,
                packets_per_second,
                expected_packet_count,
                sent_packets: Vec::new(),
            },
        )
    }

    /// Whether every packet has been built.
    pub fn is_done(&self) -> (done: bool)
        ensures
            done == (self.sent().len() == self.expected()),
            self.sent().len() <= self.expected(),
    {
        proof {
            use_type_invariant(self);
        }
        self.sent_packets.len() as u64 == self.expected_packet_count
    }

    /// Builds the next packet and records it, or returns `None` once every
    /// packet has been built. The packet carries the number of packets
    /// built before it as its index, and `sent_timestamp` as its timestamp.
    pub fn next_packet(&mut self, sent_duration: TimeSpan, sent_timestamp: TimeSpan) -> (r: Option<
        Vec<u8>,
    >)
        ensures
            final(self).expected() == old(self).expected(),
            final(self).size() == old(self).size(),
            final(self).rate() == old(self).rate(),
            match r {
                Some(payload) => {
                    &&& old(self).sent().len() < old(self).expected()
                    &&& final(self).sent() == old(self).sent().push(
                        SentPacket {
                            index: old(self).sent().len() as u64,
                            sent_duration,
                            sent_timestamp,
                        },
                    )
                    &&& payload@ == packet_bytes(
                        Header {
                            index: old(self).sent().len() as u64,
                            timestamp_bits: seconds_bits(sent_timestamp@),
                        },
                        old(self).size(),
                    )
                },
                None => old(self).sent().len() == old(self).expected() && final(self).sent() == old(
                    self,
                ).sent(),
            },
    {
        proof {
            use_type_invariant(&*self);
        }
        if self.sent_packets.len() as u64 >= self.expected_packet_count {
            return None;
        }
        let index = self.sent_packets.len() as u64;
        let (record, payload) = Client::generate_sent_packet(
            &index,
            self.packet_size,
            sent_duration,
            sent_timestamp,
        );
        // The records leave the task while one is added, so that the task
        // is whole at every step.
        let mut records: Vec<SentPacket> = Vec::new();
        core::mem::swap(&mut self.sent_packets, &mut records);
        records.push(record);
        core::mem::swap(&mut self.sent_packets, &mut records);
        Some(payload)
    }

    /// Whether the next packet is due, `since_last` after the previous one
    /// was sent.
    pub fn interval_elapsed(&self, since_last: &TimeSpan) -> (due: bool)
        ensures
            due == interval_covered(since_last@, self.rate()),
    {
        interval_elapsed(since_last, self.packets_per_second)
    }

    /// Ends the task and hands out its records. They are numbered from zero
    /// in the order of sending, and there are no more of them than the
    /// task was to send.
    pub fn into_sent_packets(self) -> (sent: Vec<SentPacket>)
        ensures
            sent@ == self.sent(),
            sent@.len() <= self.expected(),
            forall|i: int| 0 <= i < sent@.len() ==> sent@[i].index == i,
    {
        proof {
            use_type_invariant(&self);
        }
        self.sent_packets
    }
}

/// What is wrong with a configuration, if anything. The transport is
/// looked at first, then the packet size, then the number of packets.
pub open spec fn config_fault(
    protocol: Seq<char>,
    test_duration: TimeSpan,
    packets_per_second: u32,
    packet_size: usize,
) -> Option<ConfigError> {
    if protocol_named(protocol).is_none() {
        Some(ConfigError::UnsupportedProtocol)
    } else if packet_size < MIN_PACKET_SIZE {
        Some(ConfigError::PacketSizeTooSmall)
    } else if expected_packets(test_duration@, packets_per_second as nat) > u64::MAX {
        Some(ConfigError::TooManyPackets)
    } else {
        None
    }
}

/// One run, from its configuration to its result.
pub struct Client {
    test_parameters: TestParameters,
    sent_packets: Vec<SentPacket>,
    received_packets: Vec<ReceivedPacket>,
    expected_packet_count: u64,
    log_path: String,
}

impl Client {
    #[verifier::type_invariant]
    spec fn configured(self) -> bool {
        &&& self.test_parameters.packet_size >= MIN_PACKET_SIZE
        &&& self.expected_packet_count == expected_packets(
            self.test_parameters.test_duration@,
            self.test_parameters.packets_per_second as nat,
        )
    }

    /// What the run is configured with.
    pub closed spec fn parameters(&self) -> TestParameters {
        self.test_parameters
    }

    /// The number of packets that the run sends.
    pub closed spec fn expected(&self) -> nat {
        self.expected_packet_count as nat
    }

    /// Where the report of the run is to be written; empty for nowhere.
    pub closed spec fn log(&self) -> Seq<char> {
        self.log_path@
    }

    /// The records of what was sent, once the run has ended.
    pub closed spec fn sent(&self) -> Seq<SentPacket> {
        self.sent_packets@
    }

    /// The records of what was received, once the run has ended.
    pub closed spec fn received(&self) -> Seq<ReceivedPacket> {
        self.received_packets@
    }

    /// Sets up a run. The configuration is turned down, before anything is
    /// sent, where the transport is unknown, where the packet size is below
    /// sixteen bytes, and where duration times rate is beyond 64 bits.
    pub fn new(
        server_ip: &str,
        server_port: u16,
        protocol: &str,
        test_duration: TimeSpan,
        packets_per_second: u32,
        packet_size: usize,
        log_path: &str,
        output_rtt: bool,
        measure_owl: bool,
    ) -> (r: Result<Client, ConfigError>)
        ensures
            match r {
                Ok(client) => {
                    &&& config_fault(protocol@, test_duration, packets_per_second, packet_size)
                        .is_none()
                    &&& client.parameters().server_ip@ == server_ip@
                    &&& client.parameters().server_port == server_port
                    &&& Some(client.parameters().protocol) == protocol_named(protocol@)
                    &&& client.parameters().test_duration == test_duration
                    &&& client.parameters().packets_per_second == packets_per_second
                    &&& client.parameters().packet_size == packet_size
                    &&& client.parameters().output_rtt == output_rtt
                    &&& client.parameters().measure_owl == measure_owl
                    &&& client.expected() == expected_packets(
                        test_duration@,
                        packets_per_second as nat,
                    )
                    &&& client.log() == log_path@
                    &&& client.sent().len() == 0
                    &&& client.received().len() == 0
                },
                Err(e) => config_fault(protocol@, test_duration, packets_per_second, packet_size)
                    == Some(e),
            },
    {
        let transport = match Protocol::parse(protocol) {
            Ok(p) => p,
            Err(e) => {
                return Err(e);
            },
        };
        if packet_size < MIN_PACKET_SIZE {
            return Err(ConfigError::PacketSizeTooSmall);
        }
        let counted = expected_packet_count(&test_duration, packets_per_second);
        let expected_packet_count = match counted {
            Some(n) => n,
            None => {
                return Err(ConfigError::TooManyPackets);
            },
        };
        Ok(
            Client {
                test_parameters: TestParameters {
                    server_ip: server_ip.to_owned(),
                    server_port,
                    protocol: transport,
                    test_duration,
                    packets_per_second,
                    packet_size,
                    output_rtt,
                    measure_owl,
                },
                sent_packets: Vec::new(),
                received_packets: Vec::new(),
                expected_packet_count,
                log_path: log_path.to_owned(),
            },
        )
    }

    /// What the run is configured with.
    pub fn test_parameters(&self) -> (p: &TestParameters)
        ensures
            *p == self.parameters(),
            p.packet_size >= MIN_PACKET_SIZE,
    {
        proof {
            use_type_invariant(self);
        }
        &self.test_parameters
    }

    /// The transport of the run.
    pub fn protocol(&self) -> (p: Protocol)
        ensures
            p == self.parameters().protocol,
    {
        self.test_parameters.protocol
    }

    /// The number of packets that the run sends: its duration times its
    /// rate, rounded down.
    pub fn expected_packet_count(&self) -> (n: u64)
        ensures
            n == self.expected(),
            n == expected_packets(
                self.parameters().test_duration@,
                self.parameters().packets_per_second as nat,
            ),
    {
        proof {
            use_type_invariant(self);
        }
        self.expected_packet_count
    }

    /// The records of what was sent; empty until the run has ended.
    pub fn sent_packets(&self) -> (sent: &Vec<SentPacket>)
        ensures
            sent@ == self.sent(),
    {
        &self.sent_packets
    }

    /// The records of what was received; empty until the run has ended.
    pub fn received_packets(&self) -> (received: &Vec<ReceivedPacket>)
        ensures
            received@ == self.received(),
    {
        &self.received_packets
    }

    /// Where the report of the run is to be written; empty for nowhere.
    pub fn log_path(&self) -> (path: &str)
        ensures
            path@ == self.log(),
    {
        self.log_path.as_str()
    }

    /// Builds the packet with the given index, stamped with
    /// `sent_timestamp`, and the record of it.
    pub fn generate_sent_packet(
        packet_index: &u64,
        packet_size: usize,
        sent_duration: TimeSpan,
        sent_timestamp: TimeSpan,
    ) -> (r: (SentPacket, Vec<u8>))
        requires
            packet_size >= MIN_PACKET_SIZE,
        ensures
            r.0 == (SentPacket { index: *packet_index, sent_duration, sent_timestamp }),
            r.1@ == packet_bytes(
                Header { index: *packet_index, timestamp_bits: seconds_bits(sent_timestamp@) },
                packet_size as nat,
            ),
            r.1@.len() == packet_size,
    {
        let timestamp_bits = timestamp_to_bits(&sent_timestamp);
        let payload = encode_packet(Header { index: *packet_index, timestamp_bits }, packet_size);
        (SentPacket { index: *packet_index, sent_duration, sent_timestamp }, payload)
    }

    /// Reads a reply and builds the record of it. Fails where `buf` holds
    /// fewer than sixteen bytes or a timestamp that is no time.
    pub fn generate_received_packet(
        buf: Vec<u8>,
        received_duration: TimeSpan,
        received_timestamp: TimeSpan,
    ) -> (r: Option<ReceivedPacket>)
        ensures
            r == received_packet(buf@, received_duration, received_timestamp),
    {
        let header = match decode_packet(buf.as_slice()) {
            Some(h) => h,
            None => {
                return None;
            },
        };
        let server_timestamp = match timestamp_from_bits(header.timestamp_bits) {
            Some(t) => t,
            None => {
                return None;
            },
        };
        proof {
            TimeSpan::lemma_of_nanos(0, server_timestamp);
        }
        Some(
            ReceivedPacket {
                index: header.index,
                received_duration,
                received_timestamp,
                server_timestamp,
            },
        )
    }

    /// Judges the answer to the probe ahead of a run over datagrams.
    pub fn probe_verdict(outcome: ReadOutcome) -> (v: ProbeVerdict)
        ensures
            v == probe_verdict_of(outcome),
    {
        match outcome {
            ReadOutcome::Data => ProbeVerdict::Reachable,
            ReadOutcome::ConnectionRefused => ProbeVerdict::Refused,
            ReadOutcome::TimedOut => ProbeVerdict::Unreachable,
            _ => ProbeVerdict::Failed,
        }
    }

    /// Judges the answer to the opening of a stream.
    pub fn ack_verdict(outcome: ReadOutcome, response: &[u8]) -> (v: AckVerdict)
        ensures
            v == ack_verdict_of(outcome, response@),
    {
        match outcome {
            ReadOutcome::Data => {
                if response.len() == 0 {
                    AckVerdict::KeepWaiting
                } else if is_ack(response) {
                    AckVerdict::Accepted
                } else {
                    AckVerdict::Invalid
                }
            },
            _ => AckVerdict::Failed,
        }
    }

    /// The task that sends the packets of this run.
    pub fn sender(&self) -> (sender: Sender)
        ensures
            sender.sent() == Seq::<SentPacket>::empty(),
            sender.expected() == self.expected(),
            sender.size() == self.parameters().packet_size,
            sender.rate() == self.parameters().packets_per_second,
    {
        proof {
            use_type_invariant(self);
        }
        Sender {
            packet_size: self.test_parameters.packet_size,
            packets_per_second: self.test_parameters.packets_per_second,
            expected_packet_count: self.expected_packet_count,
            sent_packets: Vec::new(),
        }
    }
}

/// Seconds without a reply after which listening for datagrams ends.
pub const UDP_IDLE_TIMEOUT_SECS: u64 = 3;

/// Seconds without a reply after which listening on a stream ends.
pub const TCP_IDLE_TIMEOUT_SECS: u64 = 10;

/// Bytes read at once from a socket for datagrams.
pub const UDP_READ_LEN: usize = 1500;

/// Bytes of one reply on a stream.
pub const TCP_READ_LEN: usize = 16;

/// Seconds without a reply after which listening ends.
pub open spec fn idle_timeout_secs(protocol: Protocol) -> nat {
    match protocol {
        Protocol::Udp => UDP_IDLE_TIMEOUT_SECS as nat,
        Protocol::Tcp => TCP_IDLE_TIMEOUT_SECS as nat,
    }
}

/// Bytes asked for by one read of the receiving task.
pub open spec fn read_len(protocol: Protocol) -> nat {
    match protocol {
        Protocol::Udp => UDP_READ_LEN as nat,
        Protocol::Tcp => TCP_READ_LEN as nat,
    }
}

/// The task that receives: it reads replies until the time is up or none
/// arrives any more, and keeps a record of each.
pub struct Receiver {
    protocol: Protocol,
    test_duration: TimeSpan,
    received_packets: Vec<ReceivedPacket>,
}

impl Receiver {
    /// The records of the replies read so far, in the order of arrival.
    pub closed spec fn received(&self) -> Seq<ReceivedPacket> {
        self.received_packets@
    }

    /// The duration of the run.
    pub closed spec fn duration(&self) -> TimeSpan {
        self.test_duration
    }

    /// The transport of the run.
    pub closed spec fn transport(&self) -> Protocol {
        self.protocol
    }

    /// A task that listens on `protocol` during a run of `test_duration`.
    pub fn new(protocol: Protocol, test_duration: TimeSpan) -> (receiver: Receiver)
        ensures
            receiver.received() == Seq::<ReceivedPacket>::empty(),
            receiver.duration() == test_duration,
            receiver.transport() == protocol,
    {
        Receiver { protocol, test_duration, received_packets: Vec::new() }
    }

    /// The time without a reply after which a read gives up.
    pub fn idle_timeout(&self) -> (t: TimeSpan)
        ensures
            t@ == idle_timeout_secs(self.transport()) * 1_000_000_000,
    {
        match self.protocol {
            Protocol::Udp => TimeSpan::from_secs(UDP_IDLE_TIMEOUT_SECS),
            Protocol::Tcp => TimeSpan::from_secs(TCP_IDLE_TIMEOUT_SECS),
        }
    }

    /// The number of bytes that one read asks for.
    pub fn read_len(&self) -> (n: usize)
        ensures
            n == read_len(self.transport()),
    {
        match self.protocol {
            Protocol::Udp => UDP_READ_LEN,
            Protocol::Tcp => TCP_READ_LEN,
        }
    }

    /// Whether the task reads once more, `elapsed` after the start of the
    /// run: it does until the duration and one second of grace have passed.
    pub fn keeps_listening(&self, elapsed: &TimeSpan) -> (b: bool)
        ensures
            b == (elapsed@ < self.duration()@ + GRACE_NANOS),
    {
        elapsed.as_nanos() < self.test_duration.as_nanos() + GRACE_NANOS
    }

    /// Takes in the end of one read. Data that is a reply is recorded;
    /// other data is dropped and the task goes on. A timeout ends the
    /// task; any other outcome fails it.
    pub fn on_read(
        &mut self,
        outcome: ReadOutcome,
        bytes: Vec<u8>,
        received_duration: TimeSpan,
        received_timestamp: TimeSpan,
    ) -> (action: ReceiverAction)
        ensures
            action == receiver_action_of(outcome),
            final(self).received() == after_read(
                old(self).received(),
                outcome,
                bytes@,
                received_duration,
                received_timestamp,
            ),
            final(self).duration() == old(self).duration(),
            final(self).transport() == old(self).transport(),
    {
        match outcome {
            ReadOutcome::Data => {
                let record = Client::generate_received_packet(
                    bytes,
                    received_duration,
                    received_timestamp,
                );
                match record {
                    Some(packet) => {
                        self.received_packets.push(packet);
                    },
                    None => {},
                }
                ReceiverAction::Continue
            },
            ReadOutcome::TimedOut => ReceiverAction::Stop,
            _ => ReceiverAction::Fail,
        }
    }

    /// Ends the task and hands out its records.
    pub fn into_received_packets(self) -> (received: Vec<ReceivedPacket>)
        ensures
            received@ == self.received(),
    {
        self.received_packets
    }
}

impl Client {
    /// The task that receives the replies of this run.
    pub fn receiver(&self) -> (receiver: Receiver)
        ensures
            receiver.received() == Seq::<ReceivedPacket>::empty(),
            receiver.duration() == self.parameters().test_duration,
            receiver.transport() == self.parameters().protocol,
    {
        Receiver::new(self.test_parameters.protocol, self.test_parameters.test_duration)
    }

    /// Takes the records of both tasks and draws the result of the run
    /// from them, in the mode of measurement and of output that the run is
    /// configured with.
    pub fn generate_result(
        &mut self,
        sent_packets: Vec<SentPacket>,
        received_packets: Vec<ReceivedPacket>,
    ) -> (result: TestResult)
        ensures
            final(self).parameters() == old(self).parameters(),
            final(self).expected() == old(self).expected(),
            final(self).log() == old(self).log(),
            final(self).sent() == sent_packets@,
            final(self).received() == received_packets@,
            result.test_parameters == old(self).parameters(),
            result.packet_results@ == sorted_by_index(
                correlate(
                    sent_packets@,
                    received_packets@,
                    old(self).parameters().measure_owl,
                    old(self).parameters().output_rtt,
                ),
            ),
            result.sent_duration_nanos == sent_span(result.packet_results@),
            result.sent_packets_count == sent_packets@.len(),
            result.received_packets_count == received_packets@.len(),
            result.lost_packets_count == lost_count(sent_packets@, received_packets@),
    {
        proof {
            use_type_invariant(&*self);
        }
        self.sent_packets = sent_packets;
        self.received_packets = received_packets;
        TestResult::from_tx_rx_times(
            self.test_parameters.clone(),
            &self.sent_packets,
            &self.received_packets,
            self.test_parameters.output_rtt,
        )
    }
}

/// A packet built with an index and a time reads back as a reply with
/// that index and with that time, within the precision of the timestamp
/// word; a time below two to the power fifty-two nanoseconds reads back
/// exactly. This holds of every time below two to the power sixty-three
/// seconds.
pub proof fn lemma_packet_round_trip(
    index: u64,
    timestamp: TimeSpan,
    size: nat,
    received_duration: TimeSpan,
    received_timestamp: TimeSpan,
)
    requires
        size >= HEADER_LEN,
        timestamp@ < round_trip_limit(),
    ensures
        match received_packet(
            packet_bytes(Header { index, timestamp_bits: seconds_bits(timestamp@) }, size),
            received_duration,
            received_timestamp,
        ) {
            Some(packet) => {
                &&& packet.index == index
                &&& packet.received_duration == received_duration
                &&& packet.received_timestamp == received_timestamp
                &&& within_precision(packet.server_timestamp@, timestamp@)
                &&& timestamp@ < 0x10_0000_0000_0000 ==> packet.server_timestamp == timestamp
            },
            None => false,
        },
{
    let bits = seconds_bits(timestamp@);
    lemma_decode_encode(Header { index, timestamp_bits: bits }, size);
    lemma_timestamp_round_trip(timestamp@);
    TimeSpan::lemma_of_nanos(nanos_of_seconds(bits), timestamp);
}

/// The answer of the responder for datagrams to a packet reads back as a
/// reply with the index of the packet and with the responder's time,
/// within the precision of the timestamp word.
pub proof fn lemma_echo_is_received(
    header: Header,
    size: nat,
    now: TimeSpan,
    symmetric_network_load: bool,
    received_duration: TimeSpan,
    received_timestamp: TimeSpan,
)
    requires
        size >= HEADER_LEN,
        now@ < round_trip_limit(),
    ensures
        match received_packet(
            reply_bytes(packet_bytes(header, size), seconds_bits(now@), symmetric_network_load),
            received_duration,
            received_timestamp,
        ) {
            Some(packet) => packet.index == header.index && within_precision(
                packet.server_timestamp@,
                now@,
            ),
            None => false,
        },
{
    lemma_reply_echoes_index(header, size, seconds_bits(now@), symmetric_network_load);
    lemma_timestamp_round_trip(now@);
    TimeSpan::lemma_of_nanos(nanos_of_seconds(seconds_bits(now@)), now);
}

} // verus!
