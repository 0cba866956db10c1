//! What a run is configured with, and what makes a configuration invalid.

use crate::timespan::TimeSpan;
use vstd::prelude::*;
use vstd::string::StrSliceExecFns;

verus! {

/// The smallest packet: an index and a timestamp, no filler.
pub const MIN_PACKET_SIZE: usize = 16;

/// The transports that a run can use.
#[derive(Clone, Copy, Debug, PartialEq, Eq)]
pub enum Protocol {
    /// Datagrams; each one answered on its own.
    Udp,
    /// A stream, opened by a handshake.
    Tcp,
}

/// Why a configuration is turned down before anything is sent.
#[derive(Clone, Copy, Debug, PartialEq, Eq)]
pub enum ConfigError {
    /// The transport is named neither `udp` nor `tcp`.
    UnsupportedProtocol,
    /// The packet size cannot hold an index and a timestamp.
    PacketSizeTooSmall,
    /// Duration times rate gives more packets than there are indices.
    TooManyPackets,
}

/// Whether `c` is the letter given in its two cases.
pub open spec fn is_letter(c: char, lower: char, upper: char) -> bool {
    c == lower || c == upper
}

/// Whether `name` spells "udp", in any mix of upper and lower case.
pub open spec fn names_udp(name: Seq<char>) -> bool {
    name.len() == 3 && is_letter(name[0], 'u', 'U') && is_letter(name[1], 'd', 'D') && is_letter(
        name[2],
        'p',
        'P',
    )
}

/// Whether `name` spells "tcp", in any mix of upper and lower case.
pub open spec fn names_tcp(name: Seq<char>) -> bool {
    name.len() == 3 && is_letter(name[0], 't', 'T') && is_letter(name[1], 'c', 'C') && is_letter(
        name[2],
        'p',
        'P',
    )
}

/// The transport that `name` stands for, if any.
pub open spec fn protocol_named(name: Seq<char>) -> Option<Protocol> {
    if names_udp(name) {
        Some(Protocol::Udp)
    } else if names_tcp(name) {
        Some(Protocol::Tcp)
    } else {
        None
    }
}

fn letter_is(c: char, lower: char, upper: char) -> (b: bool)
    ensures
        b == is_letter(c, lower, upper),
{
    c == lower || c == upper
}

impl Protocol {
    /// Reads a transport name. Case is ignored; anything but "udp" and
    /// "tcp" is turned down.
    pub fn parse(name: &str) -> (r: Result<Protocol, ConfigError>)
        ensures
            match r {
                Ok(p) => protocol_named(name@) == Some(p),
                Err(e) => protocol_named(name@).is_none() && e == ConfigError::UnsupportedProtocol,
            },
    {
        if name.unicode_len() != 3 {
            return Err(ConfigError::UnsupportedProtocol);
        }
        let first = name.get_char(0);
        let second = name.get_char(1);
        let third = name.get_char(2);
        if !letter_is(third, 'p', 'P') {
            return Err(ConfigError::UnsupportedProtocol);
        }
        if letter_is(first, 'u', 'U') && letter_is(second, 'd', 'D') {
            Ok(Protocol::Udp)
        } else if letter_is(first, 't', 'T') && letter_is(second, 'c', 'C') {
            Ok(Protocol::Tcp)
        } else {
            Err(ConfigError::UnsupportedProtocol)
        }
    }
}

/// The configuration of one run. It does not change once the run starts.
#[derive(Debug)]
pub struct TestParameters {
    /// Host of the responder, as given.
    pub server_ip: String,
    /// Port of the responder.
    pub server_port: u16,
    /// The transport.
    pub protocol: Protocol,
    /// How long packets are sent for.
    pub test_duration: TimeSpan,
    /// Packets sent per second.
    pub packets_per_second: u32,
    /// Size of every packet sent, in bytes.
    pub packet_size: usize,
    /// Report round-trip time instead of half of it.
    pub output_rtt: bool,
    /// Measure each direction by the wall clocks of both ends.
    pub measure_owl: bool,
}

impl Clone for TestParameters {
    fn clone(&self) -> (copy: TestParameters)
        ensures
            copy == *self,
    {
        TestParameters {
            server_ip: self.server_ip.clone(),
            server_port: self.server_port,
            protocol: self.protocol,
            test_duration: self.test_duration,
            packets_per_second: self.packets_per_second,
            packet_size: self.packet_size,
            output_rtt: self.output_rtt,
            measure_owl: self.measure_owl,
        }
    }
}

} // verus!
