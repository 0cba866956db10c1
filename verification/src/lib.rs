//! Measurement engine of a network latency probe.
//!
//! A client sends numbered, timestamped packets at a fixed rate; a
//! responder echoes each one; the client pairs what came back with what it
//! sent and draws latency and loss from the pairs. This crate holds what
//! is decided and computed on the way:
//!
//! - `wire`, `binary64` and `codec`: the bytes of a packet;
//! - `pacer`: how many packets a run sends and when the next one is due;
//! - `client`: the configuration of a run, the task that sends and the
//!   task that receives;
//! - `server_udp` and `server_tcp`: what the responders answer;
//! - `packet_result`, `sorting` and `test_result`: the result of each
//!   answered packet and the figures of the run.
//!
//! Nothing here touches a socket or a clock. Callers hand in the bytes and
//! the time readings they obtained and act on what the engine returns.

pub mod binary64;
pub mod client;
pub mod codec;
pub mod messages;
pub mod pacer;
pub mod packet;
pub mod packet_result;
pub mod server_tcp;
pub mod server_udp;
pub mod sorting;
pub mod test_parameters;
pub mod test_result;
pub mod timespan;
pub mod transport;
pub mod wire;
