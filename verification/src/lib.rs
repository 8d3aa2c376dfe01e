//! Passive syslog observation: header extraction, per-host statistics and
//! the timing rules of a capture run.

pub mod config;
pub mod packet;
pub mod run;
pub mod scheduler;
pub mod stats;
pub mod syslog;

pub use crate::packet::{PacketData, PacketSource};
pub use crate::syslog::{parse_syslog_packet, SyslogPacket};
