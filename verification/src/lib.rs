//! Framing layer of the HF2 request/response protocol over fixed-size HID
//! reports.
//!
//! An outbound command is split into report-sized packets, each led by a
//! header byte that packs a two-bit packet kind and a six-bit payload length.
//! An inbound run of such packets is joined back into one response, whose
//! four-byte header is decoded and whose remaining bytes are handed back
//! uninterpreted.
pub mod command;
pub mod error;
pub mod exchange;
pub mod packet;
pub mod response;
pub mod wire;

pub use command::{serialize, xmit, Command};
pub use error::Error;
pub use packet::PacketType;
pub use response::{rx, CommandResponse, CommandResponseStatus, NoResponse, Reassembly};
