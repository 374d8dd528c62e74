//! A lightweight implementation of the Serial Line CAN protocol.
//!
//! Commands from the host are decoded with `read::Command::decode`, or incrementally from a byte
//! stream with `read::CommandBuf`; responses and notifications to the host are encoded with
//! `write::Response::encode` and `write::Notification::encode`.
mod device;
mod error;
mod frame;
mod framer;
mod hex;
mod identifier;
pub mod read;
pub mod write;

pub use self::device::{Bitrate, SerialNumber, Status};
pub use self::error::{Error, ErrorKind};
pub use self::frame::CanFrame;
pub use self::identifier::{ExtIdentifier, Identifier};
