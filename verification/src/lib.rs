//! A D-Bus wire-protocol library: object paths, message framing and the
//! authentication handshake, with their behaviour stated and proved.
pub mod codec;
pub mod connection;
pub mod endianness;
pub mod message;
pub mod object_path;
pub mod roundtrip;
pub mod utils;
pub mod wire;
pub mod wire_laws;

pub use codec::MessageCodec;
pub use connection::{AuthAction, Authenticator, Connection, State};
pub use endianness::Endianness;
pub use message::{Flags, Header, Message};
pub use object_path::{ObjectPath, ObjectPathError, ObjectPathRef};
pub use utils::{HexU32, Uuid};
pub use wire::{DecodeError, HeaderField, MessageType};
