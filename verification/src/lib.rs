//! A small RPC framework core: the error model, the wire packets, and the
//! state of the two sides of a connection, which turn a byte stream into
//! logical calls. Sockets, timing and tasks that wait are left to the
//! runtime that drives this library.

pub mod bytes;
pub mod client;
pub mod database;
pub mod errors;
pub mod framing;
pub mod inbox;
pub mod packet;
pub mod procs;
pub mod reassembly;
pub mod registry;
pub mod server;
pub mod status;
pub mod tasks;
pub mod text;
pub mod wire;
pub mod worker;

pub use crate::errors::{CuteError, CuteErrorCode};
pub use crate::packet::{CutePacket, CutePacketTrait, CutePacketType, CutePacketValid};
pub use crate::procs::{ProcManager, TaskConstructor};
pub use crate::tasks::{BasicTaskConstructor, Task};
