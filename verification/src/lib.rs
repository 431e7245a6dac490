//! Endpoint logic of a full-speed USB device controller whose endpoints are described by a
//! command/status list in memory.

pub mod behaviour_laws;
pub mod buffer;
pub mod config;
pub mod endpoint;
pub mod endpoint_laws;
pub mod entry;
pub mod guard;
pub mod kinds;
pub mod op_laws;
pub mod trace_laws;
pub mod transfer;

pub use buffer::EndpointBuffer;
pub use config::EndpointConfig;
pub use endpoint::Endpoint;
pub use entry::Update;
pub use kinds::{EndpointStatus, EndpointType, UsbError};
pub use transfer::{deliver, Action, Direction, Op, Register, Transfer};
