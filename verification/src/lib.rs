//! Broadcast formats shared by every tuner device.
//!
//! Nothing here is specific to a device, a vendor or a bus. The crate covers
//! MPEG transport-stream framing, packetized elementary streams, the MULTI2
//! cipher with its transport-packet descramble procedure, and the Japanese
//! terrestrial channel plan. Every function carries a contract that Verus
//! proves, and the properties that span several functions are stated as public
//! proof functions beside them.

pub mod channel;
pub mod descramble;
pub mod multi2;
pub mod pes;
pub mod ts;

pub use multi2::{Multi2, Multi2Error};
