//! Packet decoding for Spaceball and SpaceOrb 360 six-degrees-of-freedom
//! controllers: wire framing, packet parsing and the per-device decisions,
//! stated and proved over byte sequences.
pub mod bits;
pub mod spaceball;
pub mod buttons;
pub mod ports;
pub mod probe;
pub mod protocol;
pub mod spaceorb;
pub mod stream;

pub use buttons::ButtonState;
pub use stream::{RawPacket, ReadEvent, StreamError, StreamStep};
