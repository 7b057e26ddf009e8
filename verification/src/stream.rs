use vstd::prelude::*;

verus! {

/// What one read from a device's serial line gave.
#[derive(Debug, Clone, Copy, PartialEq, Eq)]
pub enum ReadEvent {
    /// One byte arrived.
    Byte(u8),
    /// The read timed out with nothing received.
    TimedOut,
    /// The read failed with an error other than a timeout.
    Failed,
    /// The line reached its end: no byte will come again.
    Closed,
}

/// Which read ended a packet in error.
#[derive(Debug, Clone, Copy, PartialEq, Eq)]
pub enum StreamError {
    TimedOut,
    Failed,
}

/// A decoded packet with the bytes that carried it on the wire.
#[derive(Debug)]
pub struct RawPacket<P> {
    /// The packet's bytes as received, framing included.
    pub raw: Vec<u8>,
    pub packet: P,
}

/// What a packet reader does with one read.
#[derive(Debug)]
pub enum StreamStep<P> {
    /// Nothing to report yet: read again.
    Pending,
    /// A whole packet arrived.
    Packet(RawPacket<P>),
    /// The read failed: report the error to the caller.
    Error(StreamError),
    /// The stream has ended for this packet: report that nothing more came.
    End,
}

/// The reads that deliver `bytes`, one byte each.
pub open spec fn byte_events(bytes: Seq<u8>) -> Seq<ReadEvent> {
    bytes.map_values(|b: u8| ReadEvent::Byte(b))
}

} // verus!
