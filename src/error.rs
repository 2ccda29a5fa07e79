use vstd::prelude::*;

verus! {

/// What went wrong on the byte stream below the protocol.
#[derive(Debug, Clone, Copy, PartialEq, Eq, Structural)]
pub enum TransportError {
    /// The read deadline passed with no byte received.
    TimedOut,
    /// The device went away (end of stream, port closed).
    Disconnected,
    /// Any other failure of the port or of the I/O layer.
    Io,
}

/// The shape of a decoded reply.
#[derive(Debug, Clone, Copy, PartialEq, Eq, Structural)]
pub enum Shape {
    Nothing,
    Boolean,
    Number,
    Text,
}

#[derive(Debug, Clone, Copy, PartialEq, Eq, Structural)]
pub enum Error {
    Transport(TransportError),
    /// The reply bytes are not valid UTF-8.
    MalformedResponseEncoding,
    /// A reply was owed and an empty line came back.
    EmptyResponse,
    /// The reply decoded to another shape than the one asked for.
    UnexpectedResponseShape { expected: Shape, actual: Shape },
    /// A command with no serialization for the instrument's firmware. Every
    /// `Command` variant has one, so `Command::serialize` never returns this.
    UnsupportedCommand,
}

} // verus!
