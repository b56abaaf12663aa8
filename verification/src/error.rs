use vstd::prelude::*;

verus! {

/// The ways in which a pipe operation is refused.
#[derive(Debug, PartialEq, Eq)]
pub enum PipeError {
    /// Nagle's algorithm does not apply to UDP.
    NagleOnUdp,
    /// A UDP socket has no shutdown.
    ShutdownOnUdp,
    /// The host part of an address is not a valid server name.
    DomainParse,
    /// A duration could not be parsed; the parser's message.
    Duration(String),
    /// A duration text holds more digits than a timeout may have.
    DurationTooLong,
    /// A value was neither text nor bytes.
    InputType,
}

} // verus!
