//! Error taxonomy: wire-parse failures, and the component-level errors that
//! the robot and screen loops surface.
//!
//! Socket, channel and lock failures arise outside the library; their
//! variants carry a plain description so that the surrounding process can
//! report them.

use vstd::prelude::*;

verus! {

/// Why a datagram could not be decoded.
#[derive(Clone, Copy, Debug, PartialEq, Eq, Structural)]
pub enum ParseError {
    /// The datagram had no bytes at all.
    EmptyPacket,
    /// A gateway capture datagram ended before its fixed fields.
    IncompleteCapturePacket,
    /// A gateway commit datagram ended before its fixed fields.
    IncompleteCommitPacket,
    /// A gateway abort datagram ended before its fixed fields.
    IncompleteAbortPacket,
    /// The leading tag byte named no known datagram.
    UnknownPacket,
    /// A field held a byte outside its enumeration.
    ConversionError,
}

/// A failure inside a robot's loops.
#[derive(Debug)]
pub enum RobotError {
    /// A socket operation failed; the description comes from the caller.
    Io(String),
    /// A datagram could not be decoded.
    Parse(ParseError),
    /// An internal queue between the receiver and the order handler closed.
    Channel(String),
    /// A guarded piece of state could not be acquired.
    Lock(String),
    /// A joined worker ended abnormally.
    Handler(String),
}

impl From<ParseError> for RobotError {
    fn from(err: ParseError) -> (r: RobotError) {
        RobotError::Parse(err)
    }
}

impl vstd::std_specs::convert::FromSpecImpl<ParseError> for RobotError {
    open spec fn obeys_from_spec() -> bool {
        true
    }

    open spec fn from_spec(err: ParseError) -> RobotError {
        RobotError::Parse(err)
    }
}

/// A failure inside a screen's loops.
#[derive(Debug)]
pub enum ScreenError {
    /// A socket operation failed; the description comes from the caller.
    Io(String),
    /// A datagram could not be decoded.
    Parse(ParseError),
    /// An internal queue closed.
    Channel(String),
    /// A guarded piece of state could not be acquired.
    Lock(String),
}

impl From<ParseError> for ScreenError {
    fn from(err: ParseError) -> (r: ScreenError) {
        ScreenError::Parse(err)
    }
}

impl vstd::std_specs::convert::FromSpecImpl<ParseError> for ScreenError {
    open spec fn obeys_from_spec() -> bool {
        true
    }

    open spec fn from_spec(err: ParseError) -> ScreenError {
        ScreenError::Parse(err)
    }
}

} // verus!
