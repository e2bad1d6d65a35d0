//! The error taxonomy.
//!
//! Four layers: `DecodeError` for the inbound side (malformed bytes, a
//! failed transport read, or a well-formed value of the wrong shape, the
//! last described precisely by `InvalidMessage`); `EncodeError` for the
//! outbound side; `CallError` for one outbound call; and `LoopError` for
//! the reader loop as a whole. A decode error cannot be duplicated, so one
//! shared (reference-counted) instance is handed to every waiting caller.
use std::sync::Arc;

use vstd::prelude::*;

use crate::value::{WireVal, WireValue};

verus! {

/// A frame held a well-formed value of the wrong shape.
///
/// Each variant carries the offending value, the expected arity range, or
/// the message id and method when they are known, so a report can be exact.
#[derive(Debug, PartialEq)]
pub enum InvalidMessage {
    /// The decoded value was not an array.
    NotAnArray(WireValue),
    /// The array's length does not match its discriminant's arity:
    /// `msgtype` is the discriminant when one could be read.
    WrongArrayLength { msgtype: Option<u64>, expected_min: u64, expected_max: u64, actual: u64 },
    /// The first element (the message type) was not an unsigned integer.
    InvalidType(WireValue),
    /// The first element was an unsigned integer larger than 2.
    UnknownMessageType(u64),
    /// The params of a request or notification were not an array; carries
    /// the offending value and the method name.
    InvalidParams(WireValue, Vec<u8>),
    /// The method name of a notification was not a string.
    InvalidNotificationName(WireValue),
    /// The method name of a request was not a string; carries the msgid.
    InvalidRequestName(u64, WireValue),
    /// The msgid was not an unsigned integer.
    InvalidMsgid(WireValue),
}

/// The model of an [`InvalidMessage`].
pub enum ShapeErr {
    NotAnArray(WireVal),
    WrongArrayLength { msgtype: Option<u64>, expected_min: u64, expected_max: u64, actual: u64 },
    InvalidType(WireVal),
    UnknownMessageType(u64),
    InvalidParams(WireVal, Seq<u8>),
    InvalidNotificationName(WireVal),
    InvalidRequestName(u64, WireVal),
    InvalidMsgid(WireVal),
}

impl View for InvalidMessage {
    type V = ShapeErr;

    open spec fn view(&self) -> ShapeErr {
        match self {
            InvalidMessage::NotAnArray(v) => ShapeErr::NotAnArray(v@),
            InvalidMessage::WrongArrayLength { msgtype, expected_min, expected_max, actual } => {
                ShapeErr::WrongArrayLength {
                    msgtype: *msgtype,
                    expected_min: *expected_min,
                    expected_max: *expected_max,
                    actual: *actual,
                }
            },
            InvalidMessage::InvalidType(v) => ShapeErr::InvalidType(v@),
            InvalidMessage::UnknownMessageType(t) => ShapeErr::UnknownMessageType(*t),
            InvalidMessage::InvalidParams(v, name) => ShapeErr::InvalidParams(v@, name@),
            InvalidMessage::InvalidNotificationName(v) => ShapeErr::InvalidNotificationName(v@),
            InvalidMessage::InvalidRequestName(id, v) => ShapeErr::InvalidRequestName(*id, v@),
            InvalidMessage::InvalidMsgid(v) => ShapeErr::InvalidMsgid(v@),
        }
    }
}

/// What kind of failure a transport read or write reported. The peer
/// closing its end surfaces as `UnexpectedEof`, which callers treat as a
/// shutdown signal rather than a fault.
#[derive(Debug, PartialEq, Eq, Structural, Clone, Copy)]
pub enum IoErrorKind {
    UnexpectedEof,
    Other,
}

/// Receiving a message failed.
#[derive(Debug, PartialEq)]
pub enum DecodeError {
    /// The bytes cannot begin any value: malformed at the buffer level.
    BufferError,
    /// Reading from the stream failed, with the transport's report. This
    /// may simply mean the peer closed the stream; see
    /// [`LoopError::is_channel_closed`].
    ReaderError(IoErrorKind, String),
    /// A complete value arrived, but its shape is not a message.
    InvalidMessage(InvalidMessage),
}

impl DecodeError {
    /// Whether this is a transport failure (as opposed to bad bytes).
    pub open spec fn spec_is_reader_error(&self) -> bool {
        self matches DecodeError::ReaderError(_, _)
    }

    /// Whether this is the peer closing the stream.
    pub open spec fn spec_is_channel_closed(&self) -> bool {
        self matches DecodeError::ReaderError(IoErrorKind::UnexpectedEof, _)
    }
}

/// Sending a message failed.
#[derive(Debug, PartialEq)]
pub enum EncodeError {
    /// The message could not be serialized (a length beyond the wire
    /// format's 32-bit size fields).
    BufferError,
    /// Writing the encoded message to the stream failed.
    WriterError(IoErrorKind, String),
}

/// A call failed.
#[derive(Debug, PartialEq)]
pub enum CallError {
    /// Sending the request failed; carries the method name.
    SendError(EncodeError, Vec<u8>),
    /// The completion slot was dropped before a response arrived (the
    /// session was torn down); carries the method name.
    InternalReceiveError(Vec<u8>),
    /// The stream failed before the response arrived; every waiting call
    /// shares one instance of the underlying error.
    DecodeError(Arc<DecodeError>, Vec<u8>),
    /// The peer reported an error executing the request: an optional
    /// numeric category, and a message.
    NeovimError(Option<i64>, Vec<u8>),
    /// A response value had the wrong type.
    WrongValueType(WireValue),
}

impl CallError {
    pub open spec fn spec_is_channel_closed(&self) -> bool {
        ||| (self matches CallError::SendError(e, _) && e matches EncodeError::WriterError(
            IoErrorKind::UnexpectedEof,
            _,
        ))
        ||| (self matches CallError::DecodeError(e, _) && *(*e) matches DecodeError::ReaderError(
            IoErrorKind::UnexpectedEof,
            _,
        ))
    }

    /// Whether the error means the peer closed the channel: commonly not a
    /// fault at all but the signal to finish.
    pub fn is_channel_closed(&self) -> (r: bool)
        ensures
            r == self.spec_is_channel_closed(),
    {
        match self {
            CallError::SendError(EncodeError::WriterError(IoErrorKind::UnexpectedEof, _), _) => {
                true
            },
            CallError::DecodeError(e, _) => match &**e {
                DecodeError::ReaderError(IoErrorKind::UnexpectedEof, _) => true,
                _ => false,
            },
            _ => false,
        }
    }

    /// Build the call-level error for a peer-reported failure: a two
    /// element array of a signed category and a string message becomes a
    /// `NeovimError`; any other value is a `WrongValueType`.
    pub fn from_error_value(v: WireValue) -> (r: CallError)
        ensures
            match v@ {
                WireVal::Array(elems) => {
                    if elems.len() == 2 && (elems[0] matches WireVal::Int(i)
                        && -0x8000000000000000 <= i < 0x8000000000000000) && elems[1] matches
                        WireVal::Str(_) {
                        r matches CallError::NeovimError(c, m) && c matches Some(ci)
                            && WireVal::Int(ci as int) == elems[0] && WireVal::Str(m@) == elems[1]
                    } else {
                        r == CallError::WrongValueType(v)
                    }
                },
                _ => r == CallError::WrongValueType(v),
            },
    {
        match v {
            WireValue::Array(mut elems) => {
                proof {
                    assert(v@->Array_0.len() == elems@.len());
                    if elems@.len() == 2 {
                        assert(v@->Array_0[0] == elems@[0]@);
                        assert(v@->Array_0[1] == elems@[1]@);
                    }
                }
                if elems.len() == 2 {
                    let code_ok = match &elems[0] {
                        WireValue::Uint(n) => *n < 0x8000000000000000,
                        WireValue::Nint(_) => true,
                        _ => false,
                    };
                    let msg_ok = matches!(&elems[1], WireValue::Str(_));
                    if code_ok && msg_ok {
                        let m = elems.remove(1);
                        let c = elems.remove(0);
                        let code: i64 = match c {
                            WireValue::Uint(n) => n as i64,
                            WireValue::Nint(n) => n,
                            _ => 0,
                        };
                        let msg: Vec<u8> = match m {
                            WireValue::Str(s) => s,
                            _ => Vec::new(),
                        };
                        CallError::NeovimError(Some(code), msg)
                    } else {
                        CallError::WrongValueType(WireValue::Array(elems))
                    }
                } else {
                    CallError::WrongValueType(WireValue::Array(elems))
                }
            },
            other => CallError::WrongValueType(other),
        }
    }
}

/// A failure in the reader loop.
#[derive(Debug, PartialEq)]
pub enum LoopError {
    /// A response carried a msgid with no pending request: a protocol
    /// violation by the peer.
    MsgidNotFound(u64),
    /// Decoding failed fatally; carries the shared error, and the msgids
    /// of waiting calls that could not be notified, if any.
    DecodeError(Arc<DecodeError>, Option<Vec<u64>>),
    /// A response arrived but its caller had already gone; carries the
    /// msgid and the response that could not be delivered.
    InternalSendResponseError(u64, Result<WireValue, WireValue>),
    /// A handler task could not be spawned.
    IoSpawn,
}

impl LoopError {
    pub open spec fn spec_is_channel_closed(&self) -> bool {
        self matches LoopError::DecodeError(e, _) && *(*e) matches DecodeError::ReaderError(
            IoErrorKind::UnexpectedEof,
            _,
        )
    }

    pub open spec fn spec_is_reader_error(&self) -> bool {
        self matches LoopError::DecodeError(e, _) && *(*e) matches DecodeError::ReaderError(_, _)
    }

    /// Whether the loop ended because the peer closed the channel.
    pub fn is_channel_closed(&self) -> (r: bool)
        ensures
            r == self.spec_is_channel_closed(),
    {
        match self {
            LoopError::DecodeError(e, _) => match &**e {
                DecodeError::ReaderError(IoErrorKind::UnexpectedEof, _) => true,
                _ => false,
            },
            _ => false,
        }
    }

    /// Whether the loop ended because the transport itself failed — the
    /// classification that tells "the stream died" apart from a decode
    /// fault, and so whether showing the peer an error can still work.
    pub fn is_reader_error(&self) -> (r: bool)
        ensures
            r == self.spec_is_reader_error(),
    {
        match self {
            LoopError::DecodeError(e, _) => match &**e {
                DecodeError::ReaderError(_, _) => true,
                _ => false,
            },
            _ => false,
        }
    }
}

} // verus!
