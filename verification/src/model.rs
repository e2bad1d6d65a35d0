//! Messages and the frame codec.
//!
//! On the wire a message is one array value: `[0, msgid, method, params]`
//! for a request, `[1, msgid, error, result]` for a response, and
//! `[2, method, params]` for a notification. `shape_of` is the exact rule
//! deciding which arrays are messages; `frame_bytes` is the exact bytes of
//! a message. The executable codec is proved against both, and the frame
//! laws at the end tie them together: a message survives the round trip
//! through bytes, and no strict prefix of a frame decodes to anything.
use vstd::prelude::*;

use crate::encode::{enc, encode_array_into, encode_value_into, lemma_enc_list3, lemma_enc_list4,
    push_str, push_uint};
use crate::error::{DecodeError, EncodeError, InvalidMessage, ShapeErr};
use crate::parse::{copy_range, parse_val, parse_value, ParseOut, ValueStep};
use crate::roundtrip::{lemma_parse_enc, lemma_parse_enc_prefix};
use crate::value::{lemma_valid_wf, models, wf_val, WireVal, WireValue};

verus! {

broadcast use vstd::seq::axiom_seq_index_decreases, vstd::std_specs::vec::group_vec_axioms;

/// One protocol message.
#[derive(Debug, PartialEq)]
pub enum RpcMessage {
    /// An outbound or inbound call that expects a response.
    RpcRequest { msgid: u64, method: Vec<u8>, params: Vec<WireValue> },
    /// The answer to the request with the same `msgid`: exactly one of
    /// `error` and `result` is nil.
    RpcResponse { msgid: u64, error: WireValue, result: WireValue },
    /// A one-way message.
    RpcNotification { method: Vec<u8>, params: Vec<WireValue> },
}

/// The model of an [`RpcMessage`].
pub enum RpcMsg {
    Request { msgid: u64, method: Seq<u8>, params: Seq<WireVal> },
    Response { msgid: u64, error: WireVal, result: WireVal },
    Notification { method: Seq<u8>, params: Seq<WireVal> },
}

impl View for RpcMessage {
    type V = RpcMsg;

    open spec fn view(&self) -> RpcMsg {
        match self {
            RpcMessage::RpcRequest { msgid, method, params } => RpcMsg::Request {
                msgid: *msgid,
                method: method@,
                params: models(params@),
            },
            RpcMessage::RpcResponse { msgid, error, result } => RpcMsg::Response {
                msgid: *msgid,
                error: error@,
                result: result@,
            },
            RpcMessage::RpcNotification { method, params } => RpcMsg::Notification {
                method: method@,
                params: models(params@),
            },
        }
    }
}

impl RpcMessage {
    /// Validity: every payload value is valid and every length fits the
    /// wire format's size fields.
    pub open spec fn valid(self) -> bool {
        match self {
            RpcMessage::RpcRequest { msgid, method, params } => method@.len() <= u32::MAX
                && params@.len() <= u32::MAX && forall|i: int|
                0 <= i < params@.len() ==> (#[trigger] params@[i]).valid(),
            RpcMessage::RpcResponse { msgid, error, result } => error.valid() && result.valid(),
            RpcMessage::RpcNotification { method, params } => method@.len() <= u32::MAX
                && params@.len() <= u32::MAX && forall|i: int|
                0 <= i < params@.len() ==> (#[trigger] params@[i]).valid(),
        }
    }
}

/// Well-formedness of a model message.
pub open spec fn wf_msg(m: RpcMsg) -> bool {
    match m {
        RpcMsg::Request { msgid, method, params } => method.len() <= u32::MAX && params.len()
            <= u32::MAX && forall|i: int| 0 <= i < params.len() ==> wf_val(#[trigger] params[i]),
        RpcMsg::Response { msgid, error, result } => wf_val(error) && wf_val(result),
        RpcMsg::Notification { method, params } => method.len() <= u32::MAX && params.len()
            <= u32::MAX && forall|i: int| 0 <= i < params.len() ==> wf_val(#[trigger] params[i]),
    }
}

/// The wire value a message stands for: the array layouts above.
pub open spec fn value_of_msg(m: RpcMsg) -> WireVal {
    match m {
        RpcMsg::Request { msgid, method, params } => WireVal::Array(
            seq![
                WireVal::Int(0),
                WireVal::Int(msgid as int),
                WireVal::Str(method),
                WireVal::Array(params),
            ],
        ),
        RpcMsg::Response { msgid, error, result } => WireVal::Array(
            seq![WireVal::Int(1), WireVal::Int(msgid as int), error, result],
        ),
        RpcMsg::Notification { method, params } => WireVal::Array(
            seq![WireVal::Int(2), WireVal::Str(method), WireVal::Array(params)],
        ),
    }
}

/// The exact bytes of a message's frame.
pub open spec fn frame_bytes(m: RpcMsg) -> Seq<u8> {
    enc(value_of_msg(m))
}

/// Which messages an array of a given shape denotes, and the exact error
/// when it denotes none: the frame-validation rule.
pub open spec fn shape_of(v: WireVal) -> Result<RpcMsg, ShapeErr> {
    match v {
        WireVal::Array(elems) => {
            if elems.len() == 0 {
                Err(
                    ShapeErr::WrongArrayLength {
                        msgtype: None,
                        expected_min: 3,
                        expected_max: 4,
                        actual: 0,
                    },
                )
            } else {
                match elems[0] {
                    WireVal::Int(t) => {
                        if t < 0 {
                            Err(ShapeErr::InvalidType(elems[0]))
                        } else if t == 0 {
                            shape_request(elems)
                        } else if t == 1 {
                            shape_response(elems)
                        } else if t == 2 {
                            shape_notification(elems)
                        } else {
                            Err(ShapeErr::UnknownMessageType(t as u64))
                        }
                    },
                    _ => Err(ShapeErr::InvalidType(elems[0])),
                }
            }
        },
        _ => Err(ShapeErr::NotAnArray(v)),
    }
}

/// The request rule: `[0, msgid, method, params]`, exactly four elements.
pub open spec fn shape_request(elems: Seq<WireVal>) -> Result<RpcMsg, ShapeErr> {
    if elems.len() != 4 {
        Err(
            ShapeErr::WrongArrayLength {
                msgtype: Some(0),
                expected_min: 4,
                expected_max: 4,
                actual: elems.len() as u64,
            },
        )
    } else {
        match elems[1] {
            WireVal::Int(id) => {
                if 0 <= id <= u64::MAX {
                    match elems[2] {
                        WireVal::Str(name) => match elems[3] {
                            WireVal::Array(ps) => Ok(
                                RpcMsg::Request { msgid: id as u64, method: name, params: ps },
                            ),
                            _ => Err(ShapeErr::InvalidParams(elems[3], name)),
                        },
                        _ => Err(ShapeErr::InvalidRequestName(id as u64, elems[2])),
                    }
                } else {
                    Err(ShapeErr::InvalidMsgid(elems[1]))
                }
            },
            _ => Err(ShapeErr::InvalidMsgid(elems[1])),
        }
    }
}

/// The response rule: `[1, msgid, error, result]`, exactly four elements.
pub open spec fn shape_response(elems: Seq<WireVal>) -> Result<RpcMsg, ShapeErr> {
    if elems.len() != 4 {
        Err(
            ShapeErr::WrongArrayLength {
                msgtype: Some(1),
                expected_min: 4,
                expected_max: 4,
                actual: elems.len() as u64,
            },
        )
    } else {
        match elems[1] {
            WireVal::Int(id) => {
                if 0 <= id <= u64::MAX {
                    Ok(RpcMsg::Response { msgid: id as u64, error: elems[2], result: elems[3] })
                } else {
                    Err(ShapeErr::InvalidMsgid(elems[1]))
                }
            },
            _ => Err(ShapeErr::InvalidMsgid(elems[1])),
        }
    }
}

/// The notification rule: `[2, method, params]`, exactly three elements.
pub open spec fn shape_notification(elems: Seq<WireVal>) -> Result<RpcMsg, ShapeErr> {
    if elems.len() != 3 {
        Err(
            ShapeErr::WrongArrayLength {
                msgtype: Some(2),
                expected_min: 3,
                expected_max: 3,
                actual: elems.len() as u64,
            },
        )
    } else {
        match elems[1] {
            WireVal::Str(name) => match elems[2] {
                WireVal::Array(ps) => Ok(RpcMsg::Notification { method: name, params: ps }),
                _ => Err(ShapeErr::InvalidParams(elems[2], name)),
            },
            _ => Err(ShapeErr::InvalidNotificationName(elems[1])),
        }
    }
}


/// Check a decoded value against the frame-validation rule and build the
/// message, or the exact error `shape_of` prescribes.
#[verifier::rlimit(60)]
pub fn message_of_value(v: WireValue) -> (r: Result<RpcMessage, InvalidMessage>)
    requires
        v.valid(),
    ensures
        match r {
            Ok(m) => shape_of(v@) == Ok::<RpcMsg, ShapeErr>(m@) && m.valid(),
            Err(e) => shape_of(v@) == Err::<RpcMsg, ShapeErr>(e@),
        },
{
    let mut elems = match v {
        WireValue::Array(a) => a,
        other => {
            return Err(InvalidMessage::NotAnArray(other));
        },
    };
    proof {
        assert(v@->Array_0.len() == elems@.len());
        assert forall|i: int| 0 <= i < elems@.len() implies #[trigger] v@->Array_0[i]
            == elems@[i]@ by {}
        assert forall|i: int| 0 <= i < elems@.len() implies (#[trigger] elems@[i]).valid() by {}
    }
    if elems.len() == 0 {
        return Err(
            InvalidMessage::WrongArrayLength {
                msgtype: None,
                expected_min: 3,
                expected_max: 4,
                actual: 0,
            },
        );
    }
    let t: u64 = match &elems[0] {
        WireValue::Uint(t) => *t,
        _ => {
            return Err(InvalidMessage::InvalidType(elems.remove(0)));
        },
    };
    if t == 0 {
        if elems.len() != 4 {
            return Err(
                InvalidMessage::WrongArrayLength {
                    msgtype: Some(0),
                    expected_min: 4,
                    expected_max: 4,
                    actual: elems.len() as u64,
                },
            );
        }
        let msgid: u64 = match &elems[1] {
            WireValue::Uint(id) => *id,
            _ => {
                return Err(InvalidMessage::InvalidMsgid(elems.remove(1)));
            },
        };
        if !(matches!(&elems[2], WireValue::Str(_))) {
            return Err(InvalidMessage::InvalidRequestName(msgid, elems.remove(2)));
        }
        if !(matches!(&elems[3], WireValue::Array(_))) {
            let method = match elems.remove(2) {
                WireValue::Str(s) => s,
                _ => {
                    proof {
                        assert(false);
                    }
                    Vec::new()
                },
            };
            return Err(InvalidMessage::InvalidParams(elems.remove(2), method));
        }
        let params = match elems.remove(3) {
            WireValue::Array(ps) => ps,
            _ => {
                proof {
                    assert(false);
                }
                Vec::new()
            },
        };
        let method = match elems.remove(2) {
            WireValue::Str(s) => s,
            _ => {
                proof {
                    assert(false);
                }
                Vec::new()
            },
        };
        proof {
            assert(v@->Array_0[3]->Array_0 =~= models(params@));
        }
        Ok(RpcMessage::RpcRequest { msgid, method, params })
    } else if t == 1 {
        if elems.len() != 4 {
            return Err(
                InvalidMessage::WrongArrayLength {
                    msgtype: Some(1),
                    expected_min: 4,
                    expected_max: 4,
                    actual: elems.len() as u64,
                },
            );
        }
        let msgid: u64 = match &elems[1] {
            WireValue::Uint(id) => *id,
            _ => {
                return Err(InvalidMessage::InvalidMsgid(elems.remove(1)));
            },
        };
        let result = elems.remove(3);
        let error = elems.remove(2);
        Ok(RpcMessage::RpcResponse { msgid, error, result })
    } else if t == 2 {
        if elems.len() != 3 {
            return Err(
                InvalidMessage::WrongArrayLength {
                    msgtype: Some(2),
                    expected_min: 3,
                    expected_max: 3,
                    actual: elems.len() as u64,
                },
            );
        }
        if !(matches!(&elems[1], WireValue::Str(_))) {
            return Err(InvalidMessage::InvalidNotificationName(elems.remove(1)));
        }
        if !(matches!(&elems[2], WireValue::Array(_))) {
            let method = match elems.remove(1) {
                WireValue::Str(s) => s,
                _ => {
                    proof {
                        assert(false);
                    }
                    Vec::new()
                },
            };
            return Err(InvalidMessage::InvalidParams(elems.remove(1), method));
        }
        let params = match elems.remove(2) {
            WireValue::Array(ps) => ps,
            _ => {
                proof {
                    assert(false);
                }
                Vec::new()
            },
        };
        let method = match elems.remove(1) {
            WireValue::Str(s) => s,
            _ => {
                proof {
                    assert(false);
                }
                Vec::new()
            },
        };
        proof {
            assert(v@->Array_0[2]->Array_0 =~= models(params@));
        }
        Ok(RpcMessage::RpcNotification { method, params })
    } else {
        Err(InvalidMessage::UnknownMessageType(t))
    }
}

/// Serialize one message into the exact frame bytes, or report that a
/// length cannot be framed. Success exactly when the message is valid.
#[verifier::loop_isolation(false)]
#[verifier::rlimit(60)]
pub fn encode_message(msg: &RpcMessage) -> (r: Result<Vec<u8>, EncodeError>)
    ensures
        match r {
            Ok(bytes) => msg.valid() && bytes@ == frame_bytes(msg@),
            Err(e) => !msg.valid() && e matches EncodeError::BufferError,
        },
{
    match msg {
        RpcMessage::RpcRequest { msgid, method, params } => {
            if (method.len() as u64) > 0xffffffff || (params.len() as u64) > 0xffffffff {
                return Err(EncodeError::BufferError);
            }
            let mut i: usize = 0;
            while i < params.len()
                invariant
                    i <= params@.len(),
                    forall|j: int| 0 <= j < i ==> (#[trigger] params@[j]).valid(),
                decreases params@.len() - i,
            {
                if !params[i].check_valid() {
                    return Err(EncodeError::BufferError);
                }
                i = i + 1;
            }
            let mut out: Vec<u8> = Vec::new();
            out.push(0x94);
            out.push(0x00);
            push_uint(&mut out, *msgid);
            push_str(&mut out, method);
            encode_array_into(&mut out, params);
            proof {
                lemma_enc_list4(
                    WireVal::Int(0),
                    WireVal::Int(*msgid as int),
                    WireVal::Str(method@),
                    WireVal::Array(models(params@)),
                );
                assert(out@ =~= frame_bytes(msg@));
            }
            Ok(out)
        },
        RpcMessage::RpcResponse { msgid, error, result } => {
            if !error.check_valid() || !result.check_valid() {
                return Err(EncodeError::BufferError);
            }
            let mut out: Vec<u8> = Vec::new();
            out.push(0x94);
            out.push(0x01);
            push_uint(&mut out, *msgid);
            encode_value_into(&mut out, error);
            encode_value_into(&mut out, result);
            proof {
                lemma_enc_list4(WireVal::Int(1), WireVal::Int(*msgid as int), error@, result@);
                assert(out@ =~= frame_bytes(msg@));
            }
            Ok(out)
        },
        RpcMessage::RpcNotification { method, params } => {
            if (method.len() as u64) > 0xffffffff || (params.len() as u64) > 0xffffffff {
                return Err(EncodeError::BufferError);
            }
            let mut i: usize = 0;
            while i < params.len()
                invariant
                    i <= params@.len(),
                    forall|j: int| 0 <= j < i ==> (#[trigger] params@[j]).valid(),
                decreases params@.len() - i,
            {
                if !params[i].check_valid() {
                    return Err(EncodeError::BufferError);
                }
                i = i + 1;
            }
            let mut out: Vec<u8> = Vec::new();
            out.push(0x93);
            out.push(0x02);
            push_str(&mut out, method);
            encode_array_into(&mut out, params);
            proof {
                lemma_enc_list3(
                    WireVal::Int(2),
                    WireVal::Str(method@),
                    WireVal::Array(models(params@)),
                );
                assert(out@ =~= frame_bytes(msg@));
            }
            Ok(out)
        },
    }
}

/// Outcome of one attempt to take a frame out of the pending buffer.
#[derive(Debug, PartialEq)]
pub enum DecodeStep {
    /// One complete message, removed from the buffer.
    Message(RpcMessage),
    /// The buffer holds only part of a frame: read more bytes and retry.
    /// This is the only recoverable condition; it never escapes the
    /// reading loop.
    NeedMore,
    /// The bytes are malformed or the frame is not a message: fatal.
    Failed(DecodeError),
}

/// Try to take one frame from the front of `rest`. On success the frame's
/// bytes are consumed and any trailing bytes stay for the next call; on
/// `NeedMore` and on errors the buffer is left as it was.
pub fn try_decode(rest: &mut Vec<u8>) -> (r: DecodeStep)
    ensures
        match parse_val(old(rest)@) {
            ParseOut::More => r is NeedMore && final(rest)@ == old(rest)@,
            ParseOut::Bad => (r matches DecodeStep::Failed(e) && e matches DecodeError::BufferError)
                && final(rest)@ == old(rest)@,
            ParseOut::Found(v, n) => match shape_of(v) {
                Ok(mm) => (r matches DecodeStep::Message(m) && m@ == mm && m.valid()) && final(rest)@ == old(rest)@.skip(n as int),
                Err(se) => (r matches DecodeStep::Failed(e) && e matches DecodeError::InvalidMessage(
                    im,
                ) && im@ == se) && final(rest)@ == old(rest)@,
            },
        },
{
    proof {
        assert(rest@.skip(0) =~= rest@);
    }
    match parse_value(rest, 0) {
        ValueStep::More => DecodeStep::NeedMore,
        ValueStep::Bad => DecodeStep::Failed(DecodeError::BufferError),
        ValueStep::Found(v, end) => {
            match message_of_value(v) {
                Ok(m) => {
                    let tail = copy_range(rest, end, rest.len());
                    proof {
                        assert(rest@.subrange(end as int, rest@.len() as int) =~= rest@.skip(
                            end as int,
                        ));
                    }
                    *rest = tail;
                    DecodeStep::Message(m)
                },
                Err(im) => DecodeStep::Failed(DecodeError::InvalidMessage(im)),
            }
        },
    }
}

/// A message's wire value is well-formed whenever the message is.
pub proof fn lemma_value_of_msg_wf(m: RpcMsg)
    requires
        wf_msg(m),
    ensures
        wf_val(value_of_msg(m)),
{
    let es = value_of_msg(m)->Array_0;
    match m {
        RpcMsg::Request { msgid, method, params } => {
            assert(wf_val(es[0]) && wf_val(es[1]) && wf_val(es[2]) && wf_val(es[3]));
            assert forall|i: int| 0 <= i < es.len() implies wf_val(#[trigger] es[i]) by {}
        },
        RpcMsg::Response { msgid, error, result } => {
            assert(wf_val(es[0]) && wf_val(es[1]) && wf_val(es[2]) && wf_val(es[3]));
            assert forall|i: int| 0 <= i < es.len() implies wf_val(#[trigger] es[i]) by {}
        },
        RpcMsg::Notification { method, params } => {
            assert(wf_val(es[0]) && wf_val(es[1]) && wf_val(es[2]));
            assert forall|i: int| 0 <= i < es.len() implies wf_val(#[trigger] es[i]) by {}
        },
    }
}

/// Frame validation inverts frame building: the wire value of any
/// well-formed message passes `shape_of` and yields that very message.
pub proof fn lemma_shape_of_value_of(m: RpcMsg)
    requires
        wf_msg(m),
    ensures
        shape_of(value_of_msg(m)) == Ok::<RpcMsg, ShapeErr>(m),
{
}

/// A valid executable message has a well-formed model.
pub proof fn lemma_msg_valid_wf(m: RpcMessage)
    requires
        m.valid(),
    ensures
        wf_msg(m@),
{
    match m {
        RpcMessage::RpcRequest { msgid, method, params } => {
            assert forall|i: int| 0 <= i < models(params@).len() implies wf_val(
                #[trigger] models(params@)[i],
            ) by {
                lemma_valid_wf(params@[i]);
            }
        },
        RpcMessage::RpcResponse { msgid, error, result } => {
            lemma_valid_wf(error);
            lemma_valid_wf(result);
        },
        RpcMessage::RpcNotification { method, params } => {
            assert forall|i: int| 0 <= i < models(params@).len() implies wf_val(
                #[trigger] models(params@)[i],
            ) by {
                lemma_valid_wf(params@[i]);
            }
        },
    }
}

/// Round trip for whole frames: parsing the frame bytes of a well-formed
/// message — with any bytes of later frames behind them — finds exactly
/// the message's wire value, consumes exactly the frame, and frame
/// validation returns exactly the message.
pub proof fn lemma_frame_roundtrip(m: RpcMsg, rest: Seq<u8>)
    requires
        wf_msg(m),
    ensures
        parse_val(frame_bytes(m) + rest) == ParseOut::Found(value_of_msg(m), frame_bytes(m).len()),
        shape_of(value_of_msg(m)) == Ok::<RpcMsg, ShapeErr>(m),
{
    lemma_value_of_msg_wf(m);
    lemma_parse_enc(value_of_msg(m), rest);
    lemma_shape_of_value_of(m);
}

/// Partial reads of whole frames: a strict prefix of a frame parses to
/// "read more" — never to a message, never to an error.
pub proof fn lemma_frame_prefix(m: RpcMsg, k: int)
    requires
        wf_msg(m),
        0 <= k < frame_bytes(m).len(),
    ensures
        parse_val(frame_bytes(m).take(k)) is More,
{
    lemma_value_of_msg_wf(m);
    lemma_parse_enc_prefix(value_of_msg(m), k);
}


/// Conversion into a wire value, for assembling call arguments.
pub trait IntoVal<T>: Sized {
    /// The wire value this datum denotes.
    spec fn as_val(self) -> T;

    /// Build that value.
    fn into_val(self) -> (r: T)
        ensures
            r == self.as_val(),
    ;
}

impl IntoVal<WireValue> for bool {
    open spec fn as_val(self) -> WireValue {
        WireValue::Bool(self)
    }

    fn into_val(self) -> (r: WireValue) {
        WireValue::Bool(self)
    }
}

impl IntoVal<WireValue> for i64 {
    open spec fn as_val(self) -> WireValue {
        if self < 0 {
            WireValue::Nint(self)
        } else {
            WireValue::Uint(self as u64)
        }
    }

    fn into_val(self) -> (r: WireValue) {
        if self < 0 {
            WireValue::Nint(self)
        } else {
            WireValue::Uint(self as u64)
        }
    }
}

impl IntoVal<WireValue> for u64 {
    open spec fn as_val(self) -> WireValue {
        WireValue::Uint(self)
    }

    fn into_val(self) -> (r: WireValue) {
        WireValue::Uint(self)
    }
}

impl IntoVal<WireValue> for Vec<u8> {
    open spec fn as_val(self) -> WireValue {
        WireValue::Str(self)
    }

    fn into_val(self) -> (r: WireValue) {
        WireValue::Str(self)
    }
}

impl IntoVal<WireValue> for Vec<WireValue> {
    open spec fn as_val(self) -> WireValue {
        WireValue::Array(self)
    }

    fn into_val(self) -> (r: WireValue) {
        WireValue::Array(self)
    }
}

impl IntoVal<WireValue> for WireValue {
    open spec fn as_val(self) -> WireValue {
        self
    }

    fn into_val(self) -> (r: WireValue) {
        self
    }
}

impl IntoVal<WireValue> for Vec<(WireValue, WireValue)> {
    open spec fn as_val(self) -> WireValue {
        WireValue::Dict(self)
    }

    fn into_val(self) -> (r: WireValue) {
        WireValue::Dict(self)
    }
}

/// Pack a pair of integers as a two-element wire array, as cursor
/// positions and similar coordinates travel.
pub fn pair_val(pair: (i64, i64)) -> (r: WireValue)
    ensures
        r@ == WireVal::Array(seq![WireVal::Int(pair.0 as int), WireVal::Int(pair.1 as int)]),
{
    let a = pair.0.into_val();
    let b = pair.1.into_val();
    let mut elems: Vec<WireValue> = Vec::new();
    elems.push(a);
    elems.push(b);
    proof {
        assert(a@ == WireVal::Int(pair.0 as int));
        assert(b@ == WireVal::Int(pair.1 as int));
        assert(elems@ =~= seq![a, b]);
        assert(WireValue::Array(elems).model()->Array_0 =~= seq![
            WireVal::Int(pair.0 as int),
            WireVal::Int(pair.1 as int),
        ]);
    }
    WireValue::Array(elems)
}

} // verus!
