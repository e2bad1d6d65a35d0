//! Multiplexer-state tests: the msgid counter, the pending table, the
//! routing rule, the redraw lane, and the error predicates.
use std::sync::Arc;

use nvim_rs::error::{CallError, DecodeError, EncodeError, InvalidMessage, IoErrorKind, LoopError};
use nvim_rs::model::RpcMessage;
use nvim_rs::session::response_message;
use nvim_rs::redraw::RedrawQueue;
use nvim_rs::session::{route_message, MsgidCounter, PendingTable, Routing};
use nvim_rs::value::WireValue;

#[test]
fn neovim_test_find_sender() {
    let mut queue: PendingTable<i32> = PendingTable::new();
    queue.register(1, 101);
    queue.register(2, 102);
    queue.register(3, 103);

    assert_eq!(101, queue.find_sender(1).unwrap());
    assert_eq!(2, queue.len());
    assert_eq!(102, queue.find_sender(2).unwrap());
    assert_eq!(1, queue.len());
    assert_eq!(103, queue.find_sender(3).unwrap());
    assert_eq!(0, queue.len());

    if let LoopError::MsgidNotFound(17) = queue.find_sender(17).unwrap_err() {
    } else {
        panic!()
    }
}

#[test]
fn requester_test_find_sender() {
    let mut queue: PendingTable<&'static str> = PendingTable::new();
    queue.register(1, "one");
    queue.register(2, "two");
    queue.register(3, "three");

    // Out of registration order: each id finds exactly its own slot.
    assert_eq!("two", queue.find_sender(2).unwrap());
    assert_eq!("three", queue.find_sender(3).unwrap());
    assert_eq!("one", queue.find_sender(1).unwrap());
    assert!(matches!(
        queue.find_sender(1),
        Err(LoopError::MsgidNotFound(1))
    ));
}

#[test]
fn msgids_unique() {
    let mut counter = MsgidCounter::new();
    let mut seen: Vec<u64> = Vec::new();
    for _ in 0..100 {
        let id = counter.fresh();
        assert!(!seen.contains(&id), "msgid handed out twice");
        seen.push(id);
    }
}

#[test]
fn fatal_decode_broadcast() {
    // Three pending calls; the stream then dies. Teardown drains them
    // all and every one receives the same shared error instance.
    let mut queue: PendingTable<u8> = PendingTable::new();
    queue.register(10, 0);
    queue.register(11, 1);
    queue.register(12, 2);

    let fatal = Arc::new(DecodeError::ReaderError(
        IoErrorKind::UnexpectedEof,
        String::from("stream closed"),
    ));
    let drained = queue.drain();
    assert_eq!(0, queue.len());
    assert_eq!(vec![(10, 0), (11, 1), (12, 2)], drained);

    let delivered: Vec<(u64, Arc<DecodeError>)> =
        drained.iter().map(|(id, _)| (*id, fatal.clone())).collect();
    assert_eq!(3, delivered.len());
    for (_, err) in &delivered {
        assert!(Arc::ptr_eq(err, &fatal), "caller got a different error");
    }
}

#[test]
fn routing_rules() {
    let req = RpcMessage::RpcRequest {
        msgid: 5,
        method: b"do_thing".to_vec(),
        params: vec![WireValue::Uint(1)],
    };
    match route_message(req) {
        Routing::Request {
            msgid,
            method,
            params,
        } => {
            assert_eq!(5, msgid);
            assert_eq!(b"do_thing".to_vec(), method);
            assert_eq!(vec![WireValue::Uint(1)], params);
        }
        _ => panic!("request routed wrong"),
    }

    let ok_resp = RpcMessage::RpcResponse {
        msgid: 7,
        error: WireValue::Nil,
        result: WireValue::Uint(9),
    };
    match route_message(ok_resp) {
        Routing::Response { msgid, response } => {
            assert_eq!(7, msgid);
            assert_eq!(Ok(WireValue::Uint(9)), response);
        }
        _ => panic!("response routed wrong"),
    }

    let err_resp = RpcMessage::RpcResponse {
        msgid: 8,
        error: WireValue::Str(b"bad".to_vec()),
        result: WireValue::Nil,
    };
    match route_message(err_resp) {
        Routing::Response { msgid, response } => {
            assert_eq!(8, msgid);
            assert_eq!(Err(WireValue::Str(b"bad".to_vec())), response);
        }
        _ => panic!("error response routed wrong"),
    }

    let redraw = RpcMessage::RpcNotification {
        method: b"redraw".to_vec(),
        params: vec![WireValue::Uint(1)],
    };
    match route_message(redraw) {
        Routing::Redraw { params } => assert_eq!(vec![WireValue::Uint(1)], params),
        _ => panic!("redraw routed wrong"),
    }

    let other = RpcMessage::RpcNotification {
        method: b"resize".to_vec(),
        params: vec![],
    };
    match route_message(other) {
        Routing::Notify { method, params } => {
            assert_eq!(b"resize".to_vec(), method);
            assert!(params.is_empty());
        }
        _ => panic!("notification routed wrong"),
    }
}

#[test]
fn response_message_shapes() {
    let ok = response_message(3, Ok(WireValue::Uint(1)));
    assert_eq!(
        RpcMessage::RpcResponse {
            msgid: 3,
            error: WireValue::Nil,
            result: WireValue::Uint(1),
        },
        ok
    );
    let err = response_message(4, Err(WireValue::Str(b"no".to_vec())));
    assert_eq!(
        RpcMessage::RpcResponse {
            msgid: 4,
            error: WireValue::Str(b"no".to_vec()),
            result: WireValue::Nil,
        },
        err
    );
}

#[test]
fn redraw_ordering() {
    let mut lane = RedrawQueue::new();
    let b1 = vec![WireValue::Uint(1)];
    let b2 = vec![WireValue::Uint(2)];
    let b3 = vec![WireValue::Uint(3)];

    // First batch: a drain task must be started.
    assert!(lane.push(b1));
    // The drain task takes the first batch and starts handling it.
    assert_eq!(Some(vec![WireValue::Uint(1)]), lane.next_batch());
    // Two more batches arrive while it is still busy: no second task.
    assert!(!lane.push(b2));
    assert!(!lane.push(b3));
    // The one task keeps taking batches in arrival order.
    assert_eq!(Some(vec![WireValue::Uint(2)]), lane.next_batch());
    assert_eq!(Some(vec![WireValue::Uint(3)]), lane.next_batch());
    // Nothing left: the lane goes idle and the task stops.
    assert_eq!(None, lane.next_batch());
    // The next batch starts a fresh task.
    assert!(lane.push(vec![WireValue::Uint(4)]));
}

#[test]
fn channel_closed_predicates() {
    let eof = Arc::new(DecodeError::ReaderError(
        IoErrorKind::UnexpectedEof,
        String::from("eof"),
    ));
    let hard = Arc::new(DecodeError::ReaderError(
        IoErrorKind::Other,
        String::from("connection reset"),
    ));
    let shape = Arc::new(DecodeError::InvalidMessage(
        InvalidMessage::UnknownMessageType(3),
    ));

    let closed = CallError::DecodeError(eof.clone(), b"m".to_vec());
    assert!(closed.is_channel_closed());
    let failed = CallError::DecodeError(hard.clone(), b"m".to_vec());
    assert!(!failed.is_channel_closed());
    let send_eof = CallError::SendError(
        EncodeError::WriterError(IoErrorKind::UnexpectedEof, String::from("eof")),
        b"m".to_vec(),
    );
    assert!(send_eof.is_channel_closed());
    let send_buf = CallError::SendError(EncodeError::BufferError, b"m".to_vec());
    assert!(!send_buf.is_channel_closed());

    let loop_eof = LoopError::DecodeError(eof, None);
    assert!(loop_eof.is_channel_closed());
    assert!(loop_eof.is_reader_error());
    let loop_hard = LoopError::DecodeError(hard, None);
    assert!(!loop_hard.is_channel_closed());
    assert!(loop_hard.is_reader_error());
    let loop_shape = LoopError::DecodeError(shape, Some(vec![1, 2]));
    assert!(!loop_shape.is_channel_closed());
    assert!(!loop_shape.is_reader_error());
    assert!(!LoopError::MsgidNotFound(1).is_reader_error());
}

#[test]
fn remote_error_values() {
    let well_formed = WireValue::Array(vec![
        WireValue::Uint(1),
        WireValue::Str(b"invalid argument".to_vec()),
    ]);
    assert_eq!(
        CallError::NeovimError(Some(1), b"invalid argument".to_vec()),
        CallError::from_error_value(well_formed)
    );

    let negative = WireValue::Array(vec![
        WireValue::Nint(-7),
        WireValue::Str(b"custom".to_vec()),
    ]);
    assert_eq!(
        CallError::NeovimError(Some(-7), b"custom".to_vec()),
        CallError::from_error_value(negative)
    );

    let odd = WireValue::Str(b"just text".to_vec());
    assert_eq!(
        CallError::WrongValueType(WireValue::Str(b"just text".to_vec())),
        CallError::from_error_value(odd)
    );

    let too_long = WireValue::Array(vec![
        WireValue::Uint(1),
        WireValue::Str(b"x".to_vec()),
        WireValue::Nil,
    ]);
    assert_eq!(
        CallError::WrongValueType(WireValue::Array(vec![
            WireValue::Uint(1),
            WireValue::Str(b"x".to_vec()),
            WireValue::Nil,
        ])),
        CallError::from_error_value(too_long)
    );
}
