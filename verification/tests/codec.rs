//! Frame codec tests: round trips, partial reads, framing, wrong shapes,
//! and byte-level interoperability with an independent implementation of
//! the wire format.
use nvim_rs::error::{DecodeError, InvalidMessage};
use nvim_rs::model::{encode_message, try_decode, DecodeStep, RpcMessage};
use nvim_rs::value::WireValue;

fn rich_params() -> Vec<WireValue> {
    vec![
        WireValue::Nil,
        WireValue::Bool(true),
        WireValue::Uint(5),
        WireValue::Nint(-3),
        WireValue::Uint(300),
        WireValue::Uint(u64::MAX),
        WireValue::Nint(i64::MIN),
        WireValue::F32(1.5f32.to_bits()),
        WireValue::F64((-2.25f64).to_bits()),
        WireValue::Str("h\u{e9}llo".as_bytes().to_vec()),
        WireValue::Bin(vec![0, 255]),
        WireValue::Dict(vec![(WireValue::Str(b"k".to_vec()), WireValue::Uint(1))]),
        WireValue::Ext(5, vec![1, 2, 3, 4]),
    ]
}

fn rich_params_rmpv() -> Vec<rmpv::Value> {
    vec![
        rmpv::Value::Nil,
        rmpv::Value::Boolean(true),
        rmpv::Value::from(5),
        rmpv::Value::from(-3),
        rmpv::Value::from(300),
        rmpv::Value::from(u64::MAX),
        rmpv::Value::from(i64::MIN),
        rmpv::Value::F32(1.5f32),
        rmpv::Value::F64(-2.25f64),
        rmpv::Value::from("h\u{e9}llo"),
        rmpv::Value::Binary(vec![0, 255]),
        rmpv::Value::Map(vec![(rmpv::Value::from("k"), rmpv::Value::from(1))]),
        rmpv::Value::Ext(5, vec![1, 2, 3, 4]),
    ]
}

fn decode_all(bytes: &[u8]) -> Vec<RpcMessage> {
    let mut rest: Vec<u8> = bytes.to_vec();
    let mut out = Vec::new();
    loop {
        match try_decode(&mut rest) {
            DecodeStep::Message(m) => out.push(m),
            DecodeStep::NeedMore => break,
            DecodeStep::Failed(e) => panic!("decode failed: {:?}", e),
        }
    }
    assert!(rest.is_empty());
    out
}

#[test]
fn request_test() {
    let msg = RpcMessage::RpcRequest {
        msgid: 1,
        method: b"test_method".to_vec(),
        params: vec![],
    };
    let bytes = encode_message(&msg).unwrap();
    let msgs = decode_all(&bytes);
    assert_eq!(vec![msg], msgs);
}

#[test]
fn request_test_twice() {
    let msg_1 = RpcMessage::RpcRequest {
        msgid: 1,
        method: b"test_method".to_vec(),
        params: vec![],
    };
    let msg_2 = RpcMessage::RpcRequest {
        msgid: 2,
        method: b"test_method_2".to_vec(),
        params: vec![],
    };
    let mut bytes = encode_message(&msg_1).unwrap();
    let bytes_2 = encode_message(&msg_2).unwrap();
    bytes.extend_from_slice(&bytes_2);
    assert_eq!(34, bytes.len()); // the second frame is 2 bytes longer

    let mut rest = bytes.clone();
    let first = try_decode(&mut rest);
    assert_eq!(DecodeStep::Message(msg_1), first);
    assert_eq!(34 - 16, rest.len()); // the first frame took exactly 16 bytes
    let second = try_decode(&mut rest);
    assert_eq!(DecodeStep::Message(msg_2), second);
    assert!(rest.is_empty());
}

#[test]
fn roundtrip_request_with_params() {
    let msg = RpcMessage::RpcRequest {
        msgid: 77,
        method: b"nvim_eval".to_vec(),
        params: rich_params(),
    };
    let bytes = encode_message(&msg).unwrap();
    assert_eq!(vec![msg], decode_all(&bytes));
}

#[test]
fn roundtrip_response_nil_error() {
    let msg = RpcMessage::RpcResponse {
        msgid: 3,
        error: WireValue::Nil,
        result: WireValue::Str(b"ok".to_vec()),
    };
    let bytes = encode_message(&msg).unwrap();
    assert_eq!(vec![msg], decode_all(&bytes));
}

#[test]
fn roundtrip_response_nil_result() {
    let msg = RpcMessage::RpcResponse {
        msgid: 4,
        error: WireValue::Array(vec![WireValue::Uint(1), WireValue::Str(b"boom".to_vec())]),
        result: WireValue::Nil,
    };
    let bytes = encode_message(&msg).unwrap();
    assert_eq!(vec![msg], decode_all(&bytes));
}

#[test]
fn roundtrip_notification() {
    let empty = RpcMessage::RpcNotification {
        method: b"redraw".to_vec(),
        params: vec![],
    };
    let full = RpcMessage::RpcNotification {
        method: b"redraw".to_vec(),
        params: rich_params(),
    };
    let bytes = encode_message(&empty).unwrap();
    assert_eq!(vec![empty], decode_all(&bytes));
    let bytes = encode_message(&full).unwrap();
    assert_eq!(vec![full], decode_all(&bytes));
}

#[test]
fn roundtrip_integer_boundaries() {
    let ints: Vec<WireValue> = vec![
        WireValue::Uint(0),
        WireValue::Uint(127),
        WireValue::Uint(128),
        WireValue::Uint(255),
        WireValue::Uint(256),
        WireValue::Uint(65535),
        WireValue::Uint(65536),
        WireValue::Uint(4294967295),
        WireValue::Uint(4294967296),
        WireValue::Uint(u64::MAX),
        WireValue::Nint(-1),
        WireValue::Nint(-32),
        WireValue::Nint(-33),
        WireValue::Nint(-128),
        WireValue::Nint(-129),
        WireValue::Nint(-32768),
        WireValue::Nint(-32769),
        WireValue::Nint(-2147483648),
        WireValue::Nint(-2147483649),
        WireValue::Nint(i64::MIN),
    ];
    let msg = RpcMessage::RpcNotification {
        method: b"ints".to_vec(),
        params: ints,
    };
    let bytes = encode_message(&msg).unwrap();
    assert_eq!(vec![msg], decode_all(&bytes));
}

#[test]
fn partial_reads_byte_by_byte() {
    let msg = RpcMessage::RpcRequest {
        msgid: 9,
        method: b"ping".to_vec(),
        params: rich_params(),
    };
    let bytes = encode_message(&msg).unwrap();
    let mut rest: Vec<u8> = Vec::new();
    let mut got = None;
    for (i, b) in bytes.iter().enumerate() {
        rest.push(*b);
        match try_decode(&mut rest) {
            DecodeStep::NeedMore => {
                assert!(i + 1 < bytes.len(), "no message at the last byte");
            }
            DecodeStep::Message(m) => {
                assert_eq!(i + 1, bytes.len(), "message before all bytes arrived");
                got = Some(m);
            }
            DecodeStep::Failed(e) => panic!("prefix rejected: {:?}", e),
        }
    }
    assert_eq!(Some(msg), got);
    assert!(rest.is_empty());
}

#[test]
fn partial_reads_chunked() {
    for chunk_len in [2usize, 3, 7] {
        let msg = RpcMessage::RpcResponse {
            msgid: 1000,
            error: WireValue::Nil,
            result: WireValue::Array(rich_params()),
        };
        let bytes = encode_message(&msg).unwrap();
        let mut rest: Vec<u8> = Vec::new();
        let mut got = None;
        for chunk in bytes.chunks(chunk_len) {
            rest.extend_from_slice(chunk);
            match try_decode(&mut rest) {
                DecodeStep::NeedMore => {}
                DecodeStep::Message(m) => got = Some(m),
                DecodeStep::Failed(e) => panic!("chunk rejected: {:?}", e),
            }
        }
        assert_eq!(Some(msg), got);
    }
}

#[test]
fn wrong_arity_rejected() {
    // The wire array [0, 5]: too short for a request.
    let mut rest = vec![0x92, 0x00, 0x05];
    match try_decode(&mut rest) {
        DecodeStep::Failed(DecodeError::InvalidMessage(InvalidMessage::WrongArrayLength {
            msgtype,
            expected_min,
            expected_max,
            actual,
        })) => {
            assert_eq!(Some(0), msgtype);
            assert_eq!(4, expected_min);
            assert_eq!(4, expected_max);
            assert_eq!(2, actual);
        }
        other => panic!("expected a wrong-arity error, got {:?}", other),
    }
}

#[test]
fn shape_errors_are_named() {
    // Not an array at all.
    let mut rest = vec![0x05];
    assert_eq!(
        DecodeStep::Failed(DecodeError::InvalidMessage(InvalidMessage::NotAnArray(
            WireValue::Uint(5)
        ))),
        try_decode(&mut rest)
    );
    // Message type is not an unsigned integer.
    let mut rest = vec![0x91, 0xc0];
    assert_eq!(
        DecodeStep::Failed(DecodeError::InvalidMessage(InvalidMessage::InvalidType(
            WireValue::Nil
        ))),
        try_decode(&mut rest)
    );
    // Message type 3 does not exist.
    let mut rest = vec![0x91, 0x03];
    assert_eq!(
        DecodeStep::Failed(DecodeError::InvalidMessage(
            InvalidMessage::UnknownMessageType(3)
        )),
        try_decode(&mut rest)
    );
    // A request whose msgid is not an unsigned integer.
    let mut rest = vec![0x94, 0x00, 0xc0, 0xa0, 0x90];
    assert_eq!(
        DecodeStep::Failed(DecodeError::InvalidMessage(InvalidMessage::InvalidMsgid(
            WireValue::Nil
        ))),
        try_decode(&mut rest)
    );
    // A request whose method is not a string.
    let mut rest = vec![0x94, 0x00, 0x01, 0xc0, 0x90];
    assert_eq!(
        DecodeStep::Failed(DecodeError::InvalidMessage(
            InvalidMessage::InvalidRequestName(1, WireValue::Nil)
        )),
        try_decode(&mut rest)
    );
    // A request whose params are not an array.
    let mut rest = vec![0x94, 0x00, 0x01, 0xa1, 0x61, 0xc0];
    assert_eq!(
        DecodeStep::Failed(DecodeError::InvalidMessage(InvalidMessage::InvalidParams(
            WireValue::Nil,
            b"a".to_vec()
        ))),
        try_decode(&mut rest)
    );
    // A notification whose method is not a string.
    let mut rest = vec![0x93, 0x02, 0xc0, 0x90];
    assert_eq!(
        DecodeStep::Failed(DecodeError::InvalidMessage(
            InvalidMessage::InvalidNotificationName(WireValue::Nil)
        )),
        try_decode(&mut rest)
    );
    // A notification that is too long.
    let mut rest = vec![0x94, 0x02, 0xa1, 0x61, 0x90, 0xc0];
    assert_eq!(
        DecodeStep::Failed(DecodeError::InvalidMessage(
            InvalidMessage::WrongArrayLength {
                msgtype: Some(2),
                expected_min: 3,
                expected_max: 3,
                actual: 4,
            }
        )),
        try_decode(&mut rest)
    );
    // An empty array.
    let mut rest = vec![0x90];
    assert_eq!(
        DecodeStep::Failed(DecodeError::InvalidMessage(
            InvalidMessage::WrongArrayLength {
                msgtype: None,
                expected_min: 3,
                expected_max: 4,
                actual: 0,
            }
        )),
        try_decode(&mut rest)
    );
}

#[test]
fn malformed_marker_is_fatal() {
    // 0xc1 is the one byte that begins no value.
    let mut rest = vec![0xc1];
    assert_eq!(
        DecodeStep::Failed(DecodeError::BufferError),
        try_decode(&mut rest)
    );
    // Also when nested inside a frame.
    let mut rest = vec![0x93, 0x02, 0xa1, 0x61, 0xc1];
    assert_eq!(
        DecodeStep::Failed(DecodeError::BufferError),
        try_decode(&mut rest)
    );
}

#[test]
fn unframeable_message_is_rejected() {
    // A negative payload in the non-negative carrier is not a valid value.
    let msg = RpcMessage::RpcResponse {
        msgid: 1,
        error: WireValue::Nil,
        result: WireValue::Nint(5),
    };
    assert_eq!(
        Err(nvim_rs::error::EncodeError::BufferError),
        encode_message(&msg)
    );
}

#[test]
fn interop_encoder_matches_reference() {
    let msg = RpcMessage::RpcNotification {
        method: b"mixed".to_vec(),
        params: rich_params(),
    };
    let ours = encode_message(&msg).unwrap();

    let reference = rmpv::Value::Array(vec![
        rmpv::Value::from(2),
        rmpv::Value::from("mixed"),
        rmpv::Value::Array(rich_params_rmpv()),
    ]);
    let mut theirs: Vec<u8> = Vec::new();
    rmpv::encode::write_value(&mut theirs, &reference).unwrap();

    assert_eq!(theirs, ours);
}

#[test]
fn interop_decoder_reads_reference_bytes() {
    let reference = rmpv::Value::Array(vec![
        rmpv::Value::from(1),
        rmpv::Value::from(42),
        rmpv::Value::Nil,
        rmpv::Value::Array(rich_params_rmpv()),
    ]);
    let mut bytes: Vec<u8> = Vec::new();
    rmpv::encode::write_value(&mut bytes, &reference).unwrap();

    let expected = RpcMessage::RpcResponse {
        msgid: 42,
        error: WireValue::Nil,
        result: WireValue::Array(rich_params()),
    };
    assert_eq!(vec![expected], decode_all(&bytes));
}

#[test]
fn interop_noncanonical_integers_accepted() {
    // The value 5 written wastefully as uint64, and -3 as int32, inside
    // a notification frame [2, "m", [5, -3]].
    let bytes: Vec<u8> = vec![
        0x93, 0x02, 0xa1, 0x6d, 0x92, //
        0xcf, 0, 0, 0, 0, 0, 0, 0, 5, //
        0xd2, 0xff, 0xff, 0xff, 0xfd,
    ];
    let expected = RpcMessage::RpcNotification {
        method: b"m".to_vec(),
        params: vec![WireValue::Uint(5), WireValue::Nint(-3)],
    };
    assert_eq!(vec![expected], decode_all(&bytes));
}
