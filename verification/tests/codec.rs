//! Tests of the wire codec: exact encodings, round trips, and rejection
//! of malformed or unknown frames.

use hyper_latency::codec::{
    decode_message, decode_request, decode_sequencer, encode_message, encode_request,
    encode_sequencer,
};
use hyper_latency::messages::{
    DecodeReason, Message, Method, MethodData, SequencerMessage, SequencerResponse, Sub,
    Subscription, WsBook, WsLevel,
};

fn b(s: &str) -> Vec<u8> {
    s.as_bytes().to_vec()
}

#[test]
fn subscribe_request_exact_text() {
    let m = Sub::l2book(b("ETH"));
    let t = encode_request(&m);
    assert_eq!(
        String::from_utf8(t).unwrap(),
        "{\"method\":\"subscribe\",\"subscription\":{\"type\":\"l2Book\",\"coin\":\"ETH\"}}"
    );
}

#[test]
fn subscribe_request_round_trip() {
    let m = Sub::l2book(b("BTC"));
    let t = encode_request(&m);
    let back = decode_request(&t).unwrap();
    assert_eq!(back.method, b("subscribe"));
    assert_eq!(back.subscription.type_, b("l2Book"));
    assert_eq!(back.subscription.coin, b("BTC"));
    assert_eq!(back, m);
}

#[test]
fn request_round_trip_other_fields() {
    let m = Method {
        method: b("unsubscribe"),
        subscription: Sub { type_: b("l2Book"), coin: b("SOL") },
    };
    let t = encode_request(&m);
    assert_eq!(decode_request(&t).unwrap(), m);
}

#[test]
fn request_with_trailing_text_rejected() {
    let m = Sub::l2book(b("ETH"));
    let mut t = encode_request(&m);
    t.push(b' ');
    assert!(decode_request(&t).is_err());
}

fn sample_book() -> WsBook {
    WsBook {
        coin: b("ETH"),
        time: 1700000000000,
        bids: vec![
            WsLevel { px: b("3000.5"), sz: b("1.2"), n: 3 },
            WsLevel { px: b("3000.0"), sz: b("0.7"), n: 1 },
        ],
        asks: vec![WsLevel { px: b("3001.0"), sz: b("0.8"), n: 2 }],
    }
}

#[test]
fn book_frame_exact_text() {
    let m = Message::L2Book(sample_book());
    let t = encode_message(&m);
    assert_eq!(
        String::from_utf8(t).unwrap(),
        "{\"channel\":\"l2Book\",\"data\":{\"coin\":\"ETH\",\"time\":1700000000000,\
         \"levels\":[[{\"px\":\"3000.5\",\"sz\":\"1.2\",\"n\":3},\
         {\"px\":\"3000.0\",\"sz\":\"0.7\",\"n\":1}],\
         [{\"px\":\"3001.0\",\"sz\":\"0.8\",\"n\":2}]]}}"
    );
}

#[test]
fn book_frame_round_trip_preserves_levels() {
    let m = Message::L2Book(sample_book());
    let t = encode_message(&m);
    let back = decode_message(&t).unwrap();
    match &back {
        Message::L2Book(bk) => {
            assert_eq!(bk.bids.len(), 2);
            assert_eq!(bk.asks.len(), 1);
            assert_eq!(bk.bids[0].px, b("3000.5"));
            assert_eq!(bk.bids[1].px, b("3000.0"));
            assert_eq!(bk.asks[0].sz, b("0.8"));
            assert_eq!(bk.time, 1700000000000);
            assert_eq!(bk.time(), 1700000000000);
        }
        _ => panic!("wrong variant"),
    }
    assert_eq!(back, m);
}

#[test]
fn decimal_text_survives_round_trip() {
    let m = Message::L2Book(WsBook {
        coin: b("X"),
        time: 1,
        bids: vec![WsLevel { px: b("-0.250"), sz: b("10"), n: 0 }],
        asks: vec![],
    });
    let t = encode_message(&m);
    let back = decode_message(&t).unwrap();
    match back {
        Message::L2Book(bk) => {
            assert_eq!(bk.bids[0].px, b("-0.250"));
            assert_eq!(bk.bids[0].sz, b("10"));
            assert_eq!(bk.asks.len(), 0);
        }
        _ => panic!("wrong variant"),
    }
}

#[test]
fn ack_frame_round_trip() {
    let m = Message::SubRes(MethodData {
        method: b("subscribe"),
        subscription: Subscription {
            type_: b("l2Book"),
            coin: b("ETH"),
            n_sig_figs: Some(5),
            mantissa: None,
        },
    });
    let t = encode_message(&m);
    assert_eq!(
        String::from_utf8(t.clone()).unwrap(),
        "{\"channel\":\"subscriptionResponse\",\"data\":{\"method\":\"subscribe\",\
         \"subscription\":{\"type\":\"l2Book\",\"coin\":\"ETH\",\
         \"nSigFigs\":5,\"mantissa\":null}}}"
    );
    let back = decode_message(&t).unwrap();
    assert_eq!(back, m);
}

#[test]
fn ack_frame_both_null_round_trip() {
    let m = Message::SubRes(MethodData {
        method: b("subscribe"),
        subscription: Subscription {
            type_: b("l2Book"),
            coin: b("BTC"),
            n_sig_figs: None,
            mantissa: Some(0),
        },
    });
    let t = encode_message(&m);
    assert_eq!(decode_message(&t).unwrap(), m);
}

#[test]
fn reencode_reproduces_the_frame() {
    let t = b(
        "{\"channel\":\"l2Book\",\"data\":{\"coin\":\"ETH\",\"time\":1700000000000,\
         \"levels\":[[{\"px\":\"3000.5\",\"sz\":\"1.2\",\"n\":3}],\
         [{\"px\":\"3001.0\",\"sz\":\"0.8\",\"n\":2}]]}}",
    );
    let m = decode_message(&t).unwrap();
    assert_eq!(encode_message(&m), t);
}

#[test]
fn garbage_is_rejected_with_text() {
    let t = b("hello, not json");
    let e = decode_message(&t).unwrap_err();
    assert_eq!(e.text, t);
    assert_eq!(e.reason, DecodeReason::Malformed);
}

#[test]
fn missing_channel_rejected() {
    let t = b("{\"data\":{\"coin\":\"ETH\"}}");
    assert!(decode_message(&t).is_err());
}

#[test]
fn unknown_channel_rejected_as_unknown() {
    let t = b("{\"channel\":\"trades\",\"data\":{}}");
    let e = decode_message(&t).unwrap_err();
    assert_eq!(e.reason, DecodeReason::UnknownChannel);
    assert_eq!(e.text, t);
}

#[test]
fn shape_mismatch_rejected_never_wrong_variant() {
    // A book payload under the acknowledgement tag must fail, not decode.
    let t = b(
        "{\"channel\":\"subscriptionResponse\",\"data\":{\"coin\":\"ETH\",\"time\":1,\
         \"levels\":[[],[]]}}",
    );
    let e = decode_message(&t).unwrap_err();
    assert_eq!(e.reason, DecodeReason::Malformed);
}

#[test]
fn bad_decimal_rejected() {
    for px in ["", "-", "1.", ".5", "1.2.3", "1e5", "--1"] {
        let t = format!(
            "{{\"channel\":\"l2Book\",\"data\":{{\"coin\":\"X\",\"time\":1,\
             \"levels\":[[{{\"px\":\"{}\",\"sz\":\"1\",\"n\":1}}],[]]}}}}",
            px
        );
        assert!(decode_message(t.as_bytes()).is_err(), "accepted {:?}", px);
    }
}

#[test]
fn bad_numbers_rejected() {
    // Leading zero, overflow, and empty digits are all outside the grammar.
    for time in ["01", "18446744073709551616", "", "-5"] {
        let t = format!(
            "{{\"channel\":\"l2Book\",\"data\":{{\"coin\":\"X\",\"time\":{},\
             \"levels\":[[],[]]}}}}",
            time
        );
        assert!(decode_message(t.as_bytes()).is_err(), "accepted {:?}", time);
    }
}

#[test]
fn largest_time_accepted() {
    let t = b(
        "{\"channel\":\"l2Book\",\"data\":{\"coin\":\"X\",\"time\":18446744073709551615,\
         \"levels\":[[],[]]}}",
    );
    match decode_message(&t).unwrap() {
        Message::L2Book(bk) => {
            assert_eq!(bk.time, u64::MAX);
            assert_eq!(bk.bids.len(), 0);
            assert_eq!(bk.asks.len(), 0);
        }
        _ => panic!("wrong variant"),
    }
}

#[test]
fn sequencer_round_trip() {
    let r = SequencerResponse {
        version: 1,
        messages: vec![
            SequencerMessage { sequence_number: 42 },
            SequencerMessage { sequence_number: 43 },
        ],
    };
    let t = encode_sequencer(&r);
    assert_eq!(
        String::from_utf8(t.clone()).unwrap(),
        "{\"version\":1,\"messages\":[{\"sequenceNumber\":42},{\"sequenceNumber\":43}]}"
    );
    assert_eq!(decode_sequencer(&t).unwrap(), r);
}

#[test]
fn sequencer_empty_messages_round_trip() {
    let r = SequencerResponse { version: 7, messages: vec![] };
    let t = encode_sequencer(&r);
    assert_eq!(String::from_utf8(t.clone()).unwrap(), "{\"version\":7,\"messages\":[]}");
    assert_eq!(decode_sequencer(&t).unwrap(), r);
}

#[test]
fn sequencer_garbage_rejected() {
    let t = b("not a frame");
    let e = decode_sequencer(&t).unwrap_err();
    assert_eq!(e.text, t);
}
