//! Tests of the capture state machine: the subscription batch, the
//! streaming scenarios, and the fatal transitions.

use hyper_latency::capture::{
    after_connect, after_subscribe, build_subscriptions, format_record, format_seq_record,
    run_capture, sequencer_step, streaming_step, Phase, ReadEvent, StepAction,
};

fn b(s: &str) -> Vec<u8> {
    s.as_bytes().to_vec()
}

#[test]
fn phase_transitions() {
    assert_eq!(after_connect(true), Phase::Subscribing);
    assert_eq!(after_connect(false), Phase::Faulted);
    assert_eq!(after_subscribe(true), Phase::Streaming);
    assert_eq!(after_subscribe(false), Phase::Faulted);
}

#[test]
fn subscription_batch_in_order() {
    let subs = build_subscriptions(vec![b("ETH"), b("BTC")]);
    assert_eq!(subs.len(), 2);
    assert_eq!(
        String::from_utf8(subs[0].clone()).unwrap(),
        "{\"method\":\"subscribe\",\"subscription\":{\"type\":\"l2Book\",\"coin\":\"ETH\"}}"
    );
    assert_eq!(
        String::from_utf8(subs[1].clone()).unwrap(),
        "{\"method\":\"subscribe\",\"subscription\":{\"type\":\"l2Book\",\"coin\":\"BTC\"}}"
    );
}

#[test]
fn record_line_format() {
    let line = format_record(1700000000000, 1700000000123);
    assert_eq!(
        String::from_utf8(line).unwrap(),
        "EX_TS_MS=1700000000000 LOCAL_TS_MS=1700000000123"
    );
    let line = format_seq_record(42, 7);
    assert_eq!(String::from_utf8(line).unwrap(), "SEQ_NUM=42 LOCAL_TS_MS=7");
}

#[test]
fn ack_then_book_persists_one_line() {
    // The acknowledgement is reported, nothing persisted.
    let ack = b(
        "{\"channel\":\"subscriptionResponse\",\"data\":{\"method\":\"subscribe\",\
         \"subscription\":{\"type\":\"l2Book\",\"coin\":\"ETH\",\"nSigFigs\":null,\
         \"mantissa\":null}}}",
    );
    let (ph, act) = streaming_step(ReadEvent::Frame(ack), 5);
    assert_eq!(ph, Phase::Streaming);
    match act {
        StepAction::Ack(d) => assert_eq!(d.subscription.coin, b("ETH")),
        _ => panic!("expected an acknowledgement"),
    }
    // The book update is persisted with both timestamps.
    let book = b(
        "{\"channel\":\"l2Book\",\"data\":{\"coin\":\"ETH\",\"time\":1700000000000,\
         \"levels\":[[{\"px\":\"3000.5\",\"sz\":\"1.2\",\"n\":3}],\
         [{\"px\":\"3001.0\",\"sz\":\"0.8\",\"n\":2}]]}}",
    );
    let (ph, act) = streaming_step(ReadEvent::Frame(book), 1700000000123);
    assert_eq!(ph, Phase::Streaming);
    match act {
        StepAction::Persist(line) => assert_eq!(
            String::from_utf8(line).unwrap(),
            "EX_TS_MS=1700000000000 LOCAL_TS_MS=1700000000123"
        ),
        _ => panic!("expected a persisted record"),
    }
}

#[test]
fn garbage_is_logged_and_streaming_goes_on() {
    let (ph, act) = streaming_step(ReadEvent::Frame(b("garbage !!")), 1);
    assert_eq!(ph, Phase::Streaming);
    match act {
        StepAction::LogDecode(e) => assert_eq!(e.text, b("garbage !!")),
        _ => panic!("expected a logged decode failure"),
    }
}

#[test]
fn peer_close_is_fatal() {
    let (ph, act) = streaming_step(ReadEvent::Closed, 1);
    assert_eq!(ph, Phase::Faulted);
    assert_eq!(act, StepAction::Fatal);
}

#[test]
fn mixed_frames_persist_exactly_the_valid_books_in_order() {
    let ack = b(
        "{\"channel\":\"subscriptionResponse\",\"data\":{\"method\":\"subscribe\",\
         \"subscription\":{\"type\":\"l2Book\",\"coin\":\"ETH\",\"nSigFigs\":null,\
         \"mantissa\":null}}}",
    );
    let book1 = b(
        "{\"channel\":\"l2Book\",\"data\":{\"coin\":\"ETH\",\"time\":100,\
         \"levels\":[[],[]]}}",
    );
    let book2 = b(
        "{\"channel\":\"l2Book\",\"data\":{\"coin\":\"ETH\",\"time\":200,\
         \"levels\":[[{\"px\":\"1\",\"sz\":\"2\",\"n\":3}],[]]}}",
    );
    let frames = vec![ack, b("junk"), book1, b("{\"channel\":\"x\"}"), book2];
    let ts = vec![10, 11, 12, 13, 14];
    let (records, phase) = run_capture(frames, &ts);
    assert_eq!(phase, Phase::Streaming);
    assert_eq!(records.len(), 2);
    assert_eq!(String::from_utf8(records[0].clone()).unwrap(), "EX_TS_MS=100 LOCAL_TS_MS=12");
    assert_eq!(String::from_utf8(records[1].clone()).unwrap(), "EX_TS_MS=200 LOCAL_TS_MS=14");
}

#[test]
fn sequencer_envelope_persists_first_sequence_number() {
    let t = b("{\"version\":1,\"messages\":[{\"sequenceNumber\":42},{\"sequenceNumber\":43}]}");
    let (ph, act) = sequencer_step(ReadEvent::Frame(t), 7);
    assert_eq!(ph, Phase::Streaming);
    match act {
        StepAction::Persist(line) => {
            assert_eq!(String::from_utf8(line).unwrap(), "SEQ_NUM=42 LOCAL_TS_MS=7")
        }
        _ => panic!("expected a persisted record"),
    }
}

#[test]
fn sequencer_garbage_logged_and_empty_envelope_fatal() {
    let (ph, act) = sequencer_step(ReadEvent::Frame(b("nonsense")), 7);
    assert_eq!(ph, Phase::Streaming);
    assert!(matches!(act, StepAction::LogDecode(_)));
    let empty = b("{\"version\":1,\"messages\":[]}");
    let (ph, act) = sequencer_step(ReadEvent::Frame(empty), 7);
    assert_eq!(ph, Phase::Faulted);
    assert_eq!(act, StepAction::Fatal);
}

#[test]
fn sequencer_close_is_fatal() {
    let (ph, act) = sequencer_step(ReadEvent::Closed, 0);
    assert_eq!(ph, Phase::Faulted);
    assert_eq!(act, StepAction::Fatal);
}
