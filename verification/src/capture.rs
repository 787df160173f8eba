//! The capture state machine.  The loop that owns the socket and the sink
//! lives outside the library; it feeds every read outcome through
//! `streaming_step` (or `sequencer_step` for the raw sequencer feed) and
//! performs the returned action: append a record line, report an
//! acknowledgement, log a rejected frame, or stop on a fatal error.

use vstd::prelude::*;

use crate::bytes::u64_text;
use crate::codec::{
    dec_message, dec_sequencer, decode_message, decode_sequencer, enc_request, encode_request,
};
use crate::lit::{l_ex_ts, l_local_ts, l_seq_num_k};
use crate::messages::{l2book_request, DecodeError, Message, MessageV, MethodData, Sub};

verus! {

/// The phases of a capture: connect, subscribe, stream; a capture ends
/// only by outside termination or by a fatal error.
#[derive(Clone, Copy, Debug, PartialEq, Eq, Structural)]
pub enum Phase {
    Connecting,
    Subscribing,
    Streaming,
    Stopped,
    Faulted,
}

/// What one blocking read of the connection produced.
#[derive(Clone, Debug, PartialEq, Eq)]
pub enum ReadEvent {
    /// One complete frame of text.
    Frame(Vec<u8>),
    /// The transport failed or the peer closed: fatal.
    Closed,
}

/// What the loop must do with the outcome of one step.
#[derive(Clone, Debug, PartialEq, Eq)]
pub enum StepAction {
    /// Append this line to the persistent sink.
    Persist(Vec<u8>),
    /// Report this acknowledgement; nothing is persisted.
    Ack(MethodData),
    /// Log the rejected frame and go on reading.
    LogDecode(DecodeError),
    /// Stop: the connection is gone.
    Fatal,
}

/// The persisted line for one book update: exchange and local timestamps.
pub open spec fn record_line(ex_ts_ms: u64, local_ts_ms: u64) -> Seq<u8> {
    l_ex_ts() + u64_text(ex_ts_ms as nat) + l_local_ts() + u64_text(local_ts_ms as nat)
}

/// The persisted line for one sequencer envelope.
pub open spec fn seq_record_line(seq_num: u64, local_ts_ms: u64) -> Seq<u8> {
    l_seq_num_k() + u64_text(seq_num as nat) + l_local_ts() + u64_text(local_ts_ms as nat)
}

/// Formats the book-update record line.
pub fn format_record(ex_ts_ms: u64, local_ts_ms: u64) -> (r: Vec<u8>)
    ensures
        r@ == record_line(ex_ts_ms, local_ts_ms),
{
    let mut out: Vec<u8> = Vec::new();
    let mut p = crate::lit::x_ex_ts();
    out.append(&mut p);
    let mut d = crate::bytes::u64_digits(ex_ts_ms);
    out.append(&mut d);
    let mut q = crate::lit::x_local_ts();
    out.append(&mut q);
    let mut e = crate::bytes::u64_digits(local_ts_ms);
    out.append(&mut e);
    proof {
        assert(out@ =~= record_line(ex_ts_ms, local_ts_ms));
    }
    out
}

/// Formats the sequencer record line.
pub fn format_seq_record(seq_num: u64, local_ts_ms: u64) -> (r: Vec<u8>)
    ensures
        r@ == seq_record_line(seq_num, local_ts_ms),
{
    let mut out: Vec<u8> = Vec::new();
    let mut p = crate::lit::x_seq_num_k();
    out.append(&mut p);
    let mut d = crate::bytes::u64_digits(seq_num);
    out.append(&mut d);
    let mut q = crate::lit::x_local_ts();
    out.append(&mut q);
    let mut e = crate::bytes::u64_digits(local_ts_ms);
    out.append(&mut e);
    proof {
        assert(out@ =~= seq_record_line(seq_num, local_ts_ms));
    }
    out
}

/// The phase after the connect attempt: any connection error is fatal.
pub fn after_connect(connected: bool) -> (p: Phase)
    ensures
        p == if connected {
            Phase::Subscribing
        } else {
            Phase::Faulted
        },
{
    if connected {
        Phase::Subscribing
    } else {
        Phase::Faulted
    }
}

/// The phase after the subscription batch: a send failure is fatal.
pub fn after_subscribe(sent: bool) -> (p: Phase)
    ensures
        p == if sent {
            Phase::Streaming
        } else {
            Phase::Faulted
        },
{
    if sent {
        Phase::Streaming
    } else {
        Phase::Faulted
    }
}

/// The canonical subscription batch for an asset list, one request per
/// asset, in the given order.
pub fn build_subscriptions(assets: Vec<Vec<u8>>) -> (r: Vec<Vec<u8>>)
    ensures
        r@.len() == assets@.len(),
        forall|i: int| 0 <= i < r@.len() ==> #[trigger] r@[i]@ == enc_request(
            l2book_request(assets@[i]@),
        ),
{
    let ghost orig = assets@;
    let mut rest = assets;
    let mut out: Vec<Vec<u8>> = Vec::new();
    while rest.len() > 0
        invariant
            out@.len() + rest@.len() == orig.len(),
            rest@ == orig.skip(out@.len() as int),
            forall|i: int| 0 <= i < out@.len() ==> #[trigger] out@[i]@ == enc_request(
                l2book_request(orig[i]@),
            ),
        decreases rest@.len(),
    {
        let ghost k = out@.len() as int;
        let a = rest.remove(0);
        proof {
            assert(a@ == orig[k]@);
            assert(rest@ =~= orig.skip(k + 1));
        }
        let m = Sub::l2book(a);
        let t = encode_request(&m);
        out.push(t);
    }
    proof {
        assert(out@.len() == orig.len());
    }
    out
}

/// One step of the streaming phase: decode the frame and decide.  A book
/// update is persisted with the exchange and local timestamps; an
/// acknowledgement is reported; a rejected frame is logged and streaming
/// goes on; a transport failure is fatal.
pub fn streaming_step(ev: ReadEvent, local_ts_ms: u64) -> (r: (Phase, StepAction))
    ensures
        ev matches ReadEvent::Closed ==> r == (Phase::Faulted, StepAction::Fatal),
        ev matches ReadEvent::Frame(t) ==> {
            &&& r.0 == Phase::Streaming
            &&& match dec_message(t@) {
                Some(MessageV::L2Book(b)) => r.1 matches StepAction::Persist(line) && line@
                    == record_line(b.time, local_ts_ms),
                Some(MessageV::SubRes(d)) => r.1 matches StepAction::Ack(a) && a@ == d,
                None => r.1 matches StepAction::LogDecode(e) && e.text@ == t@,
            }
        },
{
    match ev {
        ReadEvent::Closed => (Phase::Faulted, StepAction::Fatal),
        ReadEvent::Frame(t) => match decode_message(t.as_slice()) {
            Ok(Message::L2Book(b)) => {
                let line = format_record(b.time, local_ts_ms);
                (Phase::Streaming, StepAction::Persist(line))
            },
            Ok(Message::SubRes(d)) => (Phase::Streaming, StepAction::Ack(d)),
            Err(e) => (Phase::Streaming, StepAction::LogDecode(e)),
        },
    }
}

/// One step of the sequencer variant: a decoded envelope is persisted
/// with its first entry's sequence number; an envelope without entries
/// ends the capture, as the original treats it as unrecoverable; a
/// rejected frame is logged; a transport failure is fatal.
pub fn sequencer_step(ev: ReadEvent, local_ts_ms: u64) -> (r: (Phase, StepAction))
    ensures
        ev matches ReadEvent::Closed ==> r == (Phase::Faulted, StepAction::Fatal),
        ev matches ReadEvent::Frame(t) ==> match dec_sequencer(t@) {
            Some(resp) => if resp.messages.len() > 0 {
                &&& r.0 == Phase::Streaming
                &&& (r.1 matches StepAction::Persist(line) && line@ == seq_record_line(
                    resp.messages[0].sequence_number,
                    local_ts_ms,
                ))
            } else {
                r == (Phase::Faulted, StepAction::Fatal)
            },
            None => r.0 == Phase::Streaming && (r.1 matches StepAction::LogDecode(e) && e.text@
                == t@),
        },
{
    match ev {
        ReadEvent::Closed => (Phase::Faulted, StepAction::Fatal),
        ReadEvent::Frame(t) => match decode_sequencer(t.as_slice()) {
            Ok(resp) => {
                if resp.messages.len() > 0 {
                    let line = format_seq_record(resp.messages[0].sequence_number, local_ts_ms);
                    (Phase::Streaming, StepAction::Persist(line))
                } else {
                    (Phase::Faulted, StepAction::Fatal)
                }
            },
            Err(e) => (Phase::Streaming, StepAction::LogDecode(e)),
        },
    }
}

/// The record lines a run of frames leaves behind: one line per frame
/// that decodes as a book update, in arrival order, and none for any
/// other frame.
pub open spec fn stream_records(frames: Seq<Seq<u8>>, ts: Seq<u64>) -> Seq<Seq<u8>>
    decreases frames.len(),
{
    if frames.len() == 0 {
        Seq::empty()
    } else {
        let head = match dec_message(frames[0]) {
            Some(MessageV::L2Book(b)) => seq![record_line(b.time, ts[0])],
            _ => Seq::<Seq<u8>>::empty(),
        };
        head + stream_records(frames.skip(1), ts.skip(1))
    }
}

/// Streams a run of frames through `streaming_step`: the capture persists
/// exactly one record per valid book update, in arrival order, nothing
/// for any other frame, and stays in the streaming phase throughout.
pub fn run_capture(frames: Vec<Vec<u8>>, ts: &Vec<u64>) -> (r: (Vec<Vec<u8>>, Phase))
    requires
        frames@.len() == ts@.len(),
    ensures
        r.1 == Phase::Streaming,
        r.0.deep_view() == stream_records(frames.deep_view(), ts@),
{
    let ghost orig = frames.deep_view();
    let mut rest = frames;
    let total = rest.len();
    let mut records: Vec<Vec<u8>> = Vec::new();
    let mut k: usize = 0;
    proof {
        assert(orig.skip(0) =~= orig);
        assert(ts@.skip(0) =~= ts@);
        assert(records.deep_view() =~= Seq::<Seq<u8>>::empty());
        assert(Seq::<Seq<u8>>::empty() + stream_records(orig, ts@) =~= stream_records(orig, ts@));
    }
    while rest.len() > 0
        invariant
            k + rest@.len() == total,
            total == orig.len(),
            orig.len() == ts@.len(),
            rest.deep_view() == orig.skip(k as int),
            stream_records(orig, ts@) == records.deep_view() + stream_records(
                orig.skip(k as int),
                ts@.skip(k as int),
            ),
        decreases rest@.len(),
    {
        let f = rest.remove(0);
        proof {
            assert(rest.deep_view() =~= orig.skip(k as int).skip(1));
            assert(orig.skip(k as int).skip(1) =~= orig.skip(k as int + 1));
            assert(f@ == orig.skip(k as int)[0]);
            assert(orig.skip(k as int)[0] == orig[k as int]);
            assert(ts@.skip(k as int)[0] == ts@[k as int]);
            assert(ts@.skip(k as int).skip(1) =~= ts@.skip(k as int + 1));
        }
        let ghost recs0 = records.deep_view();
        let (_ph, act) = streaming_step(ReadEvent::Frame(f), ts[k]);
        proof {
            let head = match dec_message(orig[k as int]) {
                Some(MessageV::L2Book(b)) => seq![record_line(b.time, ts@[k as int])],
                _ => Seq::<Seq<u8>>::empty(),
            };
            assert(stream_records(orig.skip(k as int), ts@.skip(k as int)) == head
                + stream_records(orig.skip(k as int + 1), ts@.skip(k as int + 1)));
        }
        match act {
            StepAction::Persist(line) => {
                records.push(line);
                proof {
                    assert(records.deep_view() =~~= recs0 + seq![line@]);
                }
            },
            _ => {},
        }
        proof {
            assert(records.deep_view() + stream_records(
                orig.skip(k as int + 1),
                ts@.skip(k as int + 1),
            ) =~~= recs0 + stream_records(orig.skip(k as int), ts@.skip(k as int)));
        }
        k = k + 1;
    }
    proof {
        assert(orig.skip(k as int).len() == 0);
        assert(stream_records(orig.skip(k as int), ts@.skip(k as int))
            =~= Seq::<Seq<u8>>::empty());
        assert(records.deep_view() =~~= stream_records(orig, ts@));
    }
    (records, Phase::Streaming)
}

} // verus!
