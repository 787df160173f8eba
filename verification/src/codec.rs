//! The wire codec: canonical encoders and decoders for the three grammars
//! the feed speaks — outbound subscription requests, inbound frames tagged
//! by their channel, and the sequencer envelope.  The spec functions define
//! the grammars; the executable functions are proved to follow them
//! exactly, and the round-trip laws tie the two directions together.

use vstd::prelude::*;

use crate::bytes::{
    is_dec, is_digit, is_plain, lemma_split_str_concat, lemma_split_str_sound,
    lemma_split_u32_sound, lemma_split_u64_sound, lemma_strip_concat, lemma_strip_sound, qu,
    split_str, split_u32, split_u64, strip_prefix, u64_text,
};
use crate::lit::{
    l_ack_end, l_book_coin, l_book_end, l_channel, l_coin, l_comma, l_data, l_levels, l_mant,
    l_messages, l_method, l_mid, l_nn, l_nsig, l_null, l_px, l_rbrace, l_req_end, l_seq_end,
    l_seqnum, l_subscription, l_sz, l_tag_ack, l_tag_book, l_time, l_version,
};
use crate::messages::{
    BookV, DecodeError, DecodeReason, LevelV, Message, MessageV, Method, MethodData, MethodDataV,
    MethodV, SeqMsgV, SeqRespV, SequencerMessage, SequencerResponse, Sub, SubV, Subscription,
    SubscriptionV, WsBook, WsLevel,
};

verus! {

// ---------------------------------------------------------------------
// The canonical text of each value, spec side.
// ---------------------------------------------------------------------
/// A string content with its closing quote.  The opening quote always ends
/// the literal that precedes the content.
pub open spec fn enc_str(c: Seq<u8>) -> Seq<u8> {
    c + seq![qu()]
}

/// An optional unsigned field: its decimal text, or the null keyword.
pub open spec fn enc_opt_u32(v: Option<u32>) -> Seq<u8> {
    match v {
        Some(x) => u64_text(x as nat),
        None => l_null(),
    }
}

/// The canonical text of an outbound request.
pub open spec fn enc_request(m: MethodV) -> Seq<u8> {
    l_method() + enc_str(m.method) + l_subscription() + enc_str(m.subscription.type_) + l_coin()
        + enc_str(m.subscription.coin) + l_req_end()
}

/// The payload of an acknowledgement frame.
pub open spec fn enc_ack(d: MethodDataV) -> Seq<u8> {
    l_method() + enc_str(d.method) + l_subscription() + enc_str(d.subscription.type_) + l_coin()
        + enc_str(d.subscription.coin) + l_nsig() + enc_opt_u32(d.subscription.n_sig_figs)
        + l_mant() + enc_opt_u32(d.subscription.mantissa) + l_ack_end()
}

/// One price level.
pub open spec fn enc_level(l: LevelV) -> Seq<u8> {
    l_px() + enc_str(l.px) + l_sz() + enc_str(l.sz) + l_nn() + u64_text(l.n as nat) + l_rbrace()
}

/// A comma-separated run of price levels.
pub open spec fn enc_levels(ls: Seq<LevelV>) -> Seq<u8>
    decreases ls.len(),
{
    if ls.len() == 0 {
        Seq::empty()
    } else if ls.len() == 1 {
        enc_level(ls[0])
    } else {
        enc_level(ls[0]) + l_comma() + enc_levels(ls.skip(1))
    }
}

/// The payload of a book-update frame.
pub open spec fn enc_book(b: BookV) -> Seq<u8> {
    l_book_coin() + enc_str(b.coin) + l_time() + u64_text(b.time as nat) + l_levels() + enc_levels(
        b.bids,
    ) + l_mid() + enc_levels(b.asks) + l_book_end()
}

/// The canonical text of an inbound frame.
pub open spec fn enc_message(m: MessageV) -> Seq<u8> {
    match m {
        MessageV::SubRes(d) => l_channel() + enc_str(l_tag_ack()) + l_data() + enc_ack(d),
        MessageV::L2Book(b) => l_channel() + enc_str(l_tag_book()) + l_data() + enc_book(b),
    }
}

/// One entry of the sequencer envelope.
pub open spec fn enc_seq_msg(m: SeqMsgV) -> Seq<u8> {
    l_seqnum() + u64_text(m.sequence_number as nat) + l_rbrace()
}

/// A comma-separated run of sequencer entries.
pub open spec fn enc_seq_msgs(ms: Seq<SeqMsgV>) -> Seq<u8>
    decreases ms.len(),
{
    if ms.len() == 0 {
        Seq::empty()
    } else if ms.len() == 1 {
        enc_seq_msg(ms[0])
    } else {
        enc_seq_msg(ms[0]) + l_comma() + enc_seq_msgs(ms.skip(1))
    }
}

/// The canonical text of a sequencer envelope.
pub open spec fn enc_sequencer(r: SeqRespV) -> Seq<u8> {
    l_version() + u64_text(r.version as nat) + l_messages() + enc_seq_msgs(r.messages)
        + l_seq_end()
}

// ---------------------------------------------------------------------
// The grammars read back, spec side.  Each reader consumes from the front
// and hands back what follows; the frame readers demand that nothing does.
// ---------------------------------------------------------------------
/// Reads an optional unsigned field.
pub open spec fn dec_opt_u32(t: Seq<u8>) -> Option<(Option<u32>, Seq<u8>)> {
    match strip_prefix(t, l_null()) {
        Some(r) => Some((None, r)),
        None => match split_u32(t) {
            Some((v, r)) => Some((Some(v), r)),
            None => None,
        },
    }
}

/// Reads a whole outbound request.
pub open spec fn dec_request(t: Seq<u8>) -> Option<MethodV> {
    match strip_prefix(t, l_method()) {
        None => None,
        Some(r1) => match split_str(r1) {
            None => None,
            Some((method, r2)) => match strip_prefix(r2, l_subscription()) {
                None => None,
                Some(r3) => match split_str(r3) {
                    None => None,
                    Some((type_, r4)) => match strip_prefix(r4, l_coin()) {
                        None => None,
                        Some(r5) => match split_str(r5) {
                            None => None,
                            Some((coin, r6)) => match strip_prefix(r6, l_req_end()) {
                                None => None,
                                Some(r7) => if r7.len() == 0 {
                                    Some(
                                        MethodV {
                                            method,
                                            subscription: SubV { type_, coin },
                                        },
                                    )
                                } else {
                                    None
                                },
                            },
                        },
                    },
                },
            },
        },
    }
}

/// Reads the payload of an acknowledgement frame, to the end of the text.
pub open spec fn dec_ack(t: Seq<u8>) -> Option<MethodDataV> {
    match strip_prefix(t, l_method()) {
        None => None,
        Some(r1) => match split_str(r1) {
            None => None,
            Some((method, r2)) => match strip_prefix(r2, l_subscription()) {
                None => None,
                Some(r3) => match split_str(r3) {
                    None => None,
                    Some((type_, r4)) => match strip_prefix(r4, l_coin()) {
                        None => None,
                        Some(r5) => match split_str(r5) {
                            None => None,
                            Some((coin, r6)) => match strip_prefix(r6, l_nsig()) {
                                None => None,
                                Some(r7) => match dec_opt_u32(r7) {
                                    None => None,
                                    Some((n_sig_figs, r8)) => match strip_prefix(r8, l_mant()) {
                                        None => None,
                                        Some(r9) => match dec_opt_u32(r9) {
                                            None => None,
                                            Some((mantissa, r10)) => match strip_prefix(
                                                r10,
                                                l_ack_end(),
                                            ) {
                                                None => None,
                                                Some(r11) => if r11.len() == 0 {
                                                    Some(
                                                        MethodDataV {
                                                            method,
                                                            subscription: SubscriptionV {
                                                                type_,
                                                                coin,
                                                                n_sig_figs,
                                                                mantissa,
                                                            },
                                                        },
                                                    )
                                                } else {
                                                    None
                                                },
                                            },
                                        },
                                    },
                                },
                            },
                        },
                    },
                },
            },
        },
    }
}

/// Reads one price level.
pub open spec fn dec_level(t: Seq<u8>) -> Option<(LevelV, Seq<u8>)> {
    match strip_prefix(t, l_px()) {
        None => None,
        Some(r1) => match split_str(r1) {
            None => None,
            Some((px, r2)) => if !is_dec(px) {
                None
            } else {
                match strip_prefix(r2, l_sz()) {
                    None => None,
                    Some(r3) => match split_str(r3) {
                        None => None,
                        Some((sz, r4)) => if !is_dec(sz) {
                            None
                        } else {
                            match strip_prefix(r4, l_nn()) {
                                None => None,
                                Some(r5) => match split_u32(r5) {
                                    None => None,
                                    Some((n, r6)) => match strip_prefix(r6, l_rbrace()) {
                                        None => None,
                                        Some(r7) => Some((LevelV { px, sz, n }, r7)),
                                    },
                                },
                            }
                        },
                    },
                }
            },
        },
    }
}

/// Reads a run of price levels: as many as the text offers, and the rest.
pub open spec fn dec_levels(t: Seq<u8>) -> (Seq<LevelV>, Seq<u8>)
    decreases t.len(),
{
    match dec_level(t) {
        None => (Seq::empty(), t),
        Some((lv, r)) => match strip_prefix(r, l_comma()) {
            Some(r2) => if r2.len() < t.len() {
                let (ls, r3) = dec_levels(r2);
                if ls.len() == 0 {
                    (seq![lv], r)
                } else {
                    (seq![lv] + ls, r3)
                }
            } else {
                (seq![lv], r)
            },
            None => (seq![lv], r),
        },
    }
}

/// Reads the payload of a book-update frame, to the end of the text.
pub open spec fn dec_book(t: Seq<u8>) -> Option<BookV> {
    match strip_prefix(t, l_book_coin()) {
        None => None,
        Some(r1) => match split_str(r1) {
            None => None,
            Some((coin, r2)) => match strip_prefix(r2, l_time()) {
                None => None,
                Some(r3) => match split_u64(r3) {
                    None => None,
                    Some((time, r4)) => match strip_prefix(r4, l_levels()) {
                        None => None,
                        Some(r5) => {
                            let (bids, r6) = dec_levels(r5);
                            match strip_prefix(r6, l_mid()) {
                                None => None,
                                Some(r7) => {
                                    let (asks, r8) = dec_levels(r7);
                                    match strip_prefix(r8, l_book_end()) {
                                        None => None,
                                        Some(r9) => if r9.len() == 0 {
                                            Some(BookV { coin, time, bids, asks })
                                        } else {
                                            None
                                        },
                                    }
                                },
                            }
                        },
                    },
                },
            },
        },
    }
}

/// Reads a whole inbound frame: the channel tag picks the payload grammar.
pub open spec fn dec_message(t: Seq<u8>) -> Option<MessageV> {
    match strip_prefix(t, l_channel()) {
        None => None,
        Some(r1) => match split_str(r1) {
            None => None,
            Some((chan, r2)) => if chan == l_tag_ack() {
                match strip_prefix(r2, l_data()) {
                    None => None,
                    Some(r3) => match dec_ack(r3) {
                        None => None,
                        Some(d) => Some(MessageV::SubRes(d)),
                    },
                }
            } else if chan == l_tag_book() {
                match strip_prefix(r2, l_data()) {
                    None => None,
                    Some(r3) => match dec_book(r3) {
                        None => None,
                        Some(b) => Some(MessageV::L2Book(b)),
                    },
                }
            } else {
                None
            },
        },
    }
}

/// Whether the channel tag of `t` parses but is unknown; the decode error
/// tells this reason apart from a malformed frame.
pub open spec fn unknown_channel(t: Seq<u8>) -> bool {
    match strip_prefix(t, l_channel()) {
        None => false,
        Some(r1) => match split_str(r1) {
            None => false,
            Some((chan, r2)) => chan != l_tag_ack() && chan != l_tag_book(),
        },
    }
}

// ---------------------------------------------------------------------
// Round-trip laws: the canonical text of a well-formed value reads back
// as exactly that value.
// ---------------------------------------------------------------------
/// A canonical number followed by a non-digit reads back as itself.
pub proof fn lemma_split_u64_enc(n: u64, rest: Seq<u8>)
    requires
        rest.len() == 0 || !is_digit(rest[0]),
    ensures
        split_u64(u64_text(n as nat) + rest) == Some((n, rest)),
{
    crate::bytes::lemma_u64_text_shape(n as nat);
    crate::bytes::lemma_u64_text_value(n as nat);
    crate::bytes::lemma_split_digits_concat(u64_text(n as nat), rest);
}

/// As `lemma_split_u64_enc`, in the `u32` range.
pub proof fn lemma_split_u32_enc(v: u32, rest: Seq<u8>)
    requires
        rest.len() == 0 || !is_digit(rest[0]),
    ensures
        split_u32(u64_text(v as nat) + rest) == Some((v, rest)),
{
    lemma_split_u64_enc(v as u64, rest);
}

/// An optional unsigned field reads back as itself when what follows
/// starts with neither a digit nor the null keyword.
pub proof fn lemma_dec_opt_u32_enc(v: Option<u32>, rest: Seq<u8>)
    requires
        rest.len() > 0,
        !is_digit(rest[0]),
        rest[0] != 110,
    ensures
        dec_opt_u32(enc_opt_u32(v) + rest) == Some((v, rest)),
{
    let t = enc_opt_u32(v) + rest;
    match v {
        None => {
            lemma_strip_concat(l_null(), rest);
        },
        Some(x) => {
            crate::bytes::lemma_u64_text_shape(x as nat);
            assert(l_null()[0] == 110);
            assert(t[0] == u64_text(x as nat)[0]);
            assert(strip_prefix(t, l_null()) is None) by {
                if strip_prefix(t, l_null()) is Some {
                    assert(t.subrange(0, l_null().len() as int)[0] == l_null()[0]);
                }
            }
            lemma_split_u32_enc(x, rest);
        },
    }
}

/// A canonical request reads back as exactly the request.
pub proof fn lemma_dec_request_enc(m: MethodV)
    requires
        m.wf(),
    ensures
        dec_request(enc_request(m)) == Some(m),
{
    let t = enc_request(m);
    let r2 = l_subscription() + enc_str(m.subscription.type_) + l_coin() + enc_str(
        m.subscription.coin,
    ) + l_req_end();
    let r1 = m.method + seq![qu()] + r2;
    assert(t =~= l_method() + r1);
    lemma_strip_concat(l_method(), r1);
    lemma_split_str_concat(m.method, r2);
    let r4 = enc_str(m.subscription.type_) + l_coin() + enc_str(m.subscription.coin) + l_req_end();
    assert(r2 =~= l_subscription() + r4);
    lemma_strip_concat(l_subscription(), r4);
    let r5 = l_coin() + enc_str(m.subscription.coin) + l_req_end();
    assert(r4 =~= m.subscription.type_ + seq![qu()] + r5);
    lemma_split_str_concat(m.subscription.type_, r5);
    let r6 = enc_str(m.subscription.coin) + l_req_end();
    assert(r5 =~= l_coin() + r6);
    lemma_strip_concat(l_coin(), r6);
    assert(r6 =~= m.subscription.coin + seq![qu()] + l_req_end());
    lemma_split_str_concat(m.subscription.coin, l_req_end());
    lemma_strip_concat(l_req_end(), Seq::empty());
    assert(l_req_end() =~= l_req_end() + Seq::<u8>::empty());
}

/// A canonical acknowledgement payload reads back as exactly the payload.
#[verifier::rlimit(100)]
pub proof fn lemma_dec_ack_enc(d: MethodDataV)
    requires
        d.wf(),
    ensures
        dec_ack(enc_ack(d)) == Some(d),
{
    let t = enc_ack(d);
    let s = d.subscription;
    let r2 = l_subscription() + enc_str(s.type_) + l_coin() + enc_str(s.coin) + l_nsig()
        + enc_opt_u32(s.n_sig_figs) + l_mant() + enc_opt_u32(s.mantissa) + l_ack_end();
    let r1 = d.method + seq![qu()] + r2;
    assert(t =~= l_method() + r1);
    lemma_strip_concat(l_method(), r1);
    lemma_split_str_concat(d.method, r2);
    let r4 = enc_str(s.type_) + l_coin() + enc_str(s.coin) + l_nsig() + enc_opt_u32(s.n_sig_figs)
        + l_mant() + enc_opt_u32(s.mantissa) + l_ack_end();
    assert(r2 =~= l_subscription() + r4);
    lemma_strip_concat(l_subscription(), r4);
    let r5 = l_coin() + enc_str(s.coin) + l_nsig() + enc_opt_u32(s.n_sig_figs) + l_mant()
        + enc_opt_u32(s.mantissa) + l_ack_end();
    assert(r4 =~= s.type_ + seq![qu()] + r5);
    lemma_split_str_concat(s.type_, r5);
    let r6 = enc_str(s.coin) + l_nsig() + enc_opt_u32(s.n_sig_figs) + l_mant() + enc_opt_u32(
        s.mantissa,
    ) + l_ack_end();
    assert(r5 =~= l_coin() + r6);
    lemma_strip_concat(l_coin(), r6);
    let r7 = l_nsig() + enc_opt_u32(s.n_sig_figs) + l_mant() + enc_opt_u32(s.mantissa)
        + l_ack_end();
    assert(r6 =~= s.coin + seq![qu()] + r7);
    lemma_split_str_concat(s.coin, r7);
    let r8 = enc_opt_u32(s.n_sig_figs) + l_mant() + enc_opt_u32(s.mantissa) + l_ack_end();
    assert(r7 =~= l_nsig() + r8);
    lemma_strip_concat(l_nsig(), r8);
    let r9 = l_mant() + enc_opt_u32(s.mantissa) + l_ack_end();
    assert(r8 =~= enc_opt_u32(s.n_sig_figs) + r9);
    assert(r9[0] == l_mant()[0]);
    assert(l_mant()[0] == 44);
    lemma_dec_opt_u32_enc(s.n_sig_figs, r9);
    let r10 = enc_opt_u32(s.mantissa) + l_ack_end();
    assert(r9 =~= l_mant() + r10);
    lemma_strip_concat(l_mant(), r10);
    assert(l_ack_end()[0] == 125);
    lemma_dec_opt_u32_enc(s.mantissa, l_ack_end());
    lemma_strip_concat(l_ack_end(), Seq::empty());
    assert(l_ack_end() =~= l_ack_end() + Seq::<u8>::empty());
}

/// A canonical price level followed by anything reads back as the level.
pub proof fn lemma_dec_level_enc(l: LevelV, rest: Seq<u8>)
    requires
        l.wf(),
    ensures
        dec_level(enc_level(l) + rest) == Some((l, rest)),
{
    let t = enc_level(l) + rest;
    crate::bytes::lemma_is_dec_plain(l.px);
    crate::bytes::lemma_is_dec_plain(l.sz);
    let r2 = l_sz() + enc_str(l.sz) + l_nn() + u64_text(l.n as nat) + l_rbrace() + rest;
    let r1 = l.px + seq![qu()] + r2;
    assert(t =~= l_px() + r1);
    lemma_strip_concat(l_px(), r1);
    lemma_split_str_concat(l.px, r2);
    let r4 = enc_str(l.sz) + l_nn() + u64_text(l.n as nat) + l_rbrace() + rest;
    assert(r2 =~= l_sz() + r4);
    lemma_strip_concat(l_sz(), r4);
    let r5 = l_nn() + u64_text(l.n as nat) + l_rbrace() + rest;
    assert(r4 =~= l.sz + seq![qu()] + r5);
    lemma_split_str_concat(l.sz, r5);
    let r6 = u64_text(l.n as nat) + l_rbrace() + rest;
    assert(r5 =~= l_nn() + r6);
    lemma_strip_concat(l_nn(), r6);
    let r7 = l_rbrace() + rest;
    assert(r6 =~= u64_text(l.n as nat) + r7);
    assert(r7[0] == l_rbrace()[0]);
    assert(l_rbrace()[0] == 125);
    lemma_split_u32_enc(l.n, r7);
    lemma_strip_concat(l_rbrace(), rest);
}

/// A canonical run of levels followed by a closing bracket reads back as
/// exactly that run, in order and in full.
pub proof fn lemma_dec_levels_enc(ls: Seq<LevelV>, rest: Seq<u8>)
    requires
        forall|i: int| 0 <= i < ls.len() ==> ls[i].wf(),
        rest.len() > 0,
        rest[0] == 93,
    ensures
        dec_levels(enc_levels(ls) + rest) == (ls, rest),
    decreases ls.len(),
{
    let t = enc_levels(ls) + rest;
    if ls.len() == 0 {
        assert(t =~= rest);
        assert(l_px()[0] == 123);
        assert(strip_prefix(rest, l_px()) is None) by {
            if strip_prefix(rest, l_px()) is Some {
                assert(rest.subrange(0, l_px().len() as int)[0] == l_px()[0]);
            }
        }
        assert(ls =~= Seq::<LevelV>::empty());
    } else if ls.len() == 1 {
        lemma_dec_level_enc(ls[0], rest);
        assert(t =~= enc_level(ls[0]) + rest);
        assert(l_comma()[0] == 44);
        assert(strip_prefix(rest, l_comma()) is None) by {
            if strip_prefix(rest, l_comma()) is Some {
                assert(rest.subrange(0, l_comma().len() as int)[0] == l_comma()[0]);
            }
        }
        assert(seq![ls[0]] =~= ls);
    } else {
        let tail = ls.skip(1);
        let r2 = enc_levels(tail) + rest;
        let r = l_comma() + r2;
        assert(t =~= enc_level(ls[0]) + r);
        lemma_dec_level_enc(ls[0], r);
        lemma_strip_concat(l_comma(), r2);
        assert(t.len() == enc_level(ls[0]).len() + 1 + r2.len());
        assert(enc_level(ls[0]).len() >= l_px().len());
        assert(l_px().len() == 7);
        assert(r2.len() < t.len());
        assert(forall|i: int| 0 <= i < tail.len() ==> tail[i].wf());
        lemma_dec_levels_enc(tail, rest);
        assert(dec_levels(r2).0.len() > 0);
        assert(seq![ls[0]] + tail =~= ls);
    }
}

/// A canonical book payload reads back as exactly the book.
#[verifier::rlimit(50)]
pub proof fn lemma_dec_book_enc(b: BookV)
    requires
        b.wf(),
    ensures
        dec_book(enc_book(b)) == Some(b),
{
    let t = enc_book(b);
    let r2 = l_time() + u64_text(b.time as nat) + l_levels() + enc_levels(b.bids) + l_mid()
        + enc_levels(b.asks) + l_book_end();
    let r1 = b.coin + seq![qu()] + r2;
    assert(t =~= l_book_coin() + r1);
    lemma_strip_concat(l_book_coin(), r1);
    lemma_split_str_concat(b.coin, r2);
    let r3 = u64_text(b.time as nat) + l_levels() + enc_levels(b.bids) + l_mid() + enc_levels(
        b.asks,
    ) + l_book_end();
    assert(r2 =~= l_time() + r3);
    lemma_strip_concat(l_time(), r3);
    let r4 = l_levels() + enc_levels(b.bids) + l_mid() + enc_levels(b.asks) + l_book_end();
    assert(r3 =~= u64_text(b.time as nat) + r4);
    assert(r4[0] == l_levels()[0]);
    assert(l_levels()[0] == 44);
    lemma_split_u64_enc(b.time, r4);
    let r5 = enc_levels(b.bids) + l_mid() + enc_levels(b.asks) + l_book_end();
    assert(r4 =~= l_levels() + r5);
    lemma_strip_concat(l_levels(), r5);
    let r6 = l_mid() + enc_levels(b.asks) + l_book_end();
    assert(r5 =~= enc_levels(b.bids) + r6);
    assert(r6[0] == l_mid()[0]);
    assert(l_mid()[0] == 93);
    lemma_dec_levels_enc(b.bids, r6);
    let r7 = enc_levels(b.asks) + l_book_end();
    assert(r6 =~= l_mid() + r7);
    lemma_strip_concat(l_mid(), r7);
    assert(r7 =~= enc_levels(b.asks) + l_book_end());
    assert(l_book_end()[0] == 93);
    lemma_dec_levels_enc(b.asks, l_book_end());
    lemma_strip_concat(l_book_end(), Seq::empty());
    assert(l_book_end() =~= l_book_end() + Seq::<u8>::empty());
}

/// A canonical frame reads back as exactly the message: encode then decode
/// is the identity on well-formed messages, so decoding preserves every
/// field, every level, and their order.
pub proof fn lemma_dec_message_enc(m: MessageV)
    requires
        m.wf(),
    ensures
        dec_message(enc_message(m)) == Some(m),
{
    let t = enc_message(m);
    assert(is_plain(l_tag_ack()));
    assert(is_plain(l_tag_book()));
    assert(l_tag_ack().len() == 20);
    assert(l_tag_book().len() == 6);
    match m {
        MessageV::SubRes(d) => {
            let r2 = l_data() + enc_ack(d);
            let r1 = l_tag_ack() + seq![qu()] + r2;
            assert(t =~= l_channel() + r1);
            lemma_strip_concat(l_channel(), r1);
            lemma_split_str_concat(l_tag_ack(), r2);
            lemma_strip_concat(l_data(), enc_ack(d));
            assert(r2 =~= l_data() + enc_ack(d));
            lemma_dec_ack_enc(d);
        },
        MessageV::L2Book(b) => {
            let r2 = l_data() + enc_book(b);
            let r1 = l_tag_book() + seq![qu()] + r2;
            assert(t =~= l_channel() + r1);
            lemma_strip_concat(l_channel(), r1);
            lemma_split_str_concat(l_tag_book(), r2);
            lemma_strip_concat(l_data(), enc_book(b));
            assert(r2 =~= l_data() + enc_book(b));
            lemma_dec_book_enc(b);
        },
    }
}

/// A canonical sequencer entry followed by anything reads back as itself.
pub proof fn lemma_dec_seq_msg_enc(m: SeqMsgV, rest: Seq<u8>)
    ensures
        dec_seq_msg(enc_seq_msg(m) + rest) == Some((m, rest)),
{
    let t = enc_seq_msg(m) + rest;
    let r1 = u64_text(m.sequence_number as nat) + l_rbrace() + rest;
    assert(t =~= l_seqnum() + r1);
    lemma_strip_concat(l_seqnum(), r1);
    let r2 = l_rbrace() + rest;
    assert(r1 =~= u64_text(m.sequence_number as nat) + r2);
    assert(r2[0] == l_rbrace()[0]);
    assert(l_rbrace()[0] == 125);
    lemma_split_u64_enc(m.sequence_number, r2);
    lemma_strip_concat(l_rbrace(), rest);
}

/// A canonical run of sequencer entries followed by a closing bracket
/// reads back as exactly that run.
pub proof fn lemma_dec_seq_msgs_enc(ms: Seq<SeqMsgV>, rest: Seq<u8>)
    requires
        rest.len() > 0,
        rest[0] == 93,
    ensures
        dec_seq_msgs(enc_seq_msgs(ms) + rest) == (ms, rest),
    decreases ms.len(),
{
    let t = enc_seq_msgs(ms) + rest;
    if ms.len() == 0 {
        assert(t =~= rest);
        assert(l_seqnum()[0] == 123);
        assert(strip_prefix(rest, l_seqnum()) is None) by {
            if strip_prefix(rest, l_seqnum()) is Some {
                assert(rest.subrange(0, l_seqnum().len() as int)[0] == l_seqnum()[0]);
            }
        }
        assert(ms =~= Seq::<SeqMsgV>::empty());
    } else if ms.len() == 1 {
        lemma_dec_seq_msg_enc(ms[0], rest);
        assert(t =~= enc_seq_msg(ms[0]) + rest);
        assert(l_comma()[0] == 44);
        assert(strip_prefix(rest, l_comma()) is None) by {
            if strip_prefix(rest, l_comma()) is Some {
                assert(rest.subrange(0, l_comma().len() as int)[0] == l_comma()[0]);
            }
        }
        assert(seq![ms[0]] =~= ms);
    } else {
        let tail = ms.skip(1);
        let r2 = enc_seq_msgs(tail) + rest;
        let r = l_comma() + r2;
        assert(t =~= enc_seq_msg(ms[0]) + r);
        lemma_dec_seq_msg_enc(ms[0], r);
        lemma_strip_concat(l_comma(), r2);
        assert(t.len() == enc_seq_msg(ms[0]).len() + 1 + r2.len());
        assert(enc_seq_msg(ms[0]).len() >= l_seqnum().len());
        assert(l_seqnum().len() == 18);
        assert(r2.len() < t.len());
        lemma_dec_seq_msgs_enc(tail, rest);
        assert(dec_seq_msgs(r2).0.len() > 0);
        assert(seq![ms[0]] + tail =~= ms);
    }
}

/// A canonical sequencer envelope reads back as exactly the envelope.
pub proof fn lemma_dec_sequencer_enc(r: SeqRespV)
    ensures
        dec_sequencer(enc_sequencer(r)) == Some(r),
{
    let t = enc_sequencer(r);
    let r1 = u64_text(r.version as nat) + l_messages() + enc_seq_msgs(r.messages) + l_seq_end();
    assert(t =~= l_version() + r1);
    lemma_strip_concat(l_version(), r1);
    let r2 = l_messages() + enc_seq_msgs(r.messages) + l_seq_end();
    assert(r1 =~= u64_text(r.version as nat) + r2);
    assert(r2[0] == l_messages()[0]);
    assert(l_messages()[0] == 44);
    lemma_split_u64_enc(r.version, r2);
    let r3 = enc_seq_msgs(r.messages) + l_seq_end();
    assert(r2 =~= l_messages() + r3);
    lemma_strip_concat(l_messages(), r3);
    assert(l_seq_end()[0] == 93);
    lemma_dec_seq_msgs_enc(r.messages, l_seq_end());
    lemma_strip_concat(l_seq_end(), Seq::empty());
    assert(l_seq_end() =~= l_seq_end() + Seq::<u8>::empty());
}

/// An absent or unknown channel tag never yields a message: a frame is
/// decoded only under one of the two known tags, each into its own
/// variant.
pub proof fn lemma_unknown_channel_rejected(t: Seq<u8>)
    ensures
        unknown_channel(t) ==> dec_message(t) is None,
{
}

/// Reads one sequencer entry.
pub open spec fn dec_seq_msg(t: Seq<u8>) -> Option<(SeqMsgV, Seq<u8>)> {
    match strip_prefix(t, l_seqnum()) {
        None => None,
        Some(r1) => match split_u64(r1) {
            None => None,
            Some((n, r2)) => match strip_prefix(r2, l_rbrace()) {
                None => None,
                Some(r3) => Some((SeqMsgV { sequence_number: n }, r3)),
            },
        },
    }
}

/// Reads a run of sequencer entries.
pub open spec fn dec_seq_msgs(t: Seq<u8>) -> (Seq<SeqMsgV>, Seq<u8>)
    decreases t.len(),
{
    match dec_seq_msg(t) {
        None => (Seq::empty(), t),
        Some((m, r)) => match strip_prefix(r, l_comma()) {
            Some(r2) => if r2.len() < t.len() {
                let (ms, r3) = dec_seq_msgs(r2);
                if ms.len() == 0 {
                    (seq![m], r)
                } else {
                    (seq![m] + ms, r3)
                }
            } else {
                (seq![m], r)
            },
            None => (seq![m], r),
        },
    }
}

/// Reads a whole sequencer envelope.
pub open spec fn dec_sequencer(t: Seq<u8>) -> Option<SeqRespV> {
    match strip_prefix(t, l_version()) {
        None => None,
        Some(r1) => match split_u64(r1) {
            None => None,
            Some((version, r2)) => match strip_prefix(r2, l_messages()) {
                None => None,
                Some(r3) => {
                    let (messages, r4) = dec_seq_msgs(r3);
                    match strip_prefix(r4, l_seq_end()) {
                        None => None,
                        Some(r5) => if r5.len() == 0 {
                            Some(SeqRespV { version, messages })
                        } else {
                            None
                        },
                    }
                },
            },
        },
    }
}

// ---------------------------------------------------------------------
// Executable encoders, each proved to emit the canonical text.
// ---------------------------------------------------------------------
/// Appends a built piece of text.
fn put(out: &mut Vec<u8>, piece: Vec<u8>)
    ensures
        final(out)@ == old(out)@ + piece@,
{
    let mut p = piece;
    out.append(&mut p);
}

/// Appends a string content and its closing quote.
fn put_str(out: &mut Vec<u8>, s: &Vec<u8>)
    ensures
        final(out)@ == old(out)@ + enc_str(s@),
{
    out.extend_from_slice(s.as_slice());
    out.push(34);
    proof {
        assert(out@ =~= old(out)@ + enc_str(s@));
    }
}

/// Appends the canonical text of a `u64`.
fn put_u64(out: &mut Vec<u8>, n: u64)
    ensures
        final(out)@ == old(out)@ + u64_text(n as nat),
{
    let d = crate::bytes::u64_digits(n);
    put(out, d);
}

/// Appends an optional unsigned field.
fn put_opt_u32(out: &mut Vec<u8>, v: Option<u32>)
    ensures
        final(out)@ == old(out)@ + enc_opt_u32(v),
{
    match v {
        Some(x) => {
            let d = crate::bytes::u64_digits(x as u64);
            put(out, d);
        },
        None => {
            put(out, crate::lit::x_null());
        },
    }
}

/// Appends one price level.
fn put_level(out: &mut Vec<u8>, l: &WsLevel)
    ensures
        final(out)@ == old(out)@ + enc_level(l@),
{
    put(out, crate::lit::x_px());
    put_str(out, &l.px);
    put(out, crate::lit::x_sz());
    put_str(out, &l.sz);
    put(out, crate::lit::x_nn());
    put_u64(out, l.n as u64);
    put(out, crate::lit::x_rbrace());
    proof {
        assert(out@ =~= old(out)@ + enc_level(l@));
    }
}

/// Appends the run of levels from index `i` on.
fn put_levels_from(out: &mut Vec<u8>, ls: &Vec<WsLevel>, i: usize)
    requires
        i <= ls@.len(),
    ensures
        final(out)@ == old(out)@ + enc_levels(ls@.skip(i as int).map_values(|l: WsLevel| l@)),
    decreases ls@.len() - i,
{
    let ghost m = ls@.skip(i as int).map_values(|l: WsLevel| l@);
    if i == ls.len() {
        proof {
            assert(m =~= Seq::<LevelV>::empty());
            assert(out@ =~= out@ + enc_levels(m));
        }
        return ;
    }
    put_level(out, &ls[i]);
    proof {
        assert(m[0] == ls@[i as int]@);
    }
    if i + 1 < ls.len() {
        put(out, crate::lit::x_comma());
        put_levels_from(out, ls, i + 1);
        proof {
            assert(m.skip(1) =~= ls@.skip(i as int + 1).map_values(|l: WsLevel| l@));
            assert(m.len() > 1);
            assert(out@ =~= old(out)@ + enc_levels(m));
        }
    } else {
        proof {
            assert(m.len() == 1);
            assert(out@ =~= old(out)@ + enc_levels(m));
        }
    }
}

/// Encodes a subscription request as its canonical wire text.
pub fn encode_request(m: &Method) -> (r: Vec<u8>)
    ensures
        r@ == enc_request(m@),
{
    let mut out: Vec<u8> = Vec::new();
    put(&mut out, crate::lit::x_method());
    put_str(&mut out, &m.method);
    put(&mut out, crate::lit::x_subscription());
    put_str(&mut out, &m.subscription.type_);
    put(&mut out, crate::lit::x_coin());
    put_str(&mut out, &m.subscription.coin);
    put(&mut out, crate::lit::x_req_end());
    proof {
        assert(out@ =~= enc_request(m@));
    }
    out
}

/// Encodes an inbound frame as its canonical wire text.
#[verifier::rlimit(100)]
pub fn encode_message(m: &Message) -> (r: Vec<u8>)
    ensures
        r@ == enc_message(m@),
{
    let mut out: Vec<u8> = Vec::new();
    put(&mut out, crate::lit::x_channel());
    match m {
        Message::SubRes(d) => {
            put(&mut out, crate::lit::x_tag_ack());
            out.push(34);
            put(&mut out, crate::lit::x_data());
            put(&mut out, crate::lit::x_method());
            put_str(&mut out, &d.method);
            put(&mut out, crate::lit::x_subscription());
            put_str(&mut out, &d.subscription.type_);
            put(&mut out, crate::lit::x_coin());
            put_str(&mut out, &d.subscription.coin);
            put(&mut out, crate::lit::x_nsig());
            put_opt_u32(&mut out, d.subscription.n_sig_figs);
            put(&mut out, crate::lit::x_mant());
            put_opt_u32(&mut out, d.subscription.mantissa);
            put(&mut out, crate::lit::x_ack_end());
            proof {
                assert(out@ =~= enc_message(m@));
            }
        },
        Message::L2Book(b) => {
            put(&mut out, crate::lit::x_tag_book());
            out.push(34);
            put(&mut out, crate::lit::x_data());
            put(&mut out, crate::lit::x_book_coin());
            put_str(&mut out, &b.coin);
            put(&mut out, crate::lit::x_time());
            put_u64(&mut out, b.time);
            put(&mut out, crate::lit::x_levels());
            put_levels_from(&mut out, &b.bids, 0);
            put(&mut out, crate::lit::x_mid());
            put_levels_from(&mut out, &b.asks, 0);
            put(&mut out, crate::lit::x_book_end());
            proof {
                assert(b.bids@.skip(0) =~= b.bids@);
                assert(b.asks@.skip(0) =~= b.asks@);
                assert(out@ =~= enc_message(m@));
            }
        },
    }
    out
}

/// Encodes a sequencer envelope as its canonical wire text.
pub fn encode_sequencer(r: &SequencerResponse) -> (t: Vec<u8>)
    ensures
        t@ == enc_sequencer(r@),
{
    let mut out: Vec<u8> = Vec::new();
    put(&mut out, crate::lit::x_version());
    put_u64(&mut out, r.version);
    put(&mut out, crate::lit::x_messages());
    put_seq_msgs_from(&mut out, &r.messages, 0);
    put(&mut out, crate::lit::x_seq_end());
    proof {
        assert(r.messages@.skip(0) =~= r.messages@);
        assert(out@ =~= enc_sequencer(r@));
    }
    out
}

/// Appends the run of sequencer entries from index `i` on.
fn put_seq_msgs_from(out: &mut Vec<u8>, ms: &Vec<SequencerMessage>, i: usize)
    requires
        i <= ms@.len(),
    ensures
        final(out)@ == old(out)@ + enc_seq_msgs(
            ms@.skip(i as int).map_values(|m: SequencerMessage| m@),
        ),
    decreases ms@.len() - i,
{
    let ghost w = ms@.skip(i as int).map_values(|m: SequencerMessage| m@);
    if i == ms.len() {
        proof {
            assert(w =~= Seq::<SeqMsgV>::empty());
            assert(out@ =~= out@ + enc_seq_msgs(w));
        }
        return ;
    }
    put(out, crate::lit::x_seqnum());
    put_u64(out, ms[i].sequence_number);
    put(out, crate::lit::x_rbrace());
    proof {
        assert(w[0] == ms@[i as int]@);
    }
    if i + 1 < ms.len() {
        put(out, crate::lit::x_comma());
        put_seq_msgs_from(out, ms, i + 1);
        proof {
            assert(w.skip(1) =~= ms@.skip(i as int + 1).map_values(|m: SequencerMessage| m@));
            assert(w.len() > 1);
            assert(out@ =~= old(out)@ + enc_seq_msgs(w));
        }
    } else {
        proof {
            assert(w.len() == 1);
            assert(out@ =~= old(out)@ + enc_seq_msgs(w));
        }
    }
}

// ---------------------------------------------------------------------
// Soundness laws: whatever a reader accepts was the canonical text of a
// well-formed value — together with the round trips above, the readers
// accept exactly the canonical encodings, each under its own tag.
// ---------------------------------------------------------------------
/// An accepted optional field stood there in its canonical text.
pub proof fn lemma_dec_opt_u32_sound(t: Seq<u8>, v: Option<u32>, r: Seq<u8>)
    requires
        dec_opt_u32(t) == Some((v, r)),
    ensures
        t == enc_opt_u32(v) + r,
{
    match strip_prefix(t, l_null()) {
        Some(rr) => {
            lemma_strip_sound(t, l_null(), rr);
        },
        None => {
            match split_u32(t) {
                Some((x, rr)) => {
                    lemma_split_u32_sound(t, x, rr);
                },
                None => {},
            }
        },
    }
}

/// An accepted level stood there as its canonical text, and is well
/// formed: its price and size passed the decimal grammar.
#[verifier::rlimit(100)]
pub proof fn lemma_dec_level_sound(t: Seq<u8>, l: LevelV, r: Seq<u8>)
    requires
        dec_level(t) == Some((l, r)),
    ensures
        t == enc_level(l) + r,
        l.wf(),
{
    match strip_prefix(t, l_px()) {
        None => {},
        Some(r1) => {
            lemma_strip_sound(t, l_px(), r1);
            match split_str(r1) {
                None => {},
                Some((px, r2)) => {
                    lemma_split_str_sound(r1, px, r2);
                    match strip_prefix(r2, l_sz()) {
                        None => {},
                        Some(r3) => {
                            lemma_strip_sound(r2, l_sz(), r3);
                            match split_str(r3) {
                                None => {},
                                Some((sz, r4)) => {
                                    lemma_split_str_sound(r3, sz, r4);
                                    match strip_prefix(r4, l_nn()) {
                                        None => {},
                                        Some(r5) => {
                                            lemma_strip_sound(r4, l_nn(), r5);
                                            match split_u32(r5) {
                                                None => {},
                                                Some((n, r6)) => {
                                                    lemma_split_u32_sound(r5, n, r6);
                                                    match strip_prefix(r6, l_rbrace()) {
                                                        None => {},
                                                        Some(r7) => {
                                                            lemma_strip_sound(
                                                                r6,
                                                                l_rbrace(),
                                                                r7,
                                                            );
                                                            assert(t =~= enc_level(l) + r);
                                                        },
                                                    }
                                                },
                                            }
                                        },
                                    }
                                },
                            }
                        },
                    }
                },
            }
        },
    }
}

/// An accepted run of levels stood there as its canonical text, every
/// level well formed.
pub proof fn lemma_dec_levels_sound(t: Seq<u8>)
    ensures
        t == enc_levels(dec_levels(t).0) + dec_levels(t).1,
        forall|i: int| 0 <= i < dec_levels(t).0.len() ==> #[trigger] dec_levels(t).0[i].wf(),
    decreases t.len(),
{
    let (ls, r) = dec_levels(t);
    match dec_level(t) {
        None => {
            assert(ls =~= Seq::<LevelV>::empty());
            assert(enc_levels(ls) + t =~= t);
        },
        Some((lv, rr)) => {
            lemma_dec_level_sound(t, lv, rr);
            let one = seq![lv];
            assert(one[0] == lv);
            match strip_prefix(rr, l_comma()) {
                Some(r2) => {
                    if r2.len() < t.len() {
                        lemma_dec_levels_sound(r2);
                        let (ls2, r3) = dec_levels(r2);
                        if ls2.len() == 0 {
                            assert(ls == one);
                            assert(enc_levels(ls) == enc_level(lv));
                            assert(t =~= enc_levels(ls) + rr);
                        } else {
                            lemma_strip_sound(rr, l_comma(), r2);
                            assert(ls == one + ls2);
                            assert(ls.len() > 1);
                            assert(ls[0] == lv);
                            assert(ls.skip(1) =~= ls2);
                            assert(enc_levels(ls) == enc_level(lv) + l_comma() + enc_levels(
                                ls2,
                            ));
                            assert(t =~= enc_levels(ls) + r3);
                            assert(forall|i: int| 0 <= i < ls.len() ==> #[trigger] ls[i].wf())
                                by {
                                assert(forall|i: int| 1 <= i < ls.len() ==> ls[i] == ls2[i - 1]);
                            }
                        }
                    } else {
                        assert(ls == one);
                        assert(enc_levels(ls) == enc_level(lv));
                        assert(t =~= enc_levels(ls) + rr);
                    }
                },
                None => {
                    assert(ls == one);
                    assert(enc_levels(ls) == enc_level(lv));
                    assert(t =~= enc_levels(ls) + rr);
                },
            }
        },
    }
}

/// An accepted acknowledgement payload was the canonical text of a
/// well-formed payload.
#[verifier::rlimit(100)]
pub proof fn lemma_dec_ack_sound(t: Seq<u8>, d: MethodDataV)
    requires
        dec_ack(t) == Some(d),
    ensures
        t == enc_ack(d),
        d.wf(),
{
    match strip_prefix(t, l_method()) {
        None => {},
        Some(r1) => {
            lemma_strip_sound(t, l_method(), r1);
            match split_str(r1) {
                None => {},
                Some((method, r2)) => {
                    lemma_split_str_sound(r1, method, r2);
                    match strip_prefix(r2, l_subscription()) {
                        None => {},
                        Some(r3) => {
                            lemma_strip_sound(r2, l_subscription(), r3);
                            match split_str(r3) {
                                None => {},
                                Some((type_, r4)) => {
                                    lemma_split_str_sound(r3, type_, r4);
                                    match strip_prefix(r4, l_coin()) {
                                        None => {},
                                        Some(r5) => {
                                            lemma_strip_sound(r4, l_coin(), r5);
                                            match split_str(r5) {
                                                None => {},
                                                Some((coin, r6)) => {
                                                    lemma_split_str_sound(r5, coin, r6);
                                                    lemma_dec_ack_sound_tail(t, d, r6);
                                                },
                                            }
                                        },
                                    }
                                },
                            }
                        },
                    }
                },
            }
        },
    }
}

/// The tail of the acknowledgement reader, from the optional fields on.
#[verifier::rlimit(100)]
proof fn lemma_dec_ack_sound_tail(t: Seq<u8>, d: MethodDataV, r6: Seq<u8>)
    requires
        dec_ack(t) == Some(d),
        ({
            let r1 = strip_prefix(t, l_method()).unwrap();
            let (method, r2) = split_str(r1).unwrap();
            let r3 = strip_prefix(r2, l_subscription()).unwrap();
            let (type_, r4) = split_str(r3).unwrap();
            let r5 = strip_prefix(r4, l_coin()).unwrap();
            &&& strip_prefix(t, l_method()) is Some
            &&& split_str(r1) is Some
            &&& strip_prefix(r2, l_subscription()) is Some
            &&& split_str(r3) is Some
            &&& strip_prefix(r4, l_coin()) is Some
            &&& split_str(r5) is Some
            &&& split_str(r5).unwrap().1 == r6
            &&& t == l_method() + (method + seq![qu()] + (l_subscription() + (type_ + seq![qu()]
                + (l_coin() + (coin_of(r5) + seq![qu()] + r6)))))
            &&& is_plain(method) && is_plain(type_) && is_plain(coin_of(r5))
        }),
    ensures
        t == enc_ack(d),
        d.wf(),
{
    match strip_prefix(r6, l_nsig()) {
        None => {},
        Some(r7) => {
            lemma_strip_sound(r6, l_nsig(), r7);
            match dec_opt_u32(r7) {
                None => {},
                Some((n_sig_figs, r8)) => {
                    lemma_dec_opt_u32_sound(r7, n_sig_figs, r8);
                    match strip_prefix(r8, l_mant()) {
                        None => {},
                        Some(r9) => {
                            lemma_strip_sound(r8, l_mant(), r9);
                            match dec_opt_u32(r9) {
                                None => {},
                                Some((mantissa, r10)) => {
                                    lemma_dec_opt_u32_sound(r9, mantissa, r10);
                                    match strip_prefix(r10, l_ack_end()) {
                                        None => {},
                                        Some(r11) => {
                                            lemma_strip_sound(r10, l_ack_end(), r11);
                                            if r11.len() == 0 {
                                                assert(r11 =~= Seq::<u8>::empty());
                                                assert(r10 =~= l_ack_end());
                                                assert(t =~= enc_ack(d));
                                            }
                                        },
                                    }
                                },
                            }
                        },
                    }
                },
            }
        },
    }
}

/// The coin content the acknowledgement reader found.
pub open spec fn coin_of(r5: Seq<u8>) -> Seq<u8> {
    split_str(r5).unwrap().0
}

/// An accepted book payload was the canonical text of a well-formed book.
#[verifier::rlimit(100)]
pub proof fn lemma_dec_book_sound(t: Seq<u8>, b: BookV)
    requires
        dec_book(t) == Some(b),
    ensures
        t == enc_book(b),
        b.wf(),
{
    match strip_prefix(t, l_book_coin()) {
        None => {},
        Some(r1) => {
            lemma_strip_sound(t, l_book_coin(), r1);
            match split_str(r1) {
                None => {},
                Some((coin, r2)) => {
                    lemma_split_str_sound(r1, coin, r2);
                    match strip_prefix(r2, l_time()) {
                        None => {},
                        Some(r3) => {
                            lemma_strip_sound(r2, l_time(), r3);
                            match split_u64(r3) {
                                None => {},
                                Some((time, r4)) => {
                                    lemma_split_u64_sound(r3, time, r4);
                                    match strip_prefix(r4, l_levels()) {
                                        None => {},
                                        Some(r5) => {
                                            lemma_strip_sound(r4, l_levels(), r5);
                                            lemma_dec_levels_sound(r5);
                                            let (bids, r6) = dec_levels(r5);
                                            match strip_prefix(r6, l_mid()) {
                                                None => {},
                                                Some(r7) => {
                                                    lemma_strip_sound(r6, l_mid(), r7);
                                                    lemma_dec_levels_sound(r7);
                                                    let (asks, r8) = dec_levels(r7);
                                                    match strip_prefix(r8, l_book_end()) {
                                                        None => {},
                                                        Some(r9) => {
                                                            lemma_strip_sound(
                                                                r8,
                                                                l_book_end(),
                                                                r9,
                                                            );
                                                            if r9.len() == 0 {
                                                                assert(r9
                                                                    =~= Seq::<u8>::empty());
                                                                assert(r8 =~= l_book_end());
                                                                assert(t =~= enc_book(b));
                                                            }
                                                        },
                                                    }
                                                },
                                            }
                                        },
                                    }
                                },
                            }
                        },
                    }
                },
            }
        },
    }
}

/// An accepted frame was the canonical text of a well-formed message —
/// with the round trip, a frame decodes to a variant exactly when it is
/// that variant's canonical encoding: never the wrong variant.
pub proof fn lemma_dec_message_sound(t: Seq<u8>, m: MessageV)
    requires
        dec_message(t) == Some(m),
    ensures
        t == enc_message(m),
        m.wf(),
{
    match strip_prefix(t, l_channel()) {
        None => {},
        Some(r1) => {
            lemma_strip_sound(t, l_channel(), r1);
            match split_str(r1) {
                None => {},
                Some((chan, r2)) => {
                    lemma_split_str_sound(r1, chan, r2);
                    if chan == l_tag_ack() {
                        match strip_prefix(r2, l_data()) {
                            None => {},
                            Some(r3) => {
                                lemma_strip_sound(r2, l_data(), r3);
                                match dec_ack(r3) {
                                    None => {},
                                    Some(d) => {
                                        lemma_dec_ack_sound(r3, d);
                                        assert(t =~= enc_message(m));
                                    },
                                }
                            },
                        }
                    } else if chan == l_tag_book() {
                        match strip_prefix(r2, l_data()) {
                            None => {},
                            Some(r3) => {
                                lemma_strip_sound(r2, l_data(), r3);
                                match dec_book(r3) {
                                    None => {},
                                    Some(b) => {
                                        lemma_dec_book_sound(r3, b);
                                        assert(t =~= enc_message(m));
                                    },
                                }
                            },
                        }
                    }
                },
            }
        },
    }
}

/// An accepted request was the canonical text of a well-formed request.
#[verifier::rlimit(100)]
pub proof fn lemma_dec_request_sound(t: Seq<u8>, m: MethodV)
    requires
        dec_request(t) == Some(m),
    ensures
        t == enc_request(m),
        m.wf(),
{
    match strip_prefix(t, l_method()) {
        None => {},
        Some(r1) => {
            lemma_strip_sound(t, l_method(), r1);
            match split_str(r1) {
                None => {},
                Some((method, r2)) => {
                    lemma_split_str_sound(r1, method, r2);
                    match strip_prefix(r2, l_subscription()) {
                        None => {},
                        Some(r3) => {
                            lemma_strip_sound(r2, l_subscription(), r3);
                            match split_str(r3) {
                                None => {},
                                Some((type_, r4)) => {
                                    lemma_split_str_sound(r3, type_, r4);
                                    match strip_prefix(r4, l_coin()) {
                                        None => {},
                                        Some(r5) => {
                                            lemma_strip_sound(r4, l_coin(), r5);
                                            match split_str(r5) {
                                                None => {},
                                                Some((coin, r6)) => {
                                                    lemma_split_str_sound(r5, coin, r6);
                                                    match strip_prefix(r6, l_req_end()) {
                                                        None => {},
                                                        Some(r7) => {
                                                            lemma_strip_sound(
                                                                r6,
                                                                l_req_end(),
                                                                r7,
                                                            );
                                                            if r7.len() == 0 {
                                                                assert(r7
                                                                    =~= Seq::<u8>::empty());
                                                                assert(r6 =~= l_req_end());
                                                                assert(t =~= enc_request(m));
                                                            }
                                                        },
                                                    }
                                                },
                                            }
                                        },
                                    }
                                },
                            }
                        },
                    }
                },
            }
        },
    }
}

/// An accepted sequencer entry stood there in its canonical text.
pub proof fn lemma_dec_seq_msg_sound(t: Seq<u8>, m: SeqMsgV, r: Seq<u8>)
    requires
        dec_seq_msg(t) == Some((m, r)),
    ensures
        t == enc_seq_msg(m) + r,
{
    match strip_prefix(t, l_seqnum()) {
        None => {},
        Some(r1) => {
            lemma_strip_sound(t, l_seqnum(), r1);
            match split_u64(r1) {
                None => {},
                Some((n, r2)) => {
                    lemma_split_u64_sound(r1, n, r2);
                    match strip_prefix(r2, l_rbrace()) {
                        None => {},
                        Some(r3) => {
                            lemma_strip_sound(r2, l_rbrace(), r3);
                            assert(t =~= enc_seq_msg(m) + r);
                        },
                    }
                },
            }
        },
    }
}

/// An accepted run of sequencer entries stood there as its canonical text.
pub proof fn lemma_dec_seq_msgs_sound(t: Seq<u8>)
    ensures
        t == enc_seq_msgs(dec_seq_msgs(t).0) + dec_seq_msgs(t).1,
    decreases t.len(),
{
    let (ms, r) = dec_seq_msgs(t);
    match dec_seq_msg(t) {
        None => {
            assert(ms =~= Seq::<SeqMsgV>::empty());
            assert(enc_seq_msgs(ms) + t =~= t);
        },
        Some((sm, rr)) => {
            lemma_dec_seq_msg_sound(t, sm, rr);
            let one = seq![sm];
            assert(one[0] == sm);
            match strip_prefix(rr, l_comma()) {
                Some(r2) => {
                    if r2.len() < t.len() {
                        lemma_dec_seq_msgs_sound(r2);
                        let (ms2, r3) = dec_seq_msgs(r2);
                        if ms2.len() == 0 {
                            assert(ms == one);
                            assert(enc_seq_msgs(ms) == enc_seq_msg(sm));
                            assert(t =~= enc_seq_msgs(ms) + rr);
                        } else {
                            lemma_strip_sound(rr, l_comma(), r2);
                            assert(ms == one + ms2);
                            assert(ms.len() > 1);
                            assert(ms[0] == sm);
                            assert(ms.skip(1) =~= ms2);
                            assert(enc_seq_msgs(ms) == enc_seq_msg(sm) + l_comma()
                                + enc_seq_msgs(ms2));
                            assert(t =~= enc_seq_msgs(ms) + r3);
                        }
                    } else {
                        assert(ms == one);
                        assert(enc_seq_msgs(ms) == enc_seq_msg(sm));
                        assert(t =~= enc_seq_msgs(ms) + rr);
                    }
                },
                None => {
                    assert(ms == one);
                    assert(enc_seq_msgs(ms) == enc_seq_msg(sm));
                    assert(t =~= enc_seq_msgs(ms) + rr);
                },
            }
        },
    }
}

/// An accepted sequencer envelope was the canonical text of the envelope.
pub proof fn lemma_dec_sequencer_sound(t: Seq<u8>, resp: SeqRespV)
    requires
        dec_sequencer(t) == Some(resp),
    ensures
        t == enc_sequencer(resp),
{
    match strip_prefix(t, l_version()) {
        None => {},
        Some(r1) => {
            lemma_strip_sound(t, l_version(), r1);
            match split_u64(r1) {
                None => {},
                Some((version, r2)) => {
                    lemma_split_u64_sound(r1, version, r2);
                    match strip_prefix(r2, l_messages()) {
                        None => {},
                        Some(r3) => {
                            lemma_strip_sound(r2, l_messages(), r3);
                            lemma_dec_seq_msgs_sound(r3);
                            let (messages, r4) = dec_seq_msgs(r3);
                            match strip_prefix(r4, l_seq_end()) {
                                None => {},
                                Some(r5) => {
                                    lemma_strip_sound(r4, l_seq_end(), r5);
                                    if r5.len() == 0 {
                                        assert(r5 =~= Seq::<u8>::empty());
                                        assert(r4 =~= l_seq_end());
                                        assert(t =~= enc_sequencer(resp));
                                    }
                                },
                            }
                        },
                    }
                },
            }
        },
    }
}

// ---------------------------------------------------------------------
// Executable decoders, each proved to read exactly as the spec readers.
// ---------------------------------------------------------------------
/// A rejected frame, carrying the whole offending text.
fn mk_err(s: &[u8], reason: DecodeReason) -> (e: DecodeError)
    ensures
        e.text@ == s@,
        e.reason == reason,
{
    DecodeError { text: vstd::slice::slice_to_vec(s), reason }
}

/// Reads an optional unsigned field at `pos`.
fn parse_opt_u32(s: &[u8], pos: usize) -> (r: Option<(Option<u32>, usize)>)
    requires
        pos <= s@.len(),
    ensures
        match r {
            Some((v, p)) => pos <= p <= s@.len() && dec_opt_u32(s@.skip(pos as int)) == Some(
                (v, s@.skip(p as int)),
            ),
            None => dec_opt_u32(s@.skip(pos as int)) is None,
        },
{
    let ln = crate::lit::x_null();
    match crate::bytes::match_at(s, pos, ln.as_slice()) {
        Some(p) => Some((None, p)),
        None => match crate::bytes::parse_u32_at(s, pos) {
            Some((v, p)) => Some((Some(v), p)),
            None => None,
        },
    }
}

/// Reads one price level at `pos`.
fn parse_level(s: &[u8], pos: usize) -> (r: Option<(WsLevel, usize)>)
    requires
        pos <= s@.len(),
    ensures
        match r {
            Some((l, p)) => pos < p <= s@.len() && dec_level(s@.skip(pos as int)) == Some(
                (l@, s@.skip(p as int)),
            ),
            None => dec_level(s@.skip(pos as int)) is None,
        },
{
    let lpx = crate::lit::x_px();
    let p1 = match crate::bytes::match_at(s, pos, lpx.as_slice()) {
        Some(p) => p,
        None => {
            return None;
        },
    };
    let (px, p2) = match crate::bytes::take_str(s, p1) {
        Some(x) => x,
        None => {
            return None;
        },
    };
    if !crate::bytes::check_dec(px.as_slice()) {
        return None;
    }
    let lsz = crate::lit::x_sz();
    let p3 = match crate::bytes::match_at(s, p2, lsz.as_slice()) {
        Some(p) => p,
        None => {
            return None;
        },
    };
    let (sz, p4) = match crate::bytes::take_str(s, p3) {
        Some(x) => x,
        None => {
            return None;
        },
    };
    if !crate::bytes::check_dec(sz.as_slice()) {
        return None;
    }
    let lnn = crate::lit::x_nn();
    let p5 = match crate::bytes::match_at(s, p4, lnn.as_slice()) {
        Some(p) => p,
        None => {
            return None;
        },
    };
    let (n, p6) = match crate::bytes::parse_u32_at(s, p5) {
        Some(x) => x,
        None => {
            return None;
        },
    };
    let lrb = crate::lit::x_rbrace();
    let p7 = match crate::bytes::match_at(s, p6, lrb.as_slice()) {
        Some(p) => p,
        None => {
            return None;
        },
    };
    proof {
        assert(l_px().len() == 7);
    }
    Some((WsLevel { px, sz, n }, p7))
}

/// Reads a run of price levels at `pos`: as many as the text offers.
fn parse_levels(s: &[u8], pos: usize) -> (r: (Vec<WsLevel>, usize))
    requires
        pos <= s@.len(),
    ensures
        pos <= r.1 <= s@.len(),
        dec_levels(s@.skip(pos as int)) == (
            r.0@.map_values(|l: WsLevel| l@),
            s@.skip(r.1 as int),
        ),
    decreases s@.len() - pos,
{
    match parse_level(s, pos) {
        None => {
            let v: Vec<WsLevel> = Vec::new();
            proof {
                assert(v@.map_values(|l: WsLevel| l@) =~= Seq::<LevelV>::empty());
            }
            (v, pos)
        },
        Some((lv, p)) => {
            let lc = crate::lit::x_comma();
            match crate::bytes::match_at(s, p, lc.as_slice()) {
                Some(p2) => {
                    proof {
                        assert(l_comma().len() == 1);
                    }
                    let (mut ls, p3) = parse_levels(s, p2);
                    if ls.len() == 0 {
                        let mut v: Vec<WsLevel> = Vec::new();
                        v.push(lv);
                        proof {
                            assert(v@.map_values(|l: WsLevel| l@) =~= seq![lv@]);
                        }
                        (v, p)
                    } else {
                        let ghost tail = ls@.map_values(|l: WsLevel| l@);
                        ls.insert(0, lv);
                        proof {
                            assert(tail.len() > 0);
                            assert(ls@.map_values(|l: WsLevel| l@) =~= seq![lv@] + tail);
                        }
                        (ls, p3)
                    }
                },
                None => {
                    let mut v: Vec<WsLevel> = Vec::new();
                    v.push(lv);
                    proof {
                        assert(v@.map_values(|l: WsLevel| l@) =~= seq![lv@]);
                    }
                    (v, p)
                },
            }
        },
    }
}

/// Reads an acknowledgement payload: the rest of the text, in full.
fn parse_ack(s: &[u8], pos: usize) -> (r: Option<MethodData>)
    requires
        pos <= s@.len(),
    ensures
        match r {
            Some(d) => dec_ack(s@.skip(pos as int)) == Some(d@),
            None => dec_ack(s@.skip(pos as int)) is None,
        },
{
    let lm = crate::lit::x_method();
    let p1 = match crate::bytes::match_at(s, pos, lm.as_slice()) {
        Some(p) => p,
        None => {
            return None;
        },
    };
    let (method, p2) = match crate::bytes::take_str(s, p1) {
        Some(x) => x,
        None => {
            return None;
        },
    };
    let lsub = crate::lit::x_subscription();
    let p3 = match crate::bytes::match_at(s, p2, lsub.as_slice()) {
        Some(p) => p,
        None => {
            return None;
        },
    };
    let (type_, p4) = match crate::bytes::take_str(s, p3) {
        Some(x) => x,
        None => {
            return None;
        },
    };
    let lcoin = crate::lit::x_coin();
    let p5 = match crate::bytes::match_at(s, p4, lcoin.as_slice()) {
        Some(p) => p,
        None => {
            return None;
        },
    };
    let (coin, p6) = match crate::bytes::take_str(s, p5) {
        Some(x) => x,
        None => {
            return None;
        },
    };
    let lnsig = crate::lit::x_nsig();
    let p7 = match crate::bytes::match_at(s, p6, lnsig.as_slice()) {
        Some(p) => p,
        None => {
            return None;
        },
    };
    let (n_sig_figs, p8) = match parse_opt_u32(s, p7) {
        Some(x) => x,
        None => {
            return None;
        },
    };
    let lmant = crate::lit::x_mant();
    let p9 = match crate::bytes::match_at(s, p8, lmant.as_slice()) {
        Some(p) => p,
        None => {
            return None;
        },
    };
    let (mantissa, p10) = match parse_opt_u32(s, p9) {
        Some(x) => x,
        None => {
            return None;
        },
    };
    let lend = crate::lit::x_ack_end();
    let p11 = match crate::bytes::match_at(s, p10, lend.as_slice()) {
        Some(p) => p,
        None => {
            return None;
        },
    };
    if p11 != s.len() {
        return None;
    }
    Some(
        MethodData {
            method,
            subscription: Subscription { type_, coin, n_sig_figs, mantissa },
        },
    )
}

/// Reads a book-update payload: the rest of the text, in full.
fn parse_book(s: &[u8], pos: usize) -> (r: Option<WsBook>)
    requires
        pos <= s@.len(),
    ensures
        match r {
            Some(b) => dec_book(s@.skip(pos as int)) == Some(b@),
            None => dec_book(s@.skip(pos as int)) is None,
        },
{
    let lbc = crate::lit::x_book_coin();
    let p1 = match crate::bytes::match_at(s, pos, lbc.as_slice()) {
        Some(p) => p,
        None => {
            return None;
        },
    };
    let (coin, p2) = match crate::bytes::take_str(s, p1) {
        Some(x) => x,
        None => {
            return None;
        },
    };
    let lt = crate::lit::x_time();
    let p3 = match crate::bytes::match_at(s, p2, lt.as_slice()) {
        Some(p) => p,
        None => {
            return None;
        },
    };
    let (time, p4) = match crate::bytes::parse_u64_at(s, p3) {
        Some(x) => x,
        None => {
            return None;
        },
    };
    let ll = crate::lit::x_levels();
    let p5 = match crate::bytes::match_at(s, p4, ll.as_slice()) {
        Some(p) => p,
        None => {
            return None;
        },
    };
    let (bids, p6) = parse_levels(s, p5);
    let lmid = crate::lit::x_mid();
    let p7 = match crate::bytes::match_at(s, p6, lmid.as_slice()) {
        Some(p) => p,
        None => {
            return None;
        },
    };
    let (asks, p8) = parse_levels(s, p7);
    let lend = crate::lit::x_book_end();
    let p9 = match crate::bytes::match_at(s, p8, lend.as_slice()) {
        Some(p) => p,
        None => {
            return None;
        },
    };
    if p9 != s.len() {
        return None;
    }
    Some(WsBook { coin, time, bids, asks })
}

/// Decodes an inbound frame against the tagged-union grammar.  Success
/// returns exactly the message whose canonical text the frame is; any
/// other text is rejected with the offending text and the reason, an
/// unknown channel tag told apart from a malformed frame.
pub fn decode_message(s: &[u8]) -> (r: Result<Message, DecodeError>)
    ensures
        match r {
            Ok(m) => dec_message(s@) == Some(m@),
            Err(e) => dec_message(s@) is None && e.text@ == s@ && (e.reason
                == DecodeReason::UnknownChannel <==> unknown_channel(s@)),
        },
{
    proof {
        assert(s@.skip(0) =~= s@);
    }
    let lch = crate::lit::x_channel();
    let p1 = match crate::bytes::match_at(s, 0, lch.as_slice()) {
        Some(p) => p,
        None => {
            return Err(mk_err(s, DecodeReason::Malformed));
        },
    };
    let (chan, p2) = match crate::bytes::take_str(s, p1) {
        Some(x) => x,
        None => {
            return Err(mk_err(s, DecodeReason::Malformed));
        },
    };
    let tack = crate::lit::x_tag_ack();
    let tbook = crate::lit::x_tag_book();
    let ld = crate::lit::x_data();
    if crate::bytes::eq_bytes(chan.as_slice(), tack.as_slice()) {
        let p3 = match crate::bytes::match_at(s, p2, ld.as_slice()) {
            Some(p) => p,
            None => {
                return Err(mk_err(s, DecodeReason::Malformed));
            },
        };
        match parse_ack(s, p3) {
            Some(d) => Ok(Message::SubRes(d)),
            None => Err(mk_err(s, DecodeReason::Malformed)),
        }
    } else if crate::bytes::eq_bytes(chan.as_slice(), tbook.as_slice()) {
        let p3 = match crate::bytes::match_at(s, p2, ld.as_slice()) {
            Some(p) => p,
            None => {
                return Err(mk_err(s, DecodeReason::Malformed));
            },
        };
        match parse_book(s, p3) {
            Some(b) => Ok(Message::L2Book(b)),
            None => Err(mk_err(s, DecodeReason::Malformed)),
        }
    } else {
        Err(mk_err(s, DecodeReason::UnknownChannel))
    }
}

/// Decodes an outbound request; what `encode_request` writes, this reads
/// back, and nothing else passes.
pub fn decode_request(s: &[u8]) -> (r: Result<Method, DecodeError>)
    ensures
        match r {
            Ok(m) => dec_request(s@) == Some(m@),
            Err(e) => dec_request(s@) is None && e.text@ == s@,
        },
{
    proof {
        assert(s@.skip(0) =~= s@);
    }
    let lm = crate::lit::x_method();
    let p1 = match crate::bytes::match_at(s, 0, lm.as_slice()) {
        Some(p) => p,
        None => {
            return Err(mk_err(s, DecodeReason::Malformed));
        },
    };
    let (method, p2) = match crate::bytes::take_str(s, p1) {
        Some(x) => x,
        None => {
            return Err(mk_err(s, DecodeReason::Malformed));
        },
    };
    let lsub = crate::lit::x_subscription();
    let p3 = match crate::bytes::match_at(s, p2, lsub.as_slice()) {
        Some(p) => p,
        None => {
            return Err(mk_err(s, DecodeReason::Malformed));
        },
    };
    let (type_, p4) = match crate::bytes::take_str(s, p3) {
        Some(x) => x,
        None => {
            return Err(mk_err(s, DecodeReason::Malformed));
        },
    };
    let lcoin = crate::lit::x_coin();
    let p5 = match crate::bytes::match_at(s, p4, lcoin.as_slice()) {
        Some(p) => p,
        None => {
            return Err(mk_err(s, DecodeReason::Malformed));
        },
    };
    let (coin, p6) = match crate::bytes::take_str(s, p5) {
        Some(x) => x,
        None => {
            return Err(mk_err(s, DecodeReason::Malformed));
        },
    };
    let lend = crate::lit::x_req_end();
    let p7 = match crate::bytes::match_at(s, p6, lend.as_slice()) {
        Some(p) => p,
        None => {
            return Err(mk_err(s, DecodeReason::Malformed));
        },
    };
    if p7 != s.len() {
        return Err(mk_err(s, DecodeReason::Malformed));
    }
    Ok(Method { method, subscription: Sub { type_, coin } })
}

/// Reads one sequencer entry at `pos`.
fn parse_seq_msg(s: &[u8], pos: usize) -> (r: Option<(SequencerMessage, usize)>)
    requires
        pos <= s@.len(),
    ensures
        match r {
            Some((m, p)) => pos < p <= s@.len() && dec_seq_msg(s@.skip(pos as int)) == Some(
                (m@, s@.skip(p as int)),
            ),
            None => dec_seq_msg(s@.skip(pos as int)) is None,
        },
{
    let lsq = crate::lit::x_seqnum();
    let p1 = match crate::bytes::match_at(s, pos, lsq.as_slice()) {
        Some(p) => p,
        None => {
            return None;
        },
    };
    let (n, p2) = match crate::bytes::parse_u64_at(s, p1) {
        Some(x) => x,
        None => {
            return None;
        },
    };
    let lrb = crate::lit::x_rbrace();
    let p3 = match crate::bytes::match_at(s, p2, lrb.as_slice()) {
        Some(p) => p,
        None => {
            return None;
        },
    };
    proof {
        assert(l_seqnum().len() == 18);
    }
    Some((SequencerMessage { sequence_number: n }, p3))
}

/// Reads a run of sequencer entries at `pos`.
fn parse_seq_msgs(s: &[u8], pos: usize) -> (r: (Vec<SequencerMessage>, usize))
    requires
        pos <= s@.len(),
    ensures
        pos <= r.1 <= s@.len(),
        dec_seq_msgs(s@.skip(pos as int)) == (
            r.0@.map_values(|m: SequencerMessage| m@),
            s@.skip(r.1 as int),
        ),
    decreases s@.len() - pos,
{
    match parse_seq_msg(s, pos) {
        None => {
            let v: Vec<SequencerMessage> = Vec::new();
            proof {
                assert(v@.map_values(|m: SequencerMessage| m@) =~= Seq::<SeqMsgV>::empty());
            }
            (v, pos)
        },
        Some((sm, p)) => {
            let lc = crate::lit::x_comma();
            match crate::bytes::match_at(s, p, lc.as_slice()) {
                Some(p2) => {
                    proof {
                        assert(l_comma().len() == 1);
                    }
                    let (mut ms, p3) = parse_seq_msgs(s, p2);
                    if ms.len() == 0 {
                        let mut v: Vec<SequencerMessage> = Vec::new();
                        v.push(sm);
                        proof {
                            assert(v@.map_values(|m: SequencerMessage| m@) =~= seq![sm@]);
                        }
                        (v, p)
                    } else {
                        let ghost tail = ms@.map_values(|m: SequencerMessage| m@);
                        ms.insert(0, sm);
                        proof {
                            assert(tail.len() > 0);
                            assert(ms@.map_values(|m: SequencerMessage| m@) =~= seq![sm@] + tail);
                        }
                        (ms, p3)
                    }
                },
                None => {
                    let mut v: Vec<SequencerMessage> = Vec::new();
                    v.push(sm);
                    proof {
                        assert(v@.map_values(|m: SequencerMessage| m@) =~= seq![sm@]);
                    }
                    (v, p)
                },
            }
        },
    }
}

/// Decodes a sequencer envelope; what `encode_sequencer` writes, this
/// reads back, and nothing else passes.
pub fn decode_sequencer(s: &[u8]) -> (r: Result<SequencerResponse, DecodeError>)
    ensures
        match r {
            Ok(resp) => dec_sequencer(s@) == Some(resp@),
            Err(e) => dec_sequencer(s@) is None && e.text@ == s@,
        },
{
    proof {
        assert(s@.skip(0) =~= s@);
    }
    let lv = crate::lit::x_version();
    let p1 = match crate::bytes::match_at(s, 0, lv.as_slice()) {
        Some(p) => p,
        None => {
            return Err(mk_err(s, DecodeReason::Malformed));
        },
    };
    let (version, p2) = match crate::bytes::parse_u64_at(s, p1) {
        Some(x) => x,
        None => {
            return Err(mk_err(s, DecodeReason::Malformed));
        },
    };
    let lms = crate::lit::x_messages();
    let p3 = match crate::bytes::match_at(s, p2, lms.as_slice()) {
        Some(p) => p,
        None => {
            return Err(mk_err(s, DecodeReason::Malformed));
        },
    };
    let (messages, p4) = parse_seq_msgs(s, p3);
    let lend = crate::lit::x_seq_end();
    let p5 = match crate::bytes::match_at(s, p4, lend.as_slice()) {
        Some(p) => p,
        None => {
            return Err(mk_err(s, DecodeReason::Malformed));
        },
    };
    if p5 != s.len() {
        return Err(mk_err(s, DecodeReason::Malformed));
    }
    Ok(SequencerResponse { version, messages })
}

} // verus!
