//! The typed values the wire carries: subscription requests, inbound
//! frames (acknowledgement or book update), the sequencer envelope, and
//! the decode error.  Each executable type has a ghost view over byte
//! sequences, and a well-formedness predicate saying which values the
//! grammars can carry.

use vstd::prelude::*;

use crate::bytes::{is_dec, is_plain};
use crate::lit::{l_subscribe, l_tag_book};

verus! {

/// View of `Sub`: the subscription body of an outbound request.
pub ghost struct SubV {
    pub type_: Seq<u8>,
    pub coin: Seq<u8>,
}

impl SubV {
    pub open spec fn wf(self) -> bool {
        is_plain(self.type_) && is_plain(self.coin)
    }
}

/// View of `Method`: a whole outbound request.
pub ghost struct MethodV {
    pub method: Seq<u8>,
    pub subscription: SubV,
}

impl MethodV {
    pub open spec fn wf(self) -> bool {
        is_plain(self.method) && self.subscription.wf()
    }
}

/// The canonical request for the book channel of one coin.
pub open spec fn l2book_request(coin: Seq<u8>) -> MethodV {
    MethodV { method: l_subscribe(), subscription: SubV { type_: l_tag_book(), coin } }
}

/// View of `Subscription`: the subscription body an acknowledgement echoes,
/// with its two optional precision fields.
pub ghost struct SubscriptionV {
    pub type_: Seq<u8>,
    pub coin: Seq<u8>,
    pub n_sig_figs: Option<u32>,
    pub mantissa: Option<u32>,
}

impl SubscriptionV {
    pub open spec fn wf(self) -> bool {
        is_plain(self.type_) && is_plain(self.coin)
    }
}

/// View of `MethodData`: the payload of an acknowledgement frame.
pub ghost struct MethodDataV {
    pub method: Seq<u8>,
    pub subscription: SubscriptionV,
}

impl MethodDataV {
    pub open spec fn wf(self) -> bool {
        is_plain(self.method) && self.subscription.wf()
    }
}

/// View of `WsLevel`: one price level; price and size stay in their wire
/// text, a decimal string, so nothing of them is lost in transit.
pub ghost struct LevelV {
    pub px: Seq<u8>,
    pub sz: Seq<u8>,
    pub n: u32,
}

impl LevelV {
    pub open spec fn wf(self) -> bool {
        is_dec(self.px) && is_dec(self.sz)
    }
}

/// View of `WsBook`: one book update.
pub ghost struct BookV {
    pub coin: Seq<u8>,
    pub time: u64,
    pub bids: Seq<LevelV>,
    pub asks: Seq<LevelV>,
}

impl BookV {
    pub open spec fn wf(self) -> bool {
        &&& is_plain(self.coin)
        &&& forall|i: int| 0 <= i < self.bids.len() ==> self.bids[i].wf()
        &&& forall|i: int| 0 <= i < self.asks.len() ==> self.asks[i].wf()
    }
}

/// View of `Message`.
pub ghost enum MessageV {
    SubRes(MethodDataV),
    L2Book(BookV),
}

impl MessageV {
    pub open spec fn wf(self) -> bool {
        match self {
            MessageV::SubRes(d) => d.wf(),
            MessageV::L2Book(b) => b.wf(),
        }
    }
}

/// View of `SequencerMessage`.
pub ghost struct SeqMsgV {
    pub sequence_number: u64,
}

/// View of `SequencerResponse`.
pub ghost struct SeqRespV {
    pub version: u64,
    pub messages: Seq<SeqMsgV>,
}

/// The subscription body of an outbound request.
#[derive(Clone, Debug, PartialEq, Eq)]
pub struct Sub {
    pub type_: Vec<u8>,
    pub coin: Vec<u8>,
}

impl View for Sub {
    type V = SubV;

    open spec fn view(&self) -> SubV {
        SubV { type_: self.type_@, coin: self.coin@ }
    }
}

/// An outbound subscription request.
#[derive(Clone, Debug, PartialEq, Eq)]
pub struct Method {
    pub method: Vec<u8>,
    pub subscription: Sub,
}

impl View for Method {
    type V = MethodV;

    open spec fn view(&self) -> MethodV {
        MethodV { method: self.method@, subscription: self.subscription@ }
    }
}

impl Sub {
    /// The request that subscribes one coin to the book channel.
    pub fn l2book(coin: Vec<u8>) -> (m: Method)
        ensures
            m@ == l2book_request(coin@),
            m@.wf() <==> is_plain(coin@),
    {
        let m = Method {
            method: crate::lit::x_subscribe(),
            subscription: Sub { type_: crate::lit::x_tag_book(), coin },
        };
        proof {
            assert(is_plain(l_subscribe()));
            assert(is_plain(l_tag_book()));
        }
        m
    }
}

/// The subscription body an acknowledgement echoes.
#[derive(Clone, Debug, PartialEq, Eq)]
pub struct Subscription {
    pub type_: Vec<u8>,
    pub coin: Vec<u8>,
    pub n_sig_figs: Option<u32>,
    pub mantissa: Option<u32>,
}

impl View for Subscription {
    type V = SubscriptionV;

    open spec fn view(&self) -> SubscriptionV {
        SubscriptionV {
            type_: self.type_@,
            coin: self.coin@,
            n_sig_figs: self.n_sig_figs,
            mantissa: self.mantissa,
        }
    }
}

/// The payload of an acknowledgement frame.
#[derive(Clone, Debug, PartialEq, Eq)]
pub struct MethodData {
    pub method: Vec<u8>,
    pub subscription: Subscription,
}

impl View for MethodData {
    type V = MethodDataV;

    open spec fn view(&self) -> MethodDataV {
        MethodDataV { method: self.method@, subscription: self.subscription@ }
    }
}

/// One price level of a book update.
#[derive(Clone, Debug, PartialEq, Eq)]
pub struct WsLevel {
    pub px: Vec<u8>,
    pub sz: Vec<u8>,
    pub n: u32,
}

impl View for WsLevel {
    type V = LevelV;

    open spec fn view(&self) -> LevelV {
        LevelV { px: self.px@, sz: self.sz@, n: self.n }
    }
}

/// One book update: bid levels and ask levels at one exchange timestamp.
#[derive(Clone, Debug, PartialEq, Eq)]
pub struct WsBook {
    pub coin: Vec<u8>,
    pub time: u64,
    pub bids: Vec<WsLevel>,
    pub asks: Vec<WsLevel>,
}

impl View for WsBook {
    type V = BookV;

    open spec fn view(&self) -> BookV {
        BookV {
            coin: self.coin@,
            time: self.time,
            bids: self.bids@.map_values(|l: WsLevel| l@),
            asks: self.asks@.map_values(|l: WsLevel| l@),
        }
    }
}

impl WsBook {
    /// The exchange timestamp, in milliseconds since the epoch.
    pub fn time(&self) -> (t: u64)
        ensures
            t == self.time,
    {
        self.time
    }
}

/// One inbound frame, discriminated by the wire's channel field.
#[derive(Clone, Debug, PartialEq, Eq)]
pub enum Message {
    SubRes(MethodData),
    L2Book(WsBook),
}

impl View for Message {
    type V = MessageV;

    open spec fn view(&self) -> MessageV {
        match self {
            Message::SubRes(d) => MessageV::SubRes(d@),
            Message::L2Book(b) => MessageV::L2Book(b@),
        }
    }
}

/// One entry of the sequencer envelope.
#[derive(Clone, Debug, PartialEq, Eq)]
pub struct SequencerMessage {
    pub sequence_number: u64,
}

impl View for SequencerMessage {
    type V = SeqMsgV;

    open spec fn view(&self) -> SeqMsgV {
        SeqMsgV { sequence_number: self.sequence_number }
    }
}

/// The flat envelope the sequencer feed pushes.
#[derive(Clone, Debug, PartialEq, Eq)]
pub struct SequencerResponse {
    pub version: u64,
    pub messages: Vec<SequencerMessage>,
}

impl View for SequencerResponse {
    type V = SeqRespV;

    open spec fn view(&self) -> SeqRespV {
        SeqRespV {
            version: self.version,
            messages: self.messages@.map_values(|m: SequencerMessage| m@),
        }
    }
}

/// The capture configuration: quote currency and the coins to subscribe.
#[derive(Clone, Debug, PartialEq, Eq)]
pub struct HyperRawPriceConfig {
    pub quote: Vec<u8>,
    pub assets: Vec<Vec<u8>>,
}

/// Why a frame was rejected.
#[derive(Clone, Copy, Debug, PartialEq, Eq)]
pub enum DecodeReason {
    /// The frame does not follow the framing grammar at all.
    Malformed,
    /// The channel tag is none of the known ones.
    UnknownChannel,
}

/// A rejected frame: the offending text and the structural reason.
#[derive(Clone, Debug, PartialEq, Eq)]
pub struct DecodeError {
    pub text: Vec<u8>,
    pub reason: DecodeReason,
}

} // verus!
