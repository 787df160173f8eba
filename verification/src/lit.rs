//! The fixed byte sequences of the wire grammars, each as a spec value

//! beside the function that builds it at run time.

use vstd::prelude::*;

verus! {

/// `{"channel":"`
pub open spec fn l_channel() -> Seq<u8> {
    seq![123u8, 34, 99, 104, 97, 110, 110, 101, 108, 34, 58, 34]
}

pub fn x_channel() -> (r: Vec<u8>)
    ensures
        r@ == l_channel(),
{
    let mut v: Vec<u8> = Vec::new();
    v.push(123);
    v.push(34);
    v.push(99);
    v.push(104);
    v.push(97);
    v.push(110);
    v.push(110);
    v.push(101);
    v.push(108);
    v.push(34);
    v.push(58);
    v.push(34);
    proof {
        assert(v@ =~= l_channel());
    }
    v
}

/// `subscriptionResponse`
pub open spec fn l_tag_ack() -> Seq<u8> {
    seq![115u8, 117, 98, 115, 99, 114, 105, 112, 116, 105, 111, 110, 82, 101, 115, 112, 111, 110, 115, 101]
}

pub fn x_tag_ack() -> (r: Vec<u8>)
    ensures
        r@ == l_tag_ack(),
{
    let mut v: Vec<u8> = Vec::new();
    v.push(115);
    v.push(117);
    v.push(98);
    v.push(115);
    v.push(99);
    v.push(114);
    v.push(105);
    v.push(112);
    v.push(116);
    v.push(105);
    v.push(111);
    v.push(110);
    v.push(82);
    v.push(101);
    v.push(115);
    v.push(112);
    v.push(111);
    v.push(110);
    v.push(115);
    v.push(101);
    proof {
        assert(v@ =~= l_tag_ack());
    }
    v
}

/// `l2Book`
pub open spec fn l_tag_book() -> Seq<u8> {
    seq![108u8, 50, 66, 111, 111, 107]
}

pub fn x_tag_book() -> (r: Vec<u8>)
    ensures
        r@ == l_tag_book(),
{
    let mut v: Vec<u8> = Vec::new();
    v.push(108);
    v.push(50);
    v.push(66);
    v.push(111);
    v.push(111);
    v.push(107);
    proof {
        assert(v@ =~= l_tag_book());
    }
    v
}

/// `,"data":`
pub open spec fn l_data() -> Seq<u8> {
    seq![44u8, 34, 100, 97, 116, 97, 34, 58]
}

pub fn x_data() -> (r: Vec<u8>)
    ensures
        r@ == l_data(),
{
    let mut v: Vec<u8> = Vec::new();
    v.push(44);
    v.push(34);
    v.push(100);
    v.push(97);
    v.push(116);
    v.push(97);
    v.push(34);
    v.push(58);
    proof {
        assert(v@ =~= l_data());
    }
    v
}

/// `{"method":"`
pub open spec fn l_method() -> Seq<u8> {
    seq![123u8, 34, 109, 101, 116, 104, 111, 100, 34, 58, 34]
}

pub fn x_method() -> (r: Vec<u8>)
    ensures
        r@ == l_method(),
{
    let mut v: Vec<u8> = Vec::new();
    v.push(123);
    v.push(34);
    v.push(109);
    v.push(101);
    v.push(116);
    v.push(104);
    v.push(111);
    v.push(100);
    v.push(34);
    v.push(58);
    v.push(34);
    proof {
        assert(v@ =~= l_method());
    }
    v
}

/// `,"subscription":{"type":"`
pub open spec fn l_subscription() -> Seq<u8> {
    seq![44u8, 34, 115, 117, 98, 115, 99, 114, 105, 112, 116, 105, 111, 110, 34, 58, 123, 34, 116, 121, 112, 101, 34, 58, 34]
}

pub fn x_subscription() -> (r: Vec<u8>)
    ensures
        r@ == l_subscription(),
{
    let mut v: Vec<u8> = Vec::new();
    v.push(44);
    v.push(34);
    v.push(115);
    v.push(117);
    v.push(98);
    v.push(115);
    v.push(99);
    v.push(114);
    v.push(105);
    v.push(112);
    v.push(116);
    v.push(105);
    v.push(111);
    v.push(110);
    v.push(34);
    v.push(58);
    v.push(123);
    v.push(34);
    v.push(116);
    v.push(121);
    v.push(112);
    v.push(101);
    v.push(34);
    v.push(58);
    v.push(34);
    proof {
        assert(v@ =~= l_subscription());
    }
    v
}

/// `,"coin":"`
pub open spec fn l_coin() -> Seq<u8> {
    seq![44u8, 34, 99, 111, 105, 110, 34, 58, 34]
}

pub fn x_coin() -> (r: Vec<u8>)
    ensures
        r@ == l_coin(),
{
    let mut v: Vec<u8> = Vec::new();
    v.push(44);
    v.push(34);
    v.push(99);
    v.push(111);
    v.push(105);
    v.push(110);
    v.push(34);
    v.push(58);
    v.push(34);
    proof {
        assert(v@ =~= l_coin());
    }
    v
}

/// `}}`
pub open spec fn l_req_end() -> Seq<u8> {
    seq![125u8, 125]
}

pub fn x_req_end() -> (r: Vec<u8>)
    ensures
        r@ == l_req_end(),
{
    let mut v: Vec<u8> = Vec::new();
    v.push(125);
    v.push(125);
    proof {
        assert(v@ =~= l_req_end());
    }
    v
}

/// `,"nSigFigs":`
pub open spec fn l_nsig() -> Seq<u8> {
    seq![44u8, 34, 110, 83, 105, 103, 70, 105, 103, 115, 34, 58]
}

pub fn x_nsig() -> (r: Vec<u8>)
    ensures
        r@ == l_nsig(),
{
    let mut v: Vec<u8> = Vec::new();
    v.push(44);
    v.push(34);
    v.push(110);
    v.push(83);
    v.push(105);
    v.push(103);
    v.push(70);
    v.push(105);
    v.push(103);
    v.push(115);
    v.push(34);
    v.push(58);
    proof {
        assert(v@ =~= l_nsig());
    }
    v
}

/// `,"mantissa":`
pub open spec fn l_mant() -> Seq<u8> {
    seq![44u8, 34, 109, 97, 110, 116, 105, 115, 115, 97, 34, 58]
}

pub fn x_mant() -> (r: Vec<u8>)
    ensures
        r@ == l_mant(),
{
    let mut v: Vec<u8> = Vec::new();
    v.push(44);
    v.push(34);
    v.push(109);
    v.push(97);
    v.push(110);
    v.push(116);
    v.push(105);
    v.push(115);
    v.push(115);
    v.push(97);
    v.push(34);
    v.push(58);
    proof {
        assert(v@ =~= l_mant());
    }
    v
}

/// `null`
pub open spec fn l_null() -> Seq<u8> {
    seq![110u8, 117, 108, 108]
}

pub fn x_null() -> (r: Vec<u8>)
    ensures
        r@ == l_null(),
{
    let mut v: Vec<u8> = Vec::new();
    v.push(110);
    v.push(117);
    v.push(108);
    v.push(108);
    proof {
        assert(v@ =~= l_null());
    }
    v
}

/// `}}}`
pub open spec fn l_ack_end() -> Seq<u8> {
    seq![125u8, 125, 125]
}

pub fn x_ack_end() -> (r: Vec<u8>)
    ensures
        r@ == l_ack_end(),
{
    let mut v: Vec<u8> = Vec::new();
    v.push(125);
    v.push(125);
    v.push(125);
    proof {
        assert(v@ =~= l_ack_end());
    }
    v
}

/// `{"coin":"`
pub open spec fn l_book_coin() -> Seq<u8> {
    seq![123u8, 34, 99, 111, 105, 110, 34, 58, 34]
}

pub fn x_book_coin() -> (r: Vec<u8>)
    ensures
        r@ == l_book_coin(),
{
    let mut v: Vec<u8> = Vec::new();
    v.push(123);
    v.push(34);
    v.push(99);
    v.push(111);
    v.push(105);
    v.push(110);
    v.push(34);
    v.push(58);
    v.push(34);
    proof {
        assert(v@ =~= l_book_coin());
    }
    v
}

/// `,"time":`
pub open spec fn l_time() -> Seq<u8> {
    seq![44u8, 34, 116, 105, 109, 101, 34, 58]
}

pub fn x_time() -> (r: Vec<u8>)
    ensures
        r@ == l_time(),
{
    let mut v: Vec<u8> = Vec::new();
    v.push(44);
    v.push(34);
    v.push(116);
    v.push(105);
    v.push(109);
    v.push(101);
    v.push(34);
    v.push(58);
    proof {
        assert(v@ =~= l_time());
    }
    v
}

/// `,"levels":[[`
pub open spec fn l_levels() -> Seq<u8> {
    seq![44u8, 34, 108, 101, 118, 101, 108, 115, 34, 58, 91, 91]
}

pub fn x_levels() -> (r: Vec<u8>)
    ensures
        r@ == l_levels(),
{
    let mut v: Vec<u8> = Vec::new();
    v.push(44);
    v.push(34);
    v.push(108);
    v.push(101);
    v.push(118);
    v.push(101);
    v.push(108);
    v.push(115);
    v.push(34);
    v.push(58);
    v.push(91);
    v.push(91);
    proof {
        assert(v@ =~= l_levels());
    }
    v
}

/// `],[`
pub open spec fn l_mid() -> Seq<u8> {
    seq![93u8, 44, 91]
}

pub fn x_mid() -> (r: Vec<u8>)
    ensures
        r@ == l_mid(),
{
    let mut v: Vec<u8> = Vec::new();
    v.push(93);
    v.push(44);
    v.push(91);
    proof {
        assert(v@ =~= l_mid());
    }
    v
}

/// `]]}}`
pub open spec fn l_book_end() -> Seq<u8> {
    seq![93u8, 93, 125, 125]
}

pub fn x_book_end() -> (r: Vec<u8>)
    ensures
        r@ == l_book_end(),
{
    let mut v: Vec<u8> = Vec::new();
    v.push(93);
    v.push(93);
    v.push(125);
    v.push(125);
    proof {
        assert(v@ =~= l_book_end());
    }
    v
}

/// `{"px":"`
pub open spec fn l_px() -> Seq<u8> {
    seq![123u8, 34, 112, 120, 34, 58, 34]
}

pub fn x_px() -> (r: Vec<u8>)
    ensures
        r@ == l_px(),
{
    let mut v: Vec<u8> = Vec::new();
    v.push(123);
    v.push(34);
    v.push(112);
    v.push(120);
    v.push(34);
    v.push(58);
    v.push(34);
    proof {
        assert(v@ =~= l_px());
    }
    v
}

/// `,"sz":"`
pub open spec fn l_sz() -> Seq<u8> {
    seq![44u8, 34, 115, 122, 34, 58, 34]
}

pub fn x_sz() -> (r: Vec<u8>)
    ensures
        r@ == l_sz(),
{
    let mut v: Vec<u8> = Vec::new();
    v.push(44);
    v.push(34);
    v.push(115);
    v.push(122);
    v.push(34);
    v.push(58);
    v.push(34);
    proof {
        assert(v@ =~= l_sz());
    }
    v
}

/// `,"n":`
pub open spec fn l_nn() -> Seq<u8> {
    seq![44u8, 34, 110, 34, 58]
}

pub fn x_nn() -> (r: Vec<u8>)
    ensures
        r@ == l_nn(),
{
    let mut v: Vec<u8> = Vec::new();
    v.push(44);
    v.push(34);
    v.push(110);
    v.push(34);
    v.push(58);
    proof {
        assert(v@ =~= l_nn());
    }
    v
}

/// `}`
pub open spec fn l_rbrace() -> Seq<u8> {
    seq![125u8]
}

pub fn x_rbrace() -> (r: Vec<u8>)
    ensures
        r@ == l_rbrace(),
{
    let mut v: Vec<u8> = Vec::new();
    v.push(125);
    proof {
        assert(v@ =~= l_rbrace());
    }
    v
}

/// `,`
pub open spec fn l_comma() -> Seq<u8> {
    seq![44u8]
}

pub fn x_comma() -> (r: Vec<u8>)
    ensures
        r@ == l_comma(),
{
    let mut v: Vec<u8> = Vec::new();
    v.push(44);
    proof {
        assert(v@ =~= l_comma());
    }
    v
}

/// `"`
pub open spec fn l_quote() -> Seq<u8> {
    seq![34u8]
}

pub fn x_quote() -> (r: Vec<u8>)
    ensures
        r@ == l_quote(),
{
    let mut v: Vec<u8> = Vec::new();
    v.push(34);
    proof {
        assert(v@ =~= l_quote());
    }
    v
}

/// `{"version":`
pub open spec fn l_version() -> Seq<u8> {
    seq![123u8, 34, 118, 101, 114, 115, 105, 111, 110, 34, 58]
}

pub fn x_version() -> (r: Vec<u8>)
    ensures
        r@ == l_version(),
{
    let mut v: Vec<u8> = Vec::new();
    v.push(123);
    v.push(34);
    v.push(118);
    v.push(101);
    v.push(114);
    v.push(115);
    v.push(105);
    v.push(111);
    v.push(110);
    v.push(34);
    v.push(58);
    proof {
        assert(v@ =~= l_version());
    }
    v
}

/// `,"messages":[`
pub open spec fn l_messages() -> Seq<u8> {
    seq![44u8, 34, 109, 101, 115, 115, 97, 103, 101, 115, 34, 58, 91]
}

pub fn x_messages() -> (r: Vec<u8>)
    ensures
        r@ == l_messages(),
{
    let mut v: Vec<u8> = Vec::new();
    v.push(44);
    v.push(34);
    v.push(109);
    v.push(101);
    v.push(115);
    v.push(115);
    v.push(97);
    v.push(103);
    v.push(101);
    v.push(115);
    v.push(34);
    v.push(58);
    v.push(91);
    proof {
        assert(v@ =~= l_messages());
    }
    v
}

/// `]}`
pub open spec fn l_seq_end() -> Seq<u8> {
    seq![93u8, 125]
}

pub fn x_seq_end() -> (r: Vec<u8>)
    ensures
        r@ == l_seq_end(),
{
    let mut v: Vec<u8> = Vec::new();
    v.push(93);
    v.push(125);
    proof {
        assert(v@ =~= l_seq_end());
    }
    v
}

/// `{"sequenceNumber":`
pub open spec fn l_seqnum() -> Seq<u8> {
    seq![123u8, 34, 115, 101, 113, 117, 101, 110, 99, 101, 78, 117, 109, 98, 101, 114, 34, 58]
}

pub fn x_seqnum() -> (r: Vec<u8>)
    ensures
        r@ == l_seqnum(),
{
    let mut v: Vec<u8> = Vec::new();
    v.push(123);
    v.push(34);
    v.push(115);
    v.push(101);
    v.push(113);
    v.push(117);
    v.push(101);
    v.push(110);
    v.push(99);
    v.push(101);
    v.push(78);
    v.push(117);
    v.push(109);
    v.push(98);
    v.push(101);
    v.push(114);
    v.push(34);
    v.push(58);
    proof {
        assert(v@ =~= l_seqnum());
    }
    v
}

/// `EX_TS_MS=`
pub open spec fn l_ex_ts() -> Seq<u8> {
    seq![69u8, 88, 95, 84, 83, 95, 77, 83, 61]
}

pub fn x_ex_ts() -> (r: Vec<u8>)
    ensures
        r@ == l_ex_ts(),
{
    let mut v: Vec<u8> = Vec::new();
    v.push(69);
    v.push(88);
    v.push(95);
    v.push(84);
    v.push(83);
    v.push(95);
    v.push(77);
    v.push(83);
    v.push(61);
    proof {
        assert(v@ =~= l_ex_ts());
    }
    v
}

/// ` LOCAL_TS_MS=`
pub open spec fn l_local_ts() -> Seq<u8> {
    seq![32u8, 76, 79, 67, 65, 76, 95, 84, 83, 95, 77, 83, 61]
}

pub fn x_local_ts() -> (r: Vec<u8>)
    ensures
        r@ == l_local_ts(),
{
    let mut v: Vec<u8> = Vec::new();
    v.push(32);
    v.push(76);
    v.push(79);
    v.push(67);
    v.push(65);
    v.push(76);
    v.push(95);
    v.push(84);
    v.push(83);
    v.push(95);
    v.push(77);
    v.push(83);
    v.push(61);
    proof {
        assert(v@ =~= l_local_ts());
    }
    v
}

/// `SEQ_NUM=`
pub open spec fn l_seq_num_k() -> Seq<u8> {
    seq![83u8, 69, 81, 95, 78, 85, 77, 61]
}

pub fn x_seq_num_k() -> (r: Vec<u8>)
    ensures
        r@ == l_seq_num_k(),
{
    let mut v: Vec<u8> = Vec::new();
    v.push(83);
    v.push(69);
    v.push(81);
    v.push(95);
    v.push(78);
    v.push(85);
    v.push(77);
    v.push(61);
    proof {
        assert(v@ =~= l_seq_num_k());
    }
    v
}

/// `subscribe`
pub open spec fn l_subscribe() -> Seq<u8> {
    seq![115u8, 117, 98, 115, 99, 114, 105, 98, 101]
}

pub fn x_subscribe() -> (r: Vec<u8>)
    ensures
        r@ == l_subscribe(),
{
    let mut v: Vec<u8> = Vec::new();
    v.push(115);
    v.push(117);
    v.push(98);
    v.push(115);
    v.push(99);
    v.push(114);
    v.push(105);
    v.push(98);
    v.push(101);
    proof {
        assert(v@ =~= l_subscribe());
    }
    v
}

} // verus!
