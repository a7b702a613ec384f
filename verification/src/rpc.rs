//! The binary-RPC transport codec: MessagePack framing for the request and
//! dual-shape parsing for the reply.
//!
//! The request wire shape is fixed by the remote call convention:
//! `(((src, dest, weight),), ())`, i.e. a two-element array holding a
//! one-element array with the edge triple, and a nil for "no keyword
//! arguments". Strings use the shortest string header, the weight travels
//! as an IEEE-754 double (marker 203) in big-endian byte order.
//!
//! The reply carries no success/failure tag: it is first read as an array of
//! `(string, string, double)` triples (success), then as a single string
//! (remote error), and counts as undecodable only when both shapes fail.

use vstd::prelude::*;

use crate::outcome::{outcome_view, DeliveryError, ErrorView};
use crate::rest::push_all;

verus! {

/// One stored edge as echoed by the remote service; the weight is carried
/// as the bit pattern of its IEEE-754 double.
#[derive(Debug, PartialEq, Eq)]
pub struct Triple {
    pub src: Vec<u8>,
    pub dest: Vec<u8>,
    pub weight_bits: u64,
}

/// Mathematical image of a `Triple`.
pub struct TripleView {
    pub src: Seq<u8>,
    pub dest: Seq<u8>,
    pub weight_bits: u64,
}

impl View for Triple {
    type V = TripleView;

    open spec fn view(&self) -> TripleView {
        TripleView { src: self.src@, dest: self.dest@, weight_bits: self.weight_bits }
    }
}

/// The bytes of `Server error: `.
pub open spec fn lit_server_error_prefix() -> Seq<u8> {
    seq![83u8, 101u8, 114u8, 118u8, 101u8, 114u8, 32u8, 101u8, 114u8, 114u8, 111u8, 114u8, 58u8, 32u8]
}

fn push_server_error_prefix(out: &mut Vec<u8>)
    ensures
        final(out)@ == old(out)@ + lit_server_error_prefix(),
{
    out.push(83);
    out.push(101);
    out.push(114);
    out.push(118);
    out.push(101);
    out.push(114);
    out.push(32);
    out.push(101);
    out.push(114);
    out.push(114);
    out.push(111);
    out.push(114);
    out.push(58);
    out.push(32);
    proof {
        assert(out@ =~= old(out)@ + lit_server_error_prefix());
    }
}

/// The shortest MessagePack string header for a payload of `len` bytes.
pub open spec fn mp_str_header(len: int) -> Seq<u8> {
    if len < 32 {
        seq![(160 + len) as u8]
    } else if len < 256 {
        seq![217u8, len as u8]
    } else if len < 65536 {
        seq![218u8, (len / 256) as u8, (len % 256) as u8]
    } else {
        seq![
            219u8,
            ((len / 16777216) % 256) as u8,
            ((len / 65536) % 256) as u8,
            ((len / 256) % 256) as u8,
            (len % 256) as u8,
        ]
    }
}

/// A MessagePack string: header then payload.
pub open spec fn mp_str(s: Seq<u8>) -> Seq<u8> {
    mp_str_header(s.len() as int) + s
}

/// The eight big-endian bytes of a 64-bit value.
pub open spec fn be8(bits: u64) -> Seq<u8> {
    seq![
        ((bits >> 56) & 255) as u8,
        ((bits >> 48) & 255) as u8,
        ((bits >> 40) & 255) as u8,
        ((bits >> 32) & 255) as u8,
        ((bits >> 24) & 255) as u8,
        ((bits >> 16) & 255) as u8,
        ((bits >> 8) & 255) as u8,
        (bits & 255) as u8,
    ]
}

/// A MessagePack double: marker 203 then the big-endian bit pattern.
pub open spec fn mp_f64(bits: u64) -> Seq<u8> {
    seq![203u8] + be8(bits)
}

/// The whole request for one edge: `[[ [src, dest, weight] ], nil]`.
pub open spec fn rpc_request_spec(src: Seq<u8>, dest: Seq<u8>, weight_bits: u64) -> Seq<u8> {
    seq![146u8, 145u8, 147u8] + mp_str(src) + mp_str(dest) + mp_f64(weight_bits) + seq![192u8]
}

proof fn lemma_and_255(x: u64)
    ensures
        x & 255 < 256,
{
    assert(x & 255 < 256) by (bit_vector);
}

fn push_mp_str(out: &mut Vec<u8>, s: &Vec<u8>)
    requires
        s@.len() <= 0xffff_ffff,
    ensures
        final(out)@ == old(out)@ + mp_str(s@),
{
    let len = s.len();
    if len < 32 {
        out.push((160 + len) as u8);
    } else if len < 256 {
        out.push(217);
        out.push(len as u8);
    } else if len < 65536 {
        out.push(218);
        out.push((len / 256) as u8);
        out.push((len % 256) as u8);
    } else {
        out.push(219);
        out.push(((len / 16777216) % 256) as u8);
        out.push(((len / 65536) % 256) as u8);
        out.push(((len / 256) % 256) as u8);
        out.push((len % 256) as u8);
    }
    proof {
        assert(out@ =~= old(out)@ + mp_str_header(s@.len() as int));
    }
    push_all(out, s);
    proof {
        assert(out@ =~= old(out)@ + mp_str(s@));
    }
}

fn push_mp_f64(out: &mut Vec<u8>, bits: u64)
    ensures
        final(out)@ == old(out)@ + mp_f64(bits),
{
    proof {
        lemma_and_255(bits >> 56);
        lemma_and_255(bits >> 48);
        lemma_and_255(bits >> 40);
        lemma_and_255(bits >> 32);
        lemma_and_255(bits >> 24);
        lemma_and_255(bits >> 16);
        lemma_and_255(bits >> 8);
        lemma_and_255(bits);
    }
    out.push(203);
    out.push(((bits >> 56) & 255) as u8);
    out.push(((bits >> 48) & 255) as u8);
    out.push(((bits >> 40) & 255) as u8);
    out.push(((bits >> 32) & 255) as u8);
    out.push(((bits >> 24) & 255) as u8);
    out.push(((bits >> 16) & 255) as u8);
    out.push(((bits >> 8) & 255) as u8);
    out.push((bits & 255) as u8);
    proof {
        assert(out@ =~= old(out)@ + mp_f64(bits));
    }
}

/// Frames the request for one edge. The weight is handed over as the bit
/// pattern of its IEEE-754 double, so the framing itself is exact.
pub fn encode_rpc_request(src: &Vec<u8>, dest: &Vec<u8>, weight_bits: u64) -> (out: Vec<u8>)
    requires
        src@.len() <= 0xffff_ffff,
        dest@.len() <= 0xffff_ffff,
    ensures
        out@ == rpc_request_spec(src@, dest@, weight_bits),
{
    let mut out: Vec<u8> = Vec::new();
    out.push(146);
    out.push(145);
    out.push(147);
    push_mp_str(&mut out, src);
    push_mp_str(&mut out, dest);
    push_mp_f64(&mut out, weight_bits);
    out.push(192);
    proof {
        assert(out@ =~= rpc_request_spec(src@, dest@, weight_bits));
    }
    out
}

/// The big-endian value of two bytes.
pub open spec fn be_val2(msg: Seq<u8>, i: int) -> int {
    msg[i] * 256 + msg[i + 1]
}

/// The big-endian value of four bytes.
pub open spec fn be_val4(msg: Seq<u8>, i: int) -> int {
    ((msg[i] * 256 + msg[i + 1]) * 256 + msg[i + 2]) * 256 + msg[i + 3]
}

/// The big-endian value of eight bytes.
pub open spec fn be8_val(msg: Seq<u8>, i: int) -> u64 {
    ((msg[i] as u64) << 56) | ((msg[i + 1] as u64) << 48) | ((msg[i + 2] as u64) << 40) | ((msg[i
        + 3] as u64) << 32) | ((msg[i + 4] as u64) << 24) | ((msg[i + 5] as u64) << 16) | ((msg[i
        + 6] as u64) << 8) | (msg[i + 7] as u64)
}

/// Reads one MessagePack string at position `i`: the payload and the
/// position after it.
pub open spec fn parse_str_at(msg: Seq<u8>, i: int) -> Option<(Seq<u8>, int)> {
    if 0 <= i && i < msg.len() {
        let m = msg[i];
        if 160 <= m && m <= 191 {
            let n = (m - 160) as int;
            if i + 1 + n <= msg.len() {
                Some((msg.subrange(i + 1, i + 1 + n), i + 1 + n))
            } else {
                None
            }
        } else if m == 217 {
            if i + 2 <= msg.len() {
                let n = msg[i + 1] as int;
                if i + 2 + n <= msg.len() {
                    Some((msg.subrange(i + 2, i + 2 + n), i + 2 + n))
                } else {
                    None
                }
            } else {
                None
            }
        } else if m == 218 {
            if i + 3 <= msg.len() {
                let n = be_val2(msg, i + 1);
                if i + 3 + n <= msg.len() {
                    Some((msg.subrange(i + 3, i + 3 + n), i + 3 + n))
                } else {
                    None
                }
            } else {
                None
            }
        } else if m == 219 {
            if i + 5 <= msg.len() {
                let n = be_val4(msg, i + 1);
                if i + 5 + n <= msg.len() {
                    Some((msg.subrange(i + 5, i + 5 + n), i + 5 + n))
                } else {
                    None
                }
            } else {
                None
            }
        } else {
            None
        }
    } else {
        None
    }
}

/// Reads one MessagePack double at position `i`: its bit pattern and the
/// position after it.
pub open spec fn parse_f64_at(msg: Seq<u8>, i: int) -> Option<(u64, int)> {
    if 0 <= i && i + 9 <= msg.len() && msg[i] == 203 {
        Some((be8_val(msg, i + 1), i + 9))
    } else {
        None
    }
}

/// Reads one MessagePack array header at position `i`: the element count
/// and the position of the first element.
pub open spec fn parse_array_at(msg: Seq<u8>, i: int) -> Option<(int, int)> {
    if 0 <= i && i < msg.len() {
        let m = msg[i];
        if 144 <= m && m <= 159 {
            Some(((m - 144) as int, i + 1))
        } else if m == 220 {
            if i + 3 <= msg.len() {
                Some((be_val2(msg, i + 1), i + 3))
            } else {
                None
            }
        } else if m == 221 {
            if i + 5 <= msg.len() {
                Some((be_val4(msg, i + 1), i + 5))
            } else {
                None
            }
        } else {
            None
        }
    } else {
        None
    }
}

/// Reads one `(string, string, double)` triple: a three-element array.
pub open spec fn parse_triple_at(msg: Seq<u8>, i: int) -> Option<(TripleView, int)> {
    match parse_array_at(msg, i) {
        Some((n, j)) => if n == 3 {
            match parse_str_at(msg, j) {
                Some((src, j2)) => match parse_str_at(msg, j2) {
                    Some((dest, j3)) => match parse_f64_at(msg, j3) {
                        Some((w, j4)) => Some(
                            (TripleView { src, dest, weight_bits: w }, j4),
                        ),
                        None => None,
                    },
                    None => None,
                },
                None => None,
            }
        } else {
            None
        },
        None => None,
    }
}

/// Reads `k` consecutive triples starting at position `i`.
pub open spec fn parse_triples_at(msg: Seq<u8>, i: int, k: nat) -> Option<(Seq<TripleView>, int)>
    decreases k,
{
    if k == 0 {
        Some((Seq::<TripleView>::empty(), i))
    } else {
        match parse_triple_at(msg, i) {
            Some((t, j)) => match parse_triples_at(msg, j, (k - 1) as nat) {
                Some((ts, e)) => Some((seq![t] + ts, e)),
                None => None,
            },
            None => None,
        }
    }
}

/// The success shape: the whole reply is an array of triples.
pub open spec fn reply_triples(msg: Seq<u8>) -> Option<Seq<TripleView>> {
    match parse_array_at(msg, 0) {
        Some((n, j)) => match parse_triples_at(msg, j, n as nat) {
            Some((ts, e)) => if e == msg.len() {
                Some(ts)
            } else {
                None
            },
            None => None,
        },
        None => None,
    }
}

/// The error shape: the whole reply is a single string.
pub open spec fn reply_text(msg: Seq<u8>) -> Option<Seq<u8>> {
    match parse_str_at(msg, 0) {
        Some((s, e)) => if e == msg.len() {
            Some(s)
        } else {
            None
        },
        None => None,
    }
}

fn copy_range(msg: &Vec<u8>, start: usize, end: usize) -> (out: Vec<u8>)
    requires
        start <= end,
        end <= msg@.len(),
    ensures
        out@ == msg@.subrange(start as int, end as int),
{
    let mut out: Vec<u8> = Vec::new();
    let mut i: usize = start;
    while i < end
        invariant
            start <= i <= end,
            end <= msg@.len(),
            out@ =~= msg@.subrange(start as int, i as int),
        decreases end - i,
    {
        out.push(msg[i]);
        i = i + 1;
        proof {
            let pre = msg@.subrange(start as int, i as int);
            assert(pre.drop_last() =~= msg@.subrange(start as int, i - 1));
            assert(pre.last() == msg@[i - 1]);
            assert(out@ =~= pre);
        }
    }
    proof {
        assert(out@ =~= msg@.subrange(start as int, end as int));
    }
    out
}

fn parse_str_from(msg: &Vec<u8>, i: usize) -> (r: Option<(Vec<u8>, usize)>)
    requires
        i <= msg@.len(),
    ensures
        match r {
            Some((s, j)) => parse_str_at(msg@, i as int) == Some((s@, j as int)) && j
                <= msg@.len(),
            None => parse_str_at(msg@, i as int) is None,
        },
{
    if i >= msg.len() {
        return None;
    }
    let m = msg[i];
    if 160 <= m && m <= 191 {
        let n = (m - 160) as usize;
        if msg.len() - (i + 1) >= n {
            let s = copy_range(msg, i + 1, i + 1 + n);
            Some((s, i + 1 + n))
        } else {
            None
        }
    } else if m == 217 {
        if msg.len() - i >= 2 {
            let n = msg[i + 1] as usize;
            if msg.len() - (i + 2) >= n {
                let s = copy_range(msg, i + 2, i + 2 + n);
                Some((s, i + 2 + n))
            } else {
                None
            }
        } else {
            None
        }
    } else if m == 218 {
        if msg.len() - i >= 3 {
            let n = (msg[i + 1] as usize) * 256 + (msg[i + 2] as usize);
            if msg.len() - (i + 3) >= n {
                let s = copy_range(msg, i + 3, i + 3 + n);
                Some((s, i + 3 + n))
            } else {
                None
            }
        } else {
            None
        }
    } else if m == 219 {
        if msg.len() - i >= 5 {
            let n64 = (((msg[i + 1] as u64) * 256 + (msg[i + 2] as u64)) * 256 + (msg[i + 3]
                as u64)) * 256 + (msg[i + 4] as u64);
            if ((msg.len() - (i + 5)) as u64) >= n64 {
                let n = n64 as usize;
                let s = copy_range(msg, i + 5, i + 5 + n);
                Some((s, i + 5 + n))
            } else {
                None
            }
        } else {
            None
        }
    } else {
        None
    }
}

fn parse_f64_from(msg: &Vec<u8>, i: usize) -> (r: Option<(u64, usize)>)
    requires
        i <= msg@.len(),
    ensures
        match r {
            Some((w, j)) => parse_f64_at(msg@, i as int) == Some((w, j as int)) && j
                <= msg@.len(),
            None => parse_f64_at(msg@, i as int) is None,
        },
{
    if msg.len() - i >= 9 && msg[i] == 203 {
        let bits = ((msg[i + 1] as u64) << 56) | ((msg[i + 2] as u64) << 48) | ((msg[i + 3]
            as u64) << 40) | ((msg[i + 4] as u64) << 32) | ((msg[i + 5] as u64) << 24) | ((msg[i
            + 6] as u64) << 16) | ((msg[i + 7] as u64) << 8) | (msg[i + 8] as u64);
        Some((bits, i + 9))
    } else {
        None
    }
}

fn parse_array_from(msg: &Vec<u8>, i: usize) -> (r: Option<(usize, usize)>)
    requires
        i <= msg@.len(),
    ensures
        match r {
            Some((n, j)) => parse_array_at(msg@, i as int) == Some((n as int, j as int)) && j
                <= msg@.len(),
            None => parse_array_at(msg@, i as int) is None,
        },
{
    if i >= msg.len() {
        return None;
    }
    let m = msg[i];
    if 144 <= m && m <= 159 {
        Some(((m - 144) as usize, i + 1))
    } else if m == 220 {
        if msg.len() - i >= 3 {
            Some(((msg[i + 1] as usize) * 256 + (msg[i + 2] as usize), i + 3))
        } else {
            None
        }
    } else if m == 221 {
        if msg.len() - i >= 5 {
            let n64 = (((msg[i + 1] as u64) * 256 + (msg[i + 2] as u64)) * 256 + (msg[i + 3]
                as u64)) * 256 + (msg[i + 4] as u64);
            proof {
                assert(n64 <= 0xffff_ffffu64);
            }
            Some((n64 as usize, i + 5))
        } else {
            None
        }
    } else {
        None
    }
}

fn parse_triple_from(msg: &Vec<u8>, i: usize) -> (r: Option<(Triple, usize)>)
    requires
        i <= msg@.len(),
    ensures
        match r {
            Some((t, j)) => parse_triple_at(msg@, i as int) == Some((t@, j as int)) && j
                <= msg@.len(),
            None => parse_triple_at(msg@, i as int) is None,
        },
{
    match parse_array_from(msg, i) {
        None => None,
        Some((n, j)) => {
            if n != 3 {
                return None;
            }
            match parse_str_from(msg, j) {
                None => None,
                Some((src, j2)) => match parse_str_from(msg, j2) {
                    None => None,
                    Some((dest, j3)) => match parse_f64_from(msg, j3) {
                        None => None,
                        Some((w, j4)) => Some((Triple { src, dest, weight_bits: w }, j4)),
                    },
                },
            }
        },
    }
}

fn parse_triples_from(msg: &Vec<u8>, i: usize, k: usize) -> (r: Option<(Vec<Triple>, usize)>)
    requires
        i <= msg@.len(),
    ensures
        match r {
            Some((ts, j)) => parse_triples_at(msg@, i as int, k as nat) == Some(
                (ts@.map_values(|t: Triple| t@), j as int),
            ) && j <= msg@.len(),
            None => parse_triples_at(msg@, i as int, k as nat) is None,
        },
    decreases k,
{
    if k == 0 {
        let ts: Vec<Triple> = Vec::new();
        proof {
            assert(ts@.map_values(|t: Triple| t@) =~= Seq::<TripleView>::empty());
        }
        Some((ts, i))
    } else {
        match parse_triple_from(msg, i) {
            None => None,
            Some((t, j)) => {
                let ghost tv = t@;
                match parse_triples_from(msg, j, k - 1) {
                    None => None,
                    Some((rest, e)) => {
                        let ghost rv = rest@;
                        let mut ts = rest;
                        ts.insert(0, t);
                        proof {
                            assert(ts@ =~= seq![ts@[0]] + rv);
                            assert(ts@.map_values(|x: Triple| x@) =~= seq![tv] + rv.map_values(
                                |x: Triple| x@,
                            ));
                        }
                        Some((ts, e))
                    },
                }
            },
        }
    }
}

/// Reads a whole reply as the success shape: every stored triple, in reply
/// order, and nothing after them.
pub fn reply_stored_triples(msg: &Vec<u8>) -> (r: Option<Vec<Triple>>)
    ensures
        match r {
            Some(ts) => reply_triples(msg@) == Some(ts@.map_values(|t: Triple| t@)),
            None => reply_triples(msg@) is None,
        },
{
    match parse_array_from(msg, 0) {
        None => None,
        Some((n, j)) => match parse_triples_from(msg, j, n) {
            None => None,
            Some((ts, e)) => if e == msg.len() {
                Some(ts)
            } else {
                None
            },
        },
    }
}

/// Reads a whole reply as the error shape: one string and nothing after it.
pub fn reply_error_text(msg: &Vec<u8>) -> (r: Option<Vec<u8>>)
    ensures
        match r {
            Some(s) => reply_text(msg@) == Some(s@),
            None => reply_text(msg@) is None,
        },
{
    match parse_str_from(msg, 0) {
        None => None,
        Some((s, e)) => if e == msg.len() {
            Some(s)
        } else {
            None
        },
    }
}

/// What came back from one binary-RPC delivery attempt.
pub enum RpcReply {
    /// Dialing, sending or receiving failed; the transport's description.
    Failure(Vec<u8>),
    /// One reply message was received with these bytes.
    Message(Vec<u8>),
}

/// Mathematical image of an `RpcReply`.
pub enum RpcReplyView {
    Failure(Seq<u8>),
    Message(Seq<u8>),
}

impl View for RpcReply {
    type V = RpcReplyView;

    open spec fn view(&self) -> RpcReplyView {
        match self {
            RpcReply::Failure(m) => RpcReplyView::Failure(m@),
            RpcReply::Message(b) => RpcReplyView::Message(b@),
        }
    }
}

/// The remote-rejection message shown for the error shape.
pub open spec fn server_error_message(text: Seq<u8>) -> Seq<u8> {
    lit_server_error_prefix() + text
}

/// What one reply message means: triples are a success (the outcome message
/// is empty; the echo carries no text), a string is a remote rejection, and
/// anything else is undecodable.
pub open spec fn rpc_message_spec(msg: Seq<u8>) -> Result<Seq<u8>, ErrorView> {
    if reply_triples(msg) is Some {
        Ok(Seq::<u8>::empty())
    } else if reply_text(msg) is Some {
        Err(ErrorView::Remote(server_error_message(reply_text(msg)->Some_0)))
    } else {
        Err(ErrorView::Decode)
    }
}

/// The outcome of one binary-RPC delivery.
pub open spec fn rpc_outcome_spec(reply: RpcReplyView) -> Result<Seq<u8>, ErrorView> {
    match reply {
        RpcReplyView::Failure(m) => Err(ErrorView::Transport(m)),
        RpcReplyView::Message(b) => rpc_message_spec(b),
    }
}

/// Turns one binary-RPC reply into the record's outcome, trying the success
/// shape first and the error shape second.
pub fn rpc_outcome(reply: RpcReply) -> (r: Result<Vec<u8>, DeliveryError>)
    ensures
        outcome_view(r) == rpc_outcome_spec(reply@),
{
    match reply {
        RpcReply::Failure(m) => Err(DeliveryError::Transport(m)),
        RpcReply::Message(msg) => {
            match reply_stored_triples(&msg) {
                Some(_) => Ok(Vec::new()),
                None => match reply_error_text(&msg) {
                    Some(text) => {
                        let mut out: Vec<u8> = Vec::new();
                        push_server_error_prefix(&mut out);
                        push_all(&mut out, &text);
                        Err(DeliveryError::Remote(out))
                    },
                    None => Err(DeliveryError::Decode),
                },
            }
        },
    }
}

proof fn lemma_u32_from_bytes(len: u64)
    requires
        len <= 0xffff_ffff,
    ensures
        ((((len / 16777216) % 256) * 256 + ((len / 65536) % 256)) * 256 + ((len / 256) % 256))
            * 256 + (len % 256) == len,
{
    assert(len <= 0xffff_ffff ==> ((((len / 16777216) % 256) * 256 + ((len / 65536) % 256)) * 256
        + ((len / 256) % 256)) * 256 + (len % 256) == len) by (bit_vector);
}

proof fn lemma_u16_from_bytes(len: u64)
    requires
        len <= 0xffff,
    ensures
        (len / 256) * 256 + (len % 256) == len,
{
    assert(len <= 0xffff ==> (len / 256) * 256 + (len % 256) == len) by (bit_vector);
}

/// Framing and parsing agree on strings: a framed string standing anywhere
/// in a message is read back exactly, whatever follows it.
pub proof fn lemma_mp_str_parses(pre: Seq<u8>, s: Seq<u8>, rest: Seq<u8>)
    requires
        s.len() <= 0xffff_ffff,
    ensures
        parse_str_at(pre + mp_str(s) + rest, pre.len() as int) == Some(
            (s, pre.len() + mp_str(s).len() as int),
        ),
{
    let msg = pre + mp_str(s) + rest;
    let i = pre.len() as int;
    let len = s.len() as int;
    let h = mp_str_header(len);
    assert(msg[i] == h[0]);
    if len < 32 {
        assert(msg[i] == (160 + len) as u8);
        assert(msg.subrange(i + 1, i + 1 + len) =~= s);
    } else if len < 256 {
        assert(msg[i] == 217);
        assert(msg[i + 1] == len as u8);
        assert(msg.subrange(i + 2, i + 2 + len) =~= s);
    } else if len < 65536 {
        assert(msg[i] == 218);
        assert(msg[i + 1] == (len / 256) as u8);
        assert(msg[i + 2] == (len % 256) as u8);
        lemma_u16_from_bytes(s.len() as u64);
        assert(be_val2(msg, i + 1) == len);
        assert(msg.subrange(i + 3, i + 3 + len) =~= s);
    } else {
        assert(msg[i] == 219);
        assert(msg[i + 1] == ((len / 16777216) % 256) as u8);
        assert(msg[i + 2] == ((len / 65536) % 256) as u8);
        assert(msg[i + 3] == ((len / 256) % 256) as u8);
        assert(msg[i + 4] == (len % 256) as u8);
        lemma_u32_from_bytes(s.len() as u64);
        assert(be_val4(msg, i + 1) == len);
        assert(msg.subrange(i + 5, i + 5 + len) =~= s);
    }
}

/// Framing and parsing agree on doubles: a framed double standing anywhere
/// in a message is read back bit for bit.
pub proof fn lemma_mp_f64_parses(pre: Seq<u8>, bits: u64, rest: Seq<u8>)
    ensures
        parse_f64_at(pre + mp_f64(bits) + rest, pre.len() as int) == Some(
            (bits, pre.len() + 9int),
        ),
{
    let msg = pre + mp_f64(bits) + rest;
    let i = pre.len() as int;
    lemma_and_255(bits >> 56);
    lemma_and_255(bits >> 48);
    lemma_and_255(bits >> 40);
    lemma_and_255(bits >> 32);
    lemma_and_255(bits >> 24);
    lemma_and_255(bits >> 16);
    lemma_and_255(bits >> 8);
    lemma_and_255(bits);
    assert(msg[i] == 203);
    assert(msg[i + 1] == ((bits >> 56) & 255) as u8);
    assert(msg[i + 2] == ((bits >> 48) & 255) as u8);
    assert(msg[i + 3] == ((bits >> 40) & 255) as u8);
    assert(msg[i + 4] == ((bits >> 32) & 255) as u8);
    assert(msg[i + 5] == ((bits >> 24) & 255) as u8);
    assert(msg[i + 6] == ((bits >> 16) & 255) as u8);
    assert(msg[i + 7] == ((bits >> 8) & 255) as u8);
    assert(msg[i + 8] == (bits & 255) as u8);
    assert((msg[i + 1] as u64) == (bits >> 56) & 255);
    assert((msg[i + 2] as u64) == (bits >> 48) & 255);
    assert((msg[i + 3] as u64) == (bits >> 40) & 255);
    assert((msg[i + 4] as u64) == (bits >> 32) & 255);
    assert((msg[i + 5] as u64) == (bits >> 24) & 255);
    assert((msg[i + 6] as u64) == (bits >> 16) & 255);
    assert((msg[i + 7] as u64) == (bits >> 8) & 255);
    assert((msg[i + 8] as u64) == bits & 255);
    assert((((bits >> 56) & 255) << 56) | (((bits >> 48) & 255) << 48) | (((bits >> 40) & 255)
        << 40) | (((bits >> 32) & 255) << 32) | (((bits >> 24) & 255) << 24) | (((bits >> 16)
        & 255) << 16) | (((bits >> 8) & 255) << 8) | (bits & 255) == bits) by (bit_vector);
    assert(be8_val(msg, i + 1) == bits);
}

/// The framed request carries exactly its edge: a reader of the wire bytes
/// finds, inside the call wrapper, precisely the `(src, dest, weight)`
/// triple that was framed.
pub proof fn lemma_request_carries_triple(src: Seq<u8>, dest: Seq<u8>, bits: u64)
    requires
        src.len() <= 0xffff_ffff,
        dest.len() <= 0xffff_ffff,
    ensures
        parse_triple_at(rpc_request_spec(src, dest, bits), 2) == Some(
            (
                TripleView { src, dest, weight_bits: bits },
                rpc_request_spec(src, dest, bits).len() - 1,
            ),
        ),
{
    let msg = rpc_request_spec(src, dest, bits);
    assert(msg[2] == 147);
    assert(parse_array_at(msg, 2) == Some((3int, 3int)));
    let pre1 = seq![146u8, 145u8, 147u8];
    let rest1 = mp_str(dest) + mp_f64(bits) + seq![192u8];
    assert(msg =~= pre1 + mp_str(src) + rest1);
    lemma_mp_str_parses(pre1, src, rest1);
    let pre2 = pre1 + mp_str(src);
    let rest2 = mp_f64(bits) + seq![192u8];
    assert(msg =~= pre2 + mp_str(dest) + rest2);
    lemma_mp_str_parses(pre2, dest, rest2);
    let pre3 = pre2 + mp_str(dest);
    assert(msg =~= pre3 + mp_f64(bits) + seq![192u8]);
    lemma_mp_f64_parses(pre3, bits, seq![192u8]);
    assert(msg.len() - 1 == pre3.len() + 9);
}

/// The reply protocol carries no success/failure tag; this is sound because
/// the two shapes exclude each other: no byte sequence parses both as an
/// array of triples and as a string, so the fallback order can never
/// mistake a success for a rejection or the reverse.
pub proof fn lemma_reply_shapes_disjoint(msg: Seq<u8>)
    ensures
        !(reply_triples(msg) is Some && reply_text(msg) is Some),
{
}

} // verus!
