//! The REST transport codec: frames the HTTP request for one edge and
//! interprets the HTTP reply.
//!
//! The request is a PUT of a JSON object `{"src":...,"dest":...,"weight":...,
//! "timestamp":...}` against `<base>/edge`; the node identifiers are written
//! as JSON strings with quote, backslash and control bytes escaped, and the
//! numeric fields carry their decoded texts verbatim. A reply body either
//! yields the re-serialized `message` field of its JSON object, or, when the
//! body is not such an object, a synthesized warning that embeds the raw
//! body; neither case is a failure. Only a transport breakdown is an error.

use vstd::prelude::*;

use crate::outcome::{outcome_view, DeliveryError, ErrorView};
use crate::record::{EdgeRecord, RecordView};

verus! {

/// The bytes of `{\"src\":`.
pub open spec fn lit_src_key() -> Seq<u8> {
    seq![123u8, 34u8, 115u8, 114u8, 99u8, 34u8, 58u8]
}

fn push_src_key(out: &mut Vec<u8>)
    ensures
        final(out)@ == old(out)@ + lit_src_key(),
{
    out.push(123);
    out.push(34);
    out.push(115);
    out.push(114);
    out.push(99);
    out.push(34);
    out.push(58);
    proof {
        assert(out@ =~= old(out)@ + lit_src_key());
    }
}

/// The bytes of `,\"dest\":`.
pub open spec fn lit_dest_key() -> Seq<u8> {
    seq![44u8, 34u8, 100u8, 101u8, 115u8, 116u8, 34u8, 58u8]
}

fn push_dest_key(out: &mut Vec<u8>)
    ensures
        final(out)@ == old(out)@ + lit_dest_key(),
{
    out.push(44);
    out.push(34);
    out.push(100);
    out.push(101);
    out.push(115);
    out.push(116);
    out.push(34);
    out.push(58);
    proof {
        assert(out@ =~= old(out)@ + lit_dest_key());
    }
}

/// The bytes of `,\"weight\":`.
pub open spec fn lit_weight_key() -> Seq<u8> {
    seq![44u8, 34u8, 119u8, 101u8, 105u8, 103u8, 104u8, 116u8, 34u8, 58u8]
}

fn push_weight_key(out: &mut Vec<u8>)
    ensures
        final(out)@ == old(out)@ + lit_weight_key(),
{
    out.push(44);
    out.push(34);
    out.push(119);
    out.push(101);
    out.push(105);
    out.push(103);
    out.push(104);
    out.push(116);
    out.push(34);
    out.push(58);
    proof {
        assert(out@ =~= old(out)@ + lit_weight_key());
    }
}

/// The bytes of `,\"timestamp\":`.
pub open spec fn lit_timestamp_key() -> Seq<u8> {
    seq![44u8, 34u8, 116u8, 105u8, 109u8, 101u8, 115u8, 116u8, 97u8, 109u8, 112u8, 34u8, 58u8]
}

fn push_timestamp_key(out: &mut Vec<u8>)
    ensures
        final(out)@ == old(out)@ + lit_timestamp_key(),
{
    out.push(44);
    out.push(34);
    out.push(116);
    out.push(105);
    out.push(109);
    out.push(101);
    out.push(115);
    out.push(116);
    out.push(97);
    out.push(109);
    out.push(112);
    out.push(34);
    out.push(58);
    proof {
        assert(out@ =~= old(out)@ + lit_timestamp_key());
    }
}

/// The bytes of `/edge`.
pub open spec fn lit_edge_path() -> Seq<u8> {
    seq![47u8, 101u8, 100u8, 103u8, 101u8]
}

fn push_edge_path(out: &mut Vec<u8>)
    ensures
        final(out)@ == old(out)@ + lit_edge_path(),
{
    out.push(47);
    out.push(101);
    out.push(100);
    out.push(103);
    out.push(101);
    proof {
        assert(out@ =~= old(out)@ + lit_edge_path());
    }
}

/// The bytes of `Warning: cannot decode HTTP reply: `.
pub open spec fn lit_warning_prefix() -> Seq<u8> {
    seq![87u8, 97u8, 114u8, 110u8, 105u8, 110u8, 103u8, 58u8, 32u8, 99u8, 97u8, 110u8, 110u8, 111u8, 116u8, 32u8, 100u8, 101u8, 99u8, 111u8, 100u8, 101u8, 32u8, 72u8, 84u8, 84u8, 80u8, 32u8, 114u8, 101u8, 112u8, 108u8, 121u8, 58u8, 32u8]
}

fn push_warning_prefix(out: &mut Vec<u8>)
    ensures
        final(out)@ == old(out)@ + lit_warning_prefix(),
{
    out.push(87);
    out.push(97);
    out.push(114);
    out.push(110);
    out.push(105);
    out.push(110);
    out.push(103);
    out.push(58);
    out.push(32);
    out.push(99);
    out.push(97);
    out.push(110);
    out.push(110);
    out.push(111);
    out.push(116);
    out.push(32);
    out.push(100);
    out.push(101);
    out.push(99);
    out.push(111);
    out.push(100);
    out.push(101);
    out.push(32);
    out.push(72);
    out.push(84);
    out.push(84);
    out.push(80);
    out.push(32);
    out.push(114);
    out.push(101);
    out.push(112);
    out.push(108);
    out.push(121);
    out.push(58);
    out.push(32);
    proof {
        assert(out@ =~= old(out)@ + lit_warning_prefix());
    }
}

/// Appends every byte of `s` to `out`.
pub fn push_all(out: &mut Vec<u8>, s: &Vec<u8>)
    ensures
        final(out)@ == old(out)@ + s@,
{
    let ghost base = out@;
    let mut i: usize = 0;
    while i < s.len()
        invariant
            i <= s@.len(),
            out@ =~= base + s@.subrange(0, i as int),
        decreases s@.len() - i,
    {
        out.push(s[i]);
        i = i + 1;
        proof {
            assert(s@.subrange(0, i as int).drop_last() =~= s@.subrange(0, i - 1));
            assert(out@ =~= base + s@.subrange(0, i as int));
        }
    }
    proof {
        assert(s@.subrange(0, s@.len() as int) =~= s@);
    }
}

/// The lower-case hexadecimal digit of a value below 16.
pub open spec fn hex_digit(n: int) -> u8 {
    if n < 10 {
        (48 + n) as u8
    } else {
        (87 + n) as u8
    }
}

/// How one byte appears inside a JSON string literal.
pub open spec fn escape_byte(b: u8) -> Seq<u8> {
    if b == 34 {
        seq![92u8, 34u8]
    } else if b == 92 {
        seq![92u8, 92u8]
    } else if b < 32 {
        seq![92u8, 117u8, 48u8, 48u8, hex_digit(b as int / 16), hex_digit(b as int % 16)]
    } else {
        seq![b]
    }
}

pub open spec fn escape_bytes(s: Seq<u8>) -> Seq<u8>
    decreases s.len(),
{
    if s.len() == 0 {
        Seq::<u8>::empty()
    } else {
        escape_bytes(s.drop_last()) + escape_byte(s.last())
    }
}

/// A JSON string literal holding the bytes of `s`.
pub open spec fn json_string(s: Seq<u8>) -> Seq<u8> {
    seq![34u8] + escape_bytes(s) + seq![34u8]
}

/// Appends the JSON string literal for `s` to `out`.
pub fn push_json_string(out: &mut Vec<u8>, s: &Vec<u8>)
    ensures
        final(out)@ == old(out)@ + json_string(s@),
{
    let ghost base = out@;
    out.push(34);
    let mut i: usize = 0;
    while i < s.len()
        invariant
            i <= s@.len(),
            out@ =~= base + seq![34u8] + escape_bytes(s@.subrange(0, i as int)),
        decreases s@.len() - i,
    {
        let b = s[i];
        if b == 34 {
            out.push(92);
            out.push(34);
        } else if b == 92 {
            out.push(92);
            out.push(92);
        } else if b < 32 {
            out.push(92);
            out.push(117);
            out.push(48);
            out.push(48);
            let hi: u8 = b / 16;
            let lo: u8 = b % 16;
            if hi < 10 {
                out.push(48 + hi);
            } else {
                out.push(87 + hi);
            }
            if lo < 10 {
                out.push(48 + lo);
            } else {
                out.push(87 + lo);
            }
        } else {
            out.push(b);
        }
        i = i + 1;
        proof {
            let pre = s@.subrange(0, i as int);
            assert(pre.drop_last() =~= s@.subrange(0, i - 1));
            assert(pre.last() == b);
            assert(out@ =~= base + seq![34u8] + escape_bytes(pre));
        }
    }
    proof {
        assert(s@.subrange(0, s@.len() as int) =~= s@);
    }
    out.push(34);
    proof {
        assert(out@ =~= base + json_string(s@));
    }
}

/// The full JSON request body for one record.
pub open spec fn rest_body_spec(r: RecordView) -> Seq<u8> {
    lit_src_key() + json_string(r.src) + lit_dest_key() + json_string(r.dest) + lit_weight_key()
        + r.weight + lit_timestamp_key() + r.timestamp + seq![125u8]
}

/// Frames the JSON request body for one record.
pub fn rest_body(rec: &EdgeRecord) -> (out: Vec<u8>)
    ensures
        out@ == rest_body_spec(rec@),
{
    let mut out: Vec<u8> = Vec::new();
    push_src_key(&mut out);
    push_json_string(&mut out, &rec.src);
    push_dest_key(&mut out);
    push_json_string(&mut out, &rec.dest);
    push_weight_key(&mut out);
    push_all(&mut out, &rec.weight);
    push_timestamp_key(&mut out);
    push_all(&mut out, &rec.timestamp);
    out.push(125);
    proof {
        assert(out@ =~= rest_body_spec(rec@));
    }
    out
}

/// The request endpoint: the configured base followed by `/edge`.
pub open spec fn rest_endpoint_spec(base: Seq<u8>) -> Seq<u8> {
    base + lit_edge_path()
}

/// Builds the request endpoint from the configured base.
pub fn rest_endpoint(base: &Vec<u8>) -> (out: Vec<u8>)
    ensures
        out@ == rest_endpoint_spec(base@),
{
    let mut out: Vec<u8> = Vec::new();
    push_all(&mut out, base);
    push_edge_path(&mut out);
    proof {
        assert(out@ =~= rest_endpoint_spec(base@));
    }
    out
}

/// The re-serialized `message` field of the reply body, when the body is a
/// JSON object carrying one.
pub uninterp spec fn json_message_of(body: Seq<u8>) -> Option<Seq<u8>>;

/// Relies on serde_json: parsing a byte slice into a JSON value, looking up
/// the object key `message`, and re-serializing that value compactly are
/// functions of the body bytes alone.
#[verifier::external_body]
fn extract_json_message(body: &Vec<u8>) -> (r: Option<Vec<u8>>)
    ensures
        match r {
            Some(m) => json_message_of(body@) == Some(m@),
            None => json_message_of(body@) is None,
        },
{
    let value: serde_json::Value = match serde_json::from_slice(body.as_slice()) {
        Ok(v) => v,
        Err(_) => return None,
    };
    let message = value.get("message")?;
    let text = serde_json::to_string(message).ok()?;
    Some(text.into_bytes())
}

/// The warning that stands in for an unreadable reply body.
pub open spec fn warning_message(body: Seq<u8>) -> Seq<u8> {
    lit_warning_prefix() + body
}

/// What a delivered REST reply body means: the `message` field when there is
/// one, otherwise the degrade-gracefully warning. Never an error.
pub open spec fn rest_message_spec(body: Seq<u8>) -> Seq<u8> {
    match json_message_of(body) {
        Some(m) => m,
        None => warning_message(body),
    }
}

/// What came back from one REST delivery attempt.
pub enum RestReply {
    /// The request never completed; the transport's own description.
    Failure(Vec<u8>),
    /// The request completed with this reply body.
    Body(Vec<u8>),
}

/// Mathematical image of a `RestReply`.
pub enum RestReplyView {
    Failure(Seq<u8>),
    Body(Seq<u8>),
}

impl View for RestReply {
    type V = RestReplyView;

    open spec fn view(&self) -> RestReplyView {
        match self {
            RestReply::Failure(m) => RestReplyView::Failure(m@),
            RestReply::Body(b) => RestReplyView::Body(b@),
        }
    }
}

/// The outcome of one REST delivery: a transport failure is the only error;
/// every completed reply is a success message.
pub open spec fn rest_outcome_spec(reply: RestReplyView) -> Result<Seq<u8>, ErrorView> {
    match reply {
        RestReplyView::Failure(m) => Err(ErrorView::Transport(m)),
        RestReplyView::Body(b) => Ok(rest_message_spec(b)),
    }
}

/// Turns one REST reply into the record's outcome.
pub fn rest_outcome(reply: RestReply) -> (r: Result<Vec<u8>, DeliveryError>)
    ensures
        outcome_view(r) == rest_outcome_spec(reply@),
{
    match reply {
        RestReply::Failure(m) => Err(DeliveryError::Transport(m)),
        RestReply::Body(b) => {
            match extract_json_message(&b) {
                Some(m) => Ok(m),
                None => {
                    let mut out: Vec<u8> = Vec::new();
                    push_warning_prefix(&mut out);
                    push_all(&mut out, &b);
                    Ok(out)
                },
            }
        },
    }
}

} // verus!
