//! The fan-out dispatcher's record-level logic.
//!
//! Workers run outside this crate; what is verified here is the per-record
//! step — one reply in, one outcome out, for either backend — and the batch
//! shape: a full run over `N` records consumes one reply per record and
//! produces exactly `N` outcomes, each depending on its own reply alone, so
//! no failure can lose, duplicate or abort another record's outcome.

use vstd::prelude::*;

use crate::outcome::{outcome_view, DeliveryError, ErrorView};
use crate::record::EdgeRecord;
use crate::rest::{rest_outcome, rest_outcome_spec, RestReply, RestReplyView};
use crate::rpc::{rpc_outcome, rpc_outcome_spec, RpcReply, RpcReplyView};

verus! {

/// What one delivery attempt brought back, tagged by the backend that ran.
pub enum BackendReply {
    Rest(RestReply),
    Rpc(RpcReply),
}

/// Mathematical image of a `BackendReply`.
pub enum BackendReplyView {
    Rest(RestReplyView),
    Rpc(RpcReplyView),
}

impl View for BackendReply {
    type V = BackendReplyView;

    open spec fn view(&self) -> BackendReplyView {
        match self {
            BackendReply::Rest(x) => BackendReplyView::Rest(x@),
            BackendReply::Rpc(x) => BackendReplyView::Rpc(x@),
        }
    }
}

/// The outcome one reply stands for, whichever backend produced it.
pub open spec fn outcome_spec(reply: BackendReplyView) -> Result<Seq<u8>, ErrorView> {
    match reply {
        BackendReplyView::Rest(x) => rest_outcome_spec(x),
        BackendReplyView::Rpc(x) => rpc_outcome_spec(x),
    }
}

/// Turns one reply into one outcome.
pub fn deliver_outcome(reply: BackendReply) -> (r: Result<Vec<u8>, DeliveryError>)
    ensures
        outcome_view(r) == outcome_spec(reply@),
{
    match reply {
        BackendReply::Rest(x) => rest_outcome(x),
        BackendReply::Rpc(x) => rpc_outcome(x),
    }
}

/// The batch-completion barrier: one reply per record in, exactly one
/// outcome per record out, in order, each determined by its own reply.
pub fn dispatch_all(records: &Vec<EdgeRecord>, replies: Vec<BackendReply>) -> (out: Vec<
    Result<Vec<u8>, DeliveryError>,
>)
    requires
        replies@.len() == records@.len(),
    ensures
        out@.len() == records@.len(),
        forall|i: int|
            0 <= i < out@.len() ==> outcome_view(#[trigger] out@[i]) == outcome_spec(
                replies@[i]@,
            ),
{
    let ghost rv = replies@;
    let mut rem = replies;
    let mut out: Vec<Result<Vec<u8>, DeliveryError>> = Vec::new();
    while rem.len() > 0
        invariant
            out@.len() + rem@.len() == rv.len(),
            rem@ =~= rv.subrange(out@.len() as int, rv.len() as int),
            forall|i: int|
                0 <= i < out@.len() ==> outcome_view(#[trigger] out@[i]) == outcome_spec(
                    rv[i]@,
                ),
        decreases rem@.len(),
    {
        let ghost k = out@.len() as int;
        let reply = rem.remove(0);
        proof {
            assert(reply@ == rv[k]@);
            assert(rem@ =~= rv.subrange(k + 1, rv.len() as int));
        }
        let oc = deliver_outcome(reply);
        out.push(oc);
    }
    out
}

} // verus!
