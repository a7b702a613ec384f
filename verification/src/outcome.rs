//! Per-record dispatch outcomes and the delivery error taxonomy.
//!
//! A delivery either succeeds with a human-readable message or fails with
//! one of three errors: the transport broke, the remote service rejected the
//! record with its own message, or the reply could not be interpreted under
//! any expected shape. Errors are per record only; none aborts a batch.

use vstd::prelude::*;

verus! {

/// Why one delivery failed.
#[derive(Debug, PartialEq, Eq)]
pub enum DeliveryError {
    /// Network, connection or protocol failure, with the transport's text.
    Transport(Vec<u8>),
    /// The remote service rejected the write, with its message.
    Remote(Vec<u8>),
    /// The reply matched neither expected shape.
    Decode,
}

/// Mathematical image of a `DeliveryError`.
pub enum ErrorView {
    Transport(Seq<u8>),
    Remote(Seq<u8>),
    Decode,
}

impl View for DeliveryError {
    type V = ErrorView;

    open spec fn view(&self) -> ErrorView {
        match self {
            DeliveryError::Transport(m) => ErrorView::Transport(m@),
            DeliveryError::Remote(m) => ErrorView::Remote(m@),
            DeliveryError::Decode => ErrorView::Decode,
        }
    }
}

/// Mathematical image of one outcome: the success message or the error.
pub open spec fn outcome_view(o: Result<Vec<u8>, DeliveryError>) -> Result<Seq<u8>, ErrorView> {
    match o {
        Ok(m) => Ok(m@),
        Err(e) => Err(e@),
    }
}

} // verus!
