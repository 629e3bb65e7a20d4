//! Trust policy for the server's certificate.

use std::sync::Arc;
use vstd::prelude::*;

verus! {

/// A certificate verifier that accepts whatever certificate the server shows.
/// It gives no protection against an impostor and is meant for local testing
/// only: a client must choose it explicitly.
#[derive(Debug, Clone, Copy, PartialEq, Eq, Structural)]
pub struct SkipServerVerification;

impl SkipServerVerification {
    /// A shared handle to the verifier, as TLS configurations take it.
    pub fn new() -> (r: Arc<SkipServerVerification>)
        ensures
            *r == SkipServerVerification,
    {
        Arc::new(SkipServerVerification)
    }
}

} // verus!
