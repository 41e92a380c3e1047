//! Error kinds that cross subsystem boundaries.
use vstd::prelude::*;

verus! {

/// Why a V1 ingress pipe stopped.
#[derive(Debug, Clone, Copy, PartialEq, Eq, Structural)]
pub enum Sv1IngressError {
    TranslatorDropped,
    DownstreamDropped,
    TaskFailed,
}

/// A failure reported by the telemetry transport. The transport itself runs
/// outside the library; only the message crosses the boundary.
pub enum Error {
    ReqwestError(String),
}

impl Error {
    /// The log line for this error.
    pub fn message(&self) -> (r: &String)
        ensures
            *self matches Error::ReqwestError(m) ==> r == &m,
    {
        match self {
            Error::ReqwestError(m) => m,
        }
    }
}

} // verus!
