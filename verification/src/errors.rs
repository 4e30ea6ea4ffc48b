//! Error taxonomy of the lobby core. Every service operation reports failure
//! through one of these variants; the transport layer maps them onto its own
//! status codes.

use vstd::prelude::*;

verus! {

/// Why a service operation was refused.
///
/// `NotFound`: the addressed room or slot does not exist.
/// `Forbidden`: the acting user lacks authority for the action.
/// `Conflict`: an invariant would be violated — capacity exceeded, duplicate
/// occupancy, wrong room phase, or a lost concurrency race.
/// `ServiceUnavailable`: the external matchmaking call failed.
/// `InternalError`: a store or transport failure not attributable to the caller.
#[derive(Clone, Copy, Debug, PartialEq, Eq, Structural)]
pub enum AppError {
    NotFound,
    Forbidden,
    Conflict,
    ServiceUnavailable,
    InternalError,
}

impl AppError {
    /// Short name of the variant, for logs and transport payloads.
    pub fn label(&self) -> (r: String)
        ensures
            r@ == self.spec_label(),
    {
        match self {
            AppError::NotFound => "not_found".to_owned(),
            AppError::Forbidden => "forbidden".to_owned(),
            AppError::Conflict => "conflict".to_owned(),
            AppError::ServiceUnavailable => "service_unavailable".to_owned(),
            AppError::InternalError => "internal_error".to_owned(),
        }
    }

    pub open spec fn spec_label(self) -> Seq<char> {
        match self {
            AppError::NotFound => "not_found"@,
            AppError::Forbidden => "forbidden"@,
            AppError::Conflict => "conflict"@,
            AppError::ServiceUnavailable => "service_unavailable"@,
            AppError::InternalError => "internal_error"@,
        }
    }
}

} // verus!
