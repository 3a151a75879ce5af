//! The failures that the services report.

use crate::decimal::{decimal, push_decimal};
use vstd::prelude::*;
use vstd::string::StringExecFns;

verus! {

/// Why a routing or geocoding call failed.
#[derive(Debug, Clone, Copy, PartialEq, Eq, Structural)]
pub enum ServiceError {
    /// Fewer than two waypoints were given.
    InvalidInput,
    /// The provider could not be reached.
    NetworkError,
    /// The provider answered with a status that is not a success.
    ProviderError { status: u16 },
    /// The provider found no route.
    NoRouteFound,
    /// A field of the provider's answer could not be decoded.
    ParseError,
}

/// The diagnostic sentence of a failure.
pub open spec fn error_message(error: ServiceError) -> Seq<char> {
    match error {
        ServiceError::InvalidInput => "At least 2 waypoints are required"@,
        ServiceError::NetworkError => "Provider unreachable"@,
        ServiceError::ProviderError { status } => "Routing API error: "@ + decimal(status as nat),
        ServiceError::NoRouteFound => "No route found"@,
        ServiceError::ParseError => "Malformed provider response"@,
    }
}

impl ServiceError {
    /// The diagnostic sentence of this failure.
    pub fn message(&self) -> (text: String)
        ensures
            text@ == error_message(*self),
    {
        match self {
            ServiceError::InvalidInput => String::from_str("At least 2 waypoints are required"),
            ServiceError::NetworkError => String::from_str("Provider unreachable"),
            ServiceError::ProviderError { status } => {
                let mut text = String::from_str("Routing API error: ");
                push_decimal(&mut text, *status as u64);
                text
            },
            ServiceError::NoRouteFound => String::from_str("No route found"),
            ServiceError::ParseError => String::from_str("Malformed provider response"),
        }
    }
}

} // verus!
