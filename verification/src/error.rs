//! What can go wrong while resolving travel times.

use vstd::prelude::*;

verus! {

/// The geocoding provider's answer could not be used.
#[derive(Clone, Copy, Debug, PartialEq, Eq, Structural)]
pub enum GeocodeError {
    /// The answer lists no candidate for the address.
    NoCandidate,
    /// The answer is not JSON of the expected shape.
    Malformed,
}

/// The routing provider's answer could not be used.
#[derive(Clone, Copy, Debug, PartialEq, Eq, Structural)]
pub enum RoutingError {
    /// The provider answered with a status outside 200..=299.
    Status(u16),
    /// The answer is not JSON of the expected shape.
    Malformed,
    /// A row carries a condition the engine does not know.
    UnexpectedCondition,
}

/// Any failure of the resolution engine.
#[derive(Clone, Copy, Debug, PartialEq, Eq, Structural)]
pub enum Error {
    Geocode(GeocodeError),
    Routing(RoutingError),
    /// A numeric field, such as a travel duration or a time budget, is not a
    /// number the engine can use.
    Parse,
    /// A row of the criteria form names a mode of travel the engine does not
    /// know.
    UnknownMode,
}

} // verus!
