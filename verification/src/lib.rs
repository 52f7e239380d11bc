//! Travel-time resolution for apartment hunting: decides which listed
//! buildings are reachable from a set of reference addresses within
//! per-criterion time budgets, with write-once caches in front of the
//! geocoding and routing providers.

pub mod batch;
pub mod cache;
pub mod color;
pub mod departure;
pub mod duration;
pub mod error;
pub mod form;
pub mod geocode;
pub mod json;
pub mod laws;
pub mod model;
pub mod rerun;
pub mod resolve;
pub mod rows;

pub use color::random_color;
pub use error::{Error, GeocodeError, RoutingError};
pub use model::{Apartment, Building, Coordinates, Criterion, TransportationMode};
pub use resolve::{Action, Resolution};
