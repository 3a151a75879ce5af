//! Routing and geolocation services for a desktop map.
//!
//! The library builds the requests for a routing and a geocoding provider,
//! turns their replies into routes and positions, writes turn-by-turn
//! instructions, measures great-circle distances and keeps a bounded
//! history of observed positions. It performs no input or output: a caller
//! carries out each HTTP exchange and hands the reply back.
//!
//! All quantities are whole numbers of small units; the module `units`
//! names them.

pub mod decimal;
pub mod degrees;
pub mod error;
pub mod geolocation;
pub mod great_circle;
pub mod instruction;
pub mod percent;
pub mod provider;
pub mod retry;
pub mod rounding;
pub mod routing;
pub mod units;
