//! Route collection and road snapping for a public transit catalog.
//!
//! The crate holds the decisions of the pipeline: how catalog payloads are
//! normalised, how the stops of a route are ordered, how per-route results are
//! folded into the station and route index, when a stop is moved onto its
//! corridor, and how a route is cut into chunks whose road geometries are
//! joined into one tagged path.  Network and file access live with the caller,
//! which hands the library plain values and performs the actions it returns.
//!
//! Coordinates are fixed-point: longitudes and latitudes are counted in
//! millionths of a degree, distances in millimetres.

pub mod text;
pub mod json;
pub mod textmap;
pub mod stop;
pub mod catalog;
pub mod sequencer;
pub mod geometry;
pub mod snapping;
pub mod sanitizer;
pub mod index;
pub mod config;
pub mod request;
pub mod artifact;
pub mod model;
pub mod pipeline;
pub mod schedule;
pub mod telemetry;
