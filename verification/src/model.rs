//! The shapes of the files that a run keeps: the raw stops of a route, and
//! the path of a route as a front end reads it.

use vstd::prelude::*;
use crate::stop::{Coord, RawStop};

verus! {

/// The raw stop file of a route.
#[derive(Debug)]
pub struct RawRouteFile {
    pub route_id: String,
    pub route_no: String,
    pub fetched_at: String,
    pub stops: Vec<RawStop>,
}

/// The paths of routes, as a collection of features.
#[derive(Debug)]
pub struct DerivedFeatureCollection {
    /// The kind of the document: a feature collection.
    pub type_: String,
    pub features: Vec<DerivedFeature>,
}

/// The path of one route.
#[derive(Debug)]
pub struct DerivedFeature {
    /// The kind of the document: a feature.
    pub type_: String,
    pub id: String,
    /// The south-west and the north-east corner of the path, where known.
    pub bbox: Option<(Coord, Coord)>,
    pub properties: FrontendProperties,
    pub geometry: RouteGeometry,
}

/// The line of a path.
#[derive(Debug)]
pub struct RouteGeometry {
    /// The kind of the geometry: a line string.
    pub type_: String,
    pub coordinates: Vec<Coord>,
}

/// What a front end shows of a route besides its line.
#[derive(Debug)]
pub struct FrontendProperties {
    pub route_id: String,
    pub route_no: String,
    /// The stops in their order, without their positions.
    pub stops: Vec<FrontendStop>,
    pub indices: RouteIndices,
    pub meta: FrontendMeta,
}

/// A stop as a front end lists it.
#[derive(Debug)]
pub struct FrontendStop {
    pub id: String,
    pub name: String,
    pub ord: i64,
    pub up_down: i64,
}

/// Where stops and the turning point lie on the line of a path.
#[derive(Debug)]
pub struct RouteIndices {
    /// The place of the turning point among the coordinates.
    pub turn_idx: usize,
    /// For each stop, in order, its place among the coordinates.
    pub stop_to_coord: Vec<usize>,
}

/// Where a path comes from.
#[derive(Debug)]
pub struct FrontendMeta {
    /// The length of the path in millimetres.
    pub total_dist: u64,
    pub source_ver: String,
}

} // verus!
