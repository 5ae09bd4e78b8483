//! The shapes of a parsed timetable.

use std::collections::HashMap;
use vstd::prelude::*;

verus! {

/// Where a route starts and ends, and every terminus it serves.
#[derive(Debug, Clone)]
pub struct RouteMeta {
    pub origin: String,
    pub destination: String,
    pub directions: Vec<String>,
}

/// One departure of a timetable.
#[derive(Debug)]
pub struct TimeEntry {
    pub time: String,
    pub note: Option<String>,
}

/// The timetable of one route for one kind of day.
#[derive(Debug)]
pub struct ParsedSchedule {
    pub route_number: String,
    pub day_type: String,
    pub directions: Vec<String>,
    pub times_by_direction: HashMap<String, Vec<TimeEntry>>,
}

} // verus!
