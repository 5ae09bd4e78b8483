//! The work on one route between the catalog's answer and the files of the
//! route.

use vstd::prelude::*;
use crate::artifact::{raw_file_name, spec_raw_file_name};
use crate::catalog::{RouteSummary, list_stops, processable, spec_stop_records};
use crate::config::BusRouteProcessor;
use crate::index::{RouteProcessData, route_data};
use crate::json::Json;
use crate::sequencer::{sequence_route, stable_sort_of, usable};
use crate::stop::{RawStop, RawStopView, Stop, StopView, raw_views, stop_views};
use crate::text::same_text;

verus! {

/// What the work on one route gives: its contribution to the index, and the
/// raw stop file to write for it.
#[derive(Debug, PartialEq, Eq)]
pub struct ProcessedRoute {
    pub data: RouteProcessData,
    /// The name of the raw stop file.
    pub file_name: String,
    /// The stops in their order, as the raw stop file holds them.
    pub raw_stops: Vec<RawStop>,
}

/// The records under which stops are written to a raw stop file.
pub open spec fn spec_raw_stops(stops: Seq<StopView>) -> Seq<RawStopView> {
    stops.map_values(|s: StopView| s.raw())
}

/// The records under which the stops are written to a raw stop file.
pub fn raw_stops(stops: &Vec<Stop>) -> (records: Vec<RawStop>)
    ensures
        raw_views(records@) == spec_raw_stops(stop_views(stops@)),
        records@.len() == stops@.len(),
        forall|k: int| 0 <= k < stops@.len() ==> (#[trigger] records@[k])@.typed() == stops@[k]@,
        forall|k: int| 0 <= k < stops@.len() ==> (#[trigger] records@[k])@ == stops@[k]@.raw(),
{
    let mut records: Vec<RawStop> = Vec::new();
    let mut i: usize = 0;
    while i < stops.len()
        invariant
            i <= stops.len(),
            records@.len() == i,
            forall|k: int| 0 <= k < i ==> (#[trigger] records@[k])@ == stops@[k]@.raw(),
            forall|k: int| 0 <= k < i ==> (#[trigger] records@[k])@.typed() == stops@[k]@,
        decreases stops.len() - i,
    {
        records.push(stops[i].to_raw());
        i += 1;
    }
    proof {
        assert(raw_views(records@) =~= spec_raw_stops(stop_views(stops@)));
    }
    records
}

impl BusRouteProcessor {
    /// Turns the catalog's answer for one route into the route's
    /// contribution to the index and its raw stop file.  `payload` is
    /// nothing where the request failed or its answer could not be decoded.
    /// A route whose number is unknown or whose id is empty, a route without
    /// a payload, and a route without a stop record that carries a node id
    /// give nothing and are passed over.
    pub fn process_single_route(&self, route: &RouteSummary, payload: Option<&Json>) -> (r: Option<
        ProcessedRoute,
    >)
        ensures
            r is None <==> (!processable(route@) || match payload {
                Some(p) => usable(spec_stop_records(*p)).len() == 0,
                None => true,
            }),
            r matches Some(done) ==> payload matches Some(p) ==> {
                &&& done.file_name@ == spec_raw_file_name(route.route_no@, route.route_id@)
                &&& done.data.route_id@ == route.route_id@
                &&& done.data.route_no@ == route.route_no@
                &&& done.data.details.route_no@ == route.route_no@
                &&& stable_sort_of(
                    raw_views(done.raw_stops@).map_values(|s: RawStopView| s.typed()),
                    usable(spec_stop_records(*p)),
                )
                &&& forall|i: int|
                    0 <= i < done.raw_stops@.len() ==> (#[trigger] done.raw_stops@[i])@
                        == done.raw_stops@[i]@.typed().raw()
                &&& done.data.details.sequence@.len() == done.raw_stops@.len()
                &&& done.data.stops_map@.len() == done.raw_stops@.len()
                &&& forall|i: int|
                    0 <= i < done.raw_stops@.len() ==> (#[trigger] done.data.details.sequence@[i])@
                        == done.raw_stops@[i]@.typed().entry()
                &&& forall|i: int|
                    0 <= i < done.raw_stops@.len() ==> {
                        &&& (#[trigger] done.data.stops_map@[i]).0@ == done.raw_stops@[i]@.node_id
                        &&& done.data.stops_map@[i].1@ == done.raw_stops@[i]@.typed().station()
                    }
            },
    {
        if same_text(route.route_no.as_str(), "UNKNOWN") || route.route_id.as_str().unicode_len()
            == 0 {
            return None;
        }
        let payload = match payload {
            Some(p) => p,
            None => {
                return None;
            },
        };
        let records = list_stops(payload);
        let record = match sequence_route(route.route_id.clone(), route.route_no.clone(), &records) {
            Some(record) => record,
            None => {
                return None;
            },
        };
        let data = route_data(&record);
        let raw = raw_stops(&record.stops);
        proof {
            assert(raw_views(raw@).map_values(|s: RawStopView| s.typed()) =~= stop_views(
                record.stops@,
            ));
        }
        Some(
            ProcessedRoute {
                data,
                file_name: raw_file_name(route.route_no.as_str(), route.route_id.as_str()),
                raw_stops: raw,
            },
        )
    }
}

} // verus!
