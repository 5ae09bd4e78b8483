//! Moving stops onto the corridor between their neighbours.
//!
//! A stop between two others is compared with the road that joins its
//! neighbours directly.  Where it lies close to that road its position is
//! taken for noise and replaced by the nearest point of the road; where it
//! lies further off it is left alone.

use vstd::prelude::*;
use crate::geometry::{
    Measured, closest, plausible, project_onto_polyline, spec_closest, spec_feet, spec_plausible,
};
use crate::sequencer::{ascending, sequence_stops, stable_sort_of, usable};
use crate::snapping::{EngineReply, route_geometry, spec_geometry};
use crate::stop::{Coord, RawStop, Stop, StopView, raw_views, stop_views};

verus! {

/// A stop this close to its corridor, in millimetres, is moved onto it.
pub const SNAP_WITHIN: u64 = 90_000;

/// A stop this far from its corridor, in millimetres, is a branch of its
/// own.
pub const KEEP_BEYOND: u64 = 250_000;

/// The position of a stop after it was held against its corridor.
pub open spec fn spec_corrected(current: Coord, nearest: Option<Measured>) -> Coord {
    match nearest {
        Some(m) => if m.distance <= SNAP_WITHIN {
            m.point
        } else {
            current
        },
        None => current,
    }
}

/// Decides the position of a stop from the nearest point of its corridor.
/// A stop within the snapping distance moves to that point.  A stop at or
/// beyond the distance of a branch stays, and so does a stop between the two
/// distances, and one without a corridor.
pub fn corrected(current: Coord, nearest: Option<Measured>) -> (c: Coord)
    ensures
        c == spec_corrected(current, nearest),
        nearest matches Some(m) ==> (m.distance <= SNAP_WITHIN ==> c == m.point),
        nearest matches Some(m) ==> (m.distance >= KEEP_BEYOND ==> c == current),
        nearest matches Some(m) ==> (SNAP_WITHIN < m.distance < KEEP_BEYOND ==> c == current),
        nearest is None ==> c == current,
{
    match nearest {
        Some(m) => {
            if m.distance <= SNAP_WITHIN {
                m.point
            } else {
                current
            }
        },
        None => current,
    }
}

/// Stop `i` has a corridor: it stands between two stops, and both take part
/// in geometry.
pub open spec fn correctable(stops: Seq<StopView>, i: int) -> bool {
    &&& 1 <= i < stops.len() - 1
    &&& spec_plausible(stops[i - 1].longitude, stops[i - 1].latitude)
    &&& spec_plausible(stops[i + 1].longitude, stops[i + 1].latitude)
}

/// The first stop at or behind `from` that has a corridor, or the number of
/// stops where there is none.
pub open spec fn next_correctable(stops: Seq<StopView>, from: int) -> int
    decreases stops.len() - from,
{
    if from < 0 || from >= stops.len() {
        stops.len() as int
    } else if correctable(stops, from) {
        from
    } else {
        next_correctable(stops, from + 1)
    }
}

/// The stop on which a search ends has a corridor, and a search that starts
/// on it ends on it.
pub proof fn lemma_next_correctable(stops: Seq<StopView>, from: int)
    requires
        0 <= from <= stops.len(),
    ensures
        from <= next_correctable(stops, from) <= stops.len(),
        next_correctable(stops, from) < stops.len() ==> correctable(
            stops,
            next_correctable(stops, from),
        ),
        next_correctable(stops, next_correctable(stops, from)) == next_correctable(stops, from),
    decreases stops.len() - from,
{
    if from < stops.len() && !correctable(stops, from) {
        lemma_next_correctable(stops, from + 1);
    }
}

/// The stop at another position.
pub open spec fn moved(stop: StopView, to: Coord) -> StopView {
    StopView { latitude: to.lat as int, longitude: to.lon as int, ..stop }
}

/// The nearest points to `p` on the corridor that a reply of the routing
/// engine describes; none where the engine gave no corridor.
pub open spec fn spec_corridor_feet(p: Coord, reply: EngineReply) -> Seq<Coord> {
    match reply {
        EngineReply::Body(body) => match spec_geometry(body) {
            Some(line) => spec_feet(p, line),
            None => Seq::empty(),
        },
        EngineReply::Unavailable => Seq::empty(),
    }
}

fn seek(stops: &Vec<Stop>, from: usize) -> (at: usize)
    ensures
        at == next_correctable(stop_views(stops@), from as int),
        at <= stops.len(),
{
    let n = stops.len();
    let mut at = from;
    while at < n
        invariant
            n == stops.len(),
            next_correctable(stop_views(stops@), from as int) == next_correctable(
                stop_views(stops@),
                at as int,
            ),
        decreases n - at,
    {
        if 1 <= at && at < n - 1 && plausible(stops[at - 1].position()) && plausible(
            stops[at + 1].position(),
        ) {
            return at;
        }
        at += 1;
    }
    n
}

/// The correction of one route's stops in progress.  It names the corridor
/// to ask the routing engine for, projects the stop onto the corridor that
/// came back, takes the measured candidates, and goes on to the next stop.
pub struct Sanitizer {
    stops: Vec<Stop>,
    cursor: usize,
}

impl Sanitizer {
    /// The stops of the route, as corrected so far.
    pub closed spec fn stops(&self) -> Seq<StopView> {
        stop_views(self.stops@)
    }

    /// The stop to deal with next; the number of stops when none is left.
    pub closed spec fn cursor(&self) -> int {
        self.cursor as int
    }

    /// What holds of every correction in progress: the stops stand in
    /// ascending `order`, and the cursor stands on a stop that has a corridor
    /// or behind the last stop.
    pub open spec fn wf(&self) -> bool {
        &&& ascending(self.stops())
        &&& 0 <= self.cursor() <= self.stops().len()
        &&& self.cursor() == next_correctable(self.stops(), self.cursor())
    }

    /// Starts the correction of a route from the records of its raw stop
    /// file.  The records are typed and put in ascending `order` first; the
    /// cursor then stands on the first stop that has a corridor.
    pub fn begin(records: &Vec<RawStop>) -> (s: Sanitizer)
        ensures
            s.wf(),
            stable_sort_of(s.stops(), usable(raw_views(records@))),
            s.cursor() == next_correctable(s.stops(), 1),
    {
        let stops = sequence_stops(records);
        let cursor = seek(&stops, 1);
        proof {
            if stops.len() >= 1 {
                lemma_next_correctable(stop_views(stops@), 1);
            }
        }
        Sanitizer { stops, cursor }
    }

    /// The ends of the corridor to ask for next: the positions of the stops
    /// before and behind the stop at the cursor.  Nothing when every stop has
    /// been dealt with.
    pub fn corridor(&self) -> (r: Option<(Coord, Coord)>)
        requires
            self.wf(),
        ensures
            match r {
                Some((from, to)) => {
                    &&& correctable(self.stops(), self.cursor())
                    &&& from == self.stops()[self.cursor() - 1].position()
                    &&& to == self.stops()[self.cursor() + 1].position()
                },
                None => self.cursor() == self.stops().len(),
            },
    {
        if self.cursor >= self.stops.len() {
            None
        } else {
            proof {
                lemma_next_correctable(self.stops(), self.cursor());
            }
            Some((self.stops[self.cursor - 1].position(), self.stops[self.cursor + 1].position()))
        }
    }

    /// The position of the stop at the cursor, from which the caller measures
    /// the candidates.  Nothing when every stop has been dealt with.
    pub fn position(&self) -> (r: Option<Coord>)
        requires
            self.wf(),
        ensures
            match r {
                Some(here) => self.cursor() < self.stops().len() && here
                    == self.stops()[self.cursor()].position(),
                None => self.cursor() == self.stops().len(),
            },
    {
        if self.cursor >= self.stops.len() {
            None
        } else {
            Some(self.stops[self.cursor].position())
        }
    }

    /// Projects the stop at the cursor onto the corridor that the routing
    /// engine gave: the candidates that the caller measures.
    pub fn candidates(&self, reply: &EngineReply) -> (feet: Vec<Coord>)
        requires
            self.wf(),
        ensures
            self.cursor() < self.stops().len() ==> feet@ == spec_corridor_feet(
                self.stops()[self.cursor()].position(),
                *reply,
            ),
            self.cursor() == self.stops().len() ==> feet@.len() == 0,
    {
        if self.cursor >= self.stops.len() {
            return Vec::new();
        }
        match reply {
            EngineReply::Body(body) => match route_geometry(body) {
                Some(line) => project_onto_polyline(self.stops[self.cursor].position(), &line),
                None => Vec::new(),
            },
            EngineReply::Unavailable => Vec::new(),
        }
    }

    /// Takes the measured candidates for the stop at the cursor, decides its
    /// position from the closest of them, and moves the cursor to the next
    /// stop that has a corridor.  With every stop dealt with nothing changes.
    pub fn settle(&mut self, measured: &Vec<Measured>)
        requires
            old(self).wf(),
        ensures
            final(self).wf(),
            final(self).stops().len() == old(self).stops().len(),
            old(self).cursor() == old(self).stops().len() ==> {
                &&& final(self).stops() == old(self).stops()
                &&& final(self).cursor() == old(self).cursor()
            },
            old(self).cursor() < old(self).stops().len() ==> {
                &&& final(self).stops() == old(self).stops().update(
                    old(self).cursor(),
                    moved(
                        old(self).stops()[old(self).cursor()],
                        spec_corrected(
                            old(self).stops()[old(self).cursor()].position(),
                            spec_closest(measured@),
                        ),
                    ),
                )
                &&& final(self).cursor() == next_correctable(
                    final(self).stops(),
                    old(self).cursor() + 1,
                )
            },
    {
        if self.cursor < self.stops.len() {
            let at = self.cursor;
            let mut stop = self.stops[at].clone();
            let to = corrected(stop.position(), closest(measured));
            stop.longitude = to.lon;
            stop.latitude = to.lat;
            self.stops.set(at, stop);
            proof {
                let before = old(self).stops();
                let after = stop_views(self.stops@);
                assert(after =~= before.update(at as int, moved(before[at as int], to)));
                assert forall|i: int, j: int| 0 <= i <= j < after.len() implies after[i].order
                    <= after[j].order by {
                    assert(after[i].order == before[i].order);
                    assert(after[j].order == before[j].order);
                }
            }
            self.cursor = seek(&self.stops, at + 1);
            proof {
                lemma_next_correctable(self.stops(), at + 1);
            }
        }
    }

    /// The stops with their corrected positions, in ascending `order`.
    pub fn finish(self) -> (stops: Vec<Stop>)
        requires
            self.wf(),
        ensures
            stop_views(stops@) == self.stops(),
            ascending(stop_views(stops@)),
    {
        self.stops
    }
}

} // verus!
