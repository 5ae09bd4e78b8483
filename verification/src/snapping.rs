//! Cutting a route into chunks and joining the chunks' road geometries into
//! one tagged path.

use vstd::prelude::*;
use crate::geometry::{plausible_positions, spec_plausible_positions};
use crate::json::Json;
use crate::stop::{Coord, Direction, Stop, StopView, stop_views};
use crate::text::same_text;

verus! {

/// The most stops that one request to the routing engine may carry.
pub const CHUNK_SIZE: usize = 140;

/// Whether the direction changes on stop `i`: it has a stop before it, and
/// the directions of the two differ.
pub open spec fn turns_at(stops: Seq<StopView>, i: int) -> bool {
    i >= 1 && stops[i].direction != stops[i - 1].direction
}

/// `t` is the turning point of `stops`: the first stop whose direction
/// differs from that of the stop before it, or the last stop where the
/// direction never changes.
pub open spec fn is_turning_point(stops: Seq<StopView>, t: int) -> bool {
    &&& 0 <= t < stops.len()
    &&& forall|i: int| 0 <= i < t ==> !turns_at(stops, i)
    &&& turns_at(stops, t) || t == stops.len() - 1
}

/// Finds the turning point of a route.
pub fn turning_point(stops: &Vec<Stop>) -> (t: usize)
    requires
        stops.len() > 0,
    ensures
        is_turning_point(stop_views(stops@), t as int),
{
    let n = stops.len();
    let mut i: usize = 1;
    while i < n
        invariant
            n == stops.len(),
            1 <= i <= n,
            forall|k: int| 0 <= k < i ==> !turns_at(stop_views(stops@), k),
        decreases n - i,
    {
        if stops[i].direction != stops[i - 1].direction {
            return i;
        }
        i += 1;
    }
    n - 1
}

/// A route has one turning point only.
pub proof fn lemma_turning_point_unique(stops: Seq<StopView>, a: int, b: int)
    requires
        is_turning_point(stops, a),
        is_turning_point(stops, b),
    ensures
        a == b,
{
    if a < b {
        assert(!turns_at(stops, a));
    } else if b < a {
        assert(!turns_at(stops, b));
    }
}

/// `chunks` cuts the stop indices `0..n` into runs of at most `size` stops:
/// the first run starts at the first stop, each later run starts on the last
/// stop of the run before it, every run but the last is full, and the last
/// run ends behind the last stop.  A route of fewer than two stops has no
/// chunk, and neither has any route where a chunk may not hold two stops.
pub open spec fn is_chunking(chunks: Seq<(usize, usize)>, n: int, size: int) -> bool {
    if n < 2 || size < 2 {
        chunks.len() == 0
    } else {
        &&& chunks.len() > 0
        &&& chunks[0].0 == 0
        &&& chunks.last().1 == n
        &&& forall|k: int|
            0 <= k < chunks.len() ==> 2 <= (#[trigger] chunks[k]).1 - chunks[k].0 <= size
        &&& forall|k: int|
            0 <= k < chunks.len() - 1 ==> (#[trigger] chunks[k]).1 - chunks[k].0 == size
        &&& forall|k: int|
            0 < k < chunks.len() ==> (#[trigger] chunks[k]).0 == chunks[k - 1].1 - 1
    }
}

/// Cuts the stop indices `0..n` into chunks of at most `size` stops, given as
/// pairs of a first index and the index behind the last.
pub fn chunk_ranges(n: usize, size: usize) -> (chunks: Vec<(usize, usize)>)
    ensures
        is_chunking(chunks@, n as int, size as int),
{
    let mut chunks: Vec<(usize, usize)> = Vec::new();
    if n < 2 || size < 2 {
        return chunks;
    }
    let mut start: usize = 0;
    while start < n - 1
        invariant_except_break
            chunks.len() == 0 ==> start == 0,
            chunks.len() > 0 ==> chunks[0].0 == 0 && chunks@.last().1 - 1 == start,
            forall|k: int| 0 <= k < chunks.len() ==> (#[trigger] chunks[k]).1 - chunks[k].0 == size,
        invariant
            n >= 2,
            size >= 2,
            start <= n - 1,
            forall|k: int| 0 <= k < chunks.len() ==> 2 <= (#[trigger] chunks[k]).1 - chunks[k].0 <= size,
            forall|k: int| 0 < k < chunks.len() ==> (#[trigger] chunks[k]).0 == chunks[k - 1].1 - 1,
        ensures
            chunks.len() > 0,
            chunks[0].0 == 0,
            chunks@.last().1 == n,
            forall|k: int| 0 <= k < chunks.len() ==> 2 <= (#[trigger] chunks[k]).1 - chunks[k].0 <= size,
            forall|k: int| 0 <= k < chunks.len() - 1 ==> (#[trigger] chunks[k]).1 - chunks[k].0 == size,
            forall|k: int| 0 < k < chunks.len() ==> (#[trigger] chunks[k]).0 == chunks[k - 1].1 - 1,
        decreases n - start,
    {
        if n - start <= size {
            chunks.push((start, n));
            break;
        }
        let end: usize = start + size;
        chunks.push((start, end));
        start = end - 1;
    }
    chunks
}

/// Chunk `k` is the one that brings stop `i` into the path: the first chunk
/// brings all of its stops, a later chunk all but its first, which the chunk
/// before it has brought already.
pub open spec fn chunk_brings(chunks: Seq<(usize, usize)>, k: int, i: int) -> bool {
    &&& 0 <= k < chunks.len()
    &&& if k == 0 {
        chunks[k].0 <= i
    } else {
        chunks[k].0 < i
    }
    &&& i < chunks[k].1
}

proof fn lemma_chunks_ascend(chunks: Seq<(usize, usize)>, n: int, size: int, a: int, b: int)
    requires
        is_chunking(chunks, n, size),
        0 <= a <= b < chunks.len(),
    ensures
        chunks[a].0 <= chunks[b].0,
        chunks[a].1 <= chunks[b].1,
        a < b ==> chunks[a].1 - 1 <= chunks[b].0,
    decreases b - a,
{
    if a < b {
        lemma_chunks_ascend(chunks, n, size, a, b - 1);
        assert(chunks[b].0 == chunks[b - 1].1 - 1);
        assert(chunks[b].1 - chunks[b].0 >= 2);
        assert(chunks[b - 1].1 - chunks[b - 1].0 >= 2);
    }
}

proof fn lemma_brought_below(chunks: Seq<(usize, usize)>, n: int, size: int, k: int, i: int)
    requires
        is_chunking(chunks, n, size),
        0 <= k < chunks.len(),
        0 <= i < chunks[k].1,
    ensures
        exists|j: int| chunk_brings(chunks, j, i),
    decreases k,
{
    if k == 0 {
        assert(chunk_brings(chunks, 0, i));
    } else if i > chunks[k].0 {
        assert(chunk_brings(chunks, k, i));
    } else {
        assert(chunks[k].0 == chunks[k - 1].1 - 1);
        lemma_brought_below(chunks, n, size, k - 1, i);
    }
}

/// Chunking skips no stop and repeats none: with the stop that two
/// neighbouring chunks share counted for the earlier one, every stop index of
/// a route of two or more stops belongs to exactly one chunk, where a chunk
/// may hold two stops or more.
pub proof fn lemma_chunks_cover_each_stop_once(
    chunks: Seq<(usize, usize)>,
    n: int,
    size: int,
    i: int,
)
    requires
        is_chunking(chunks, n, size),
        n >= 2,
        size >= 2,
        0 <= i < n,
    ensures
        exists|k: int| chunk_brings(chunks, k, i),
        forall|a: int, b: int| chunk_brings(chunks, a, i) && chunk_brings(chunks, b, i) ==> a == b,
{
    lemma_brought_below(chunks, n, size, chunks.len() - 1, i);
    assert forall|a: int, b: int|
        chunk_brings(chunks, a, i) && chunk_brings(chunks, b, i) implies a == b by {
        if a < b {
            lemma_chunks_ascend(chunks, n, size, a, b);
        } else if b < a {
            lemma_chunks_ascend(chunks, n, size, b, a);
        }
    }
}

/// What came back from the routing engine for one request.
#[derive(Debug, PartialEq, Eq)]
pub enum EngineReply {
    /// The request failed, the engine answered with an error status, or its
    /// answer could not be decoded.
    Unavailable,
    /// The decoded answer.
    Body(Json),
}

/// Whether a status of the engine's transport counts as success: the codes
/// from 200 to 299.
pub open spec fn spec_success(status: u16) -> bool {
    200 <= status <= 299
}

impl EngineReply {
    /// Sorts what came back for one request.  `status` is nothing where the
    /// request itself failed, and `body` is nothing where the answer could
    /// not be decoded.  Only a decoded answer under a status of success is
    /// handed on.
    pub fn from_response(status: Option<u16>, body: Option<Json>) -> (reply: EngineReply)
        ensures
            reply == (match (status, body) {
                (Some(code), Some(json)) => if spec_success(code) {
                    EngineReply::Body(json)
                } else {
                    EngineReply::Unavailable
                },
                _ => EngineReply::Unavailable,
            }),
    {
        match (status, body) {
            (Some(code), Some(json)) => {
                if 200 <= code && code <= 299 {
                    EngineReply::Body(json)
                } else {
                    EngineReply::Unavailable
                }
            },
            _ => EngineReply::Unavailable,
        }
    }
}

/// The position that a point of the engine's geometry gives: an array that
/// starts with a longitude and a latitude.
pub open spec fn spec_point(point: Json) -> Option<Coord> {
    match point {
        Json::Array(xs) => if xs@.len() >= 2 {
            match (xs@[0].spec_micro(), xs@[1].spec_micro()) {
                (Some(lon), Some(lat)) => Some(Coord { lon, lat }),
                _ => None,
            }
        } else {
            None
        },
        _ => None,
    }
}

/// The positions of a list of points, where each of them gives one.
pub open spec fn spec_line(points: Seq<Json>) -> Option<Seq<Coord>> {
    if forall|i: int| 0 <= i < points.len() ==> (#[trigger] spec_point(points[i])) is Some {
        Some(points.map_values(|p: Json| spec_point(p)->0))
    } else {
        None
    }
}

/// What an answer holds at `routes[0].geometry.coordinates`.
pub open spec fn coordinates_slot(body: Json) -> Option<Json> {
    match body.spec_get("routes"@) {
        Some(Json::Array(routes)) => if routes@.len() > 0 {
            match routes@[0].spec_get("geometry"@) {
                Some(geometry) => geometry.spec_get("coordinates"@),
                None => None,
            }
        } else {
            None
        },
        _ => None,
    }
}

/// The road geometry of an answer: the engine reports success, and the
/// coordinates of its first route are a list of one or more positions.
pub open spec fn spec_geometry(body: Json) -> Option<Seq<Coord>> {
    if body.spec_get("code"@) matches Some(Json::Str(code)) && code@ == "Ok"@ {
        match coordinates_slot(body) {
            Some(Json::Array(points)) => match spec_line(points@) {
                Some(line) => if line.len() > 0 {
                    Some(line)
                } else {
                    None
                },
                None => None,
            },
            _ => None,
        }
    } else {
        None
    }
}

fn point(value: &Json) -> (r: Option<Coord>)
    ensures
        r == spec_point(*value),
{
    match value {
        Json::Array(xs) => {
            if xs.len() >= 2 {
                match (xs[0].as_micro(), xs[1].as_micro()) {
                    (Some(lon), Some(lat)) => Some(Coord { lon, lat }),
                    _ => None,
                }
            } else {
                None
            }
        },
        _ => None,
    }
}

fn line(points: &Vec<Json>) -> (r: Option<Vec<Coord>>)
    ensures
        match r {
            Some(v) => spec_line(points@) == Some(v@),
            None => spec_line(points@) is None,
        },
{
    let mut out: Vec<Coord> = Vec::new();
    let mut i: usize = 0;
    while i < points.len()
        invariant
            i <= points.len(),
            out@.len() == i,
            forall|k: int| 0 <= k < i ==> spec_point(points@[k]) == Some(#[trigger] out@[k]),
        decreases points.len() - i,
    {
        match point(&points[i]) {
            Some(c) => out.push(c),
            None => {
                proof {
                    assert(spec_point(points@[i as int]) is None);
                }
                return None;
            },
        }
        i += 1;
    }
    proof {
        assert forall|k: int| 0 <= k < points@.len() implies (#[trigger] spec_point(
            points@[k],
        )) is Some by {
            assert(spec_point(points@[k]) == Some(out@[k]));
        }
        assert(out@ =~= points@.map_values(|p: Json| spec_point(p)->0));
    }
    Some(out)
}

/// Reads the road geometry out of an answer of the routing engine.
pub fn route_geometry(body: &Json) -> (r: Option<Vec<Coord>>)
    ensures
        match r {
            Some(v) => spec_geometry(*body) == Some(v@),
            None => spec_geometry(*body) is None,
        },
{
    let ok = match body.get("code") {
        Some(Json::Str(code)) => same_text(code.as_str(), "Ok"),
        _ => false,
    };
    if !ok {
        return None;
    }
    let first = match body.get("routes") {
        Some(Json::Array(routes)) => {
            if routes.len() > 0 {
                &routes[0]
            } else {
                return None;
            }
        },
        _ => {
            return None;
        },
    };
    let geometry = match first.get("geometry") {
        Some(g) => g,
        None => {
            return None;
        },
    };
    match geometry.get("coordinates") {
        Some(Json::Array(points)) => match line(points) {
            Some(v) => if v.len() > 0 {
                Some(v)
            } else {
                None
            },
            None => None,
        },
        _ => None,
    }
}

/// The geometry of a chunk: the road geometry where the engine gave one, and
/// the straight line through the chunk's own positions otherwise.
pub open spec fn spec_chunk_geometry(fallback: Seq<Coord>, reply: EngineReply) -> Seq<Coord> {
    match reply {
        EngineReply::Body(body) => match spec_geometry(body) {
            Some(line) => line,
            None => fallback,
        },
        EngineReply::Unavailable => fallback,
    }
}

/// Settles the geometry of a chunk.  `fallback` holds the chunk's own
/// positions, which stand in where the engine gave no geometry.
pub fn chunk_geometry(fallback: Vec<Coord>, reply: &EngineReply) -> (geometry: Vec<Coord>)
    ensures
        geometry@ == spec_chunk_geometry(fallback@, *reply),
{
    match reply {
        EngineReply::Body(body) => match route_geometry(body) {
            Some(line) => line,
            None => fallback,
        },
        EngineReply::Unavailable => fallback,
    }
}

/// One stretch of a snapped path.
#[derive(Debug, PartialEq, Eq)]
pub struct Segment {
    pub coordinates: Vec<Coord>,
    pub direction: Direction,
    pub contains_turning_point: bool,
    /// The `order` of the first stop of the chunk that gave the stretch.
    pub start_order: i64,
}

/// What a segment holds, with its coordinates as a sequence.
pub ghost struct SegmentView {
    pub coordinates: Seq<Coord>,
    pub direction: Direction,
    pub contains_turning_point: bool,
    pub start_order: int,
}

impl View for Segment {
    type V = SegmentView;

    open spec fn view(&self) -> SegmentView {
        SegmentView {
            coordinates: self.coordinates@,
            direction: self.direction,
            contains_turning_point: self.contains_turning_point,
            start_order: self.start_order as int,
        }
    }
}

/// The views of a sequence of segments, in the same order.
pub open spec fn segment_views(path: Seq<Segment>) -> Seq<SegmentView> {
    path.map_values(|s: Segment| s@)
}

/// The geometry of chunk `index` as it enters the path: a chunk behind the
/// first gives up its first point, which repeats the point where the chunk
/// before it ended.
pub open spec fn spec_stitch(index: int, geometry: Seq<Coord>) -> Seq<Coord> {
    if index > 0 && geometry.len() > 0 {
        geometry.skip(1)
    } else {
        geometry
    }
}

/// The segment that chunk `index` of a route gives with the geometry settled
/// for it.  It runs up where the chunk starts behind the turning point, and
/// down otherwise.
pub open spec fn spec_segment(
    stops: Seq<StopView>,
    turning: int,
    index: int,
    chunk: (usize, usize),
    geometry: Seq<Coord>,
) -> SegmentView {
    SegmentView {
        coordinates: spec_stitch(index, geometry),
        direction: if chunk.0 > turning {
            Direction::Up
        } else {
            Direction::Down
        },
        contains_turning_point: chunk.0 <= turning < chunk.1,
        start_order: stops[chunk.0 as int].order,
    }
}

/// Builds the segment of chunk `index` from the geometry settled for it.
pub fn tag_segment(
    stops: &Vec<Stop>,
    turning: usize,
    index: usize,
    chunk: (usize, usize),
    geometry: Vec<Coord>,
) -> (segment: Segment)
    requires
        chunk.0 < stops.len(),
    ensures
        segment@ == spec_segment(
            stop_views(stops@),
            turning as int,
            index as int,
            chunk,
            geometry@,
        ),
{
    let mut coordinates = geometry;
    if index > 0 && coordinates.len() > 0 {
        coordinates.remove(0);
        proof {
            assert(coordinates@ =~= geometry@.skip(1));
        }
    }
    Segment {
        coordinates,
        direction: if chunk.0 > turning {
            Direction::Up
        } else {
            Direction::Down
        },
        contains_turning_point: chunk.0 <= turning && turning < chunk.1,
        start_order: stops[chunk.0].order,
    }
}

/// The positions that the request for a chunk carries.
pub open spec fn chunk_positions(stops: Seq<StopView>, chunk: (usize, usize)) -> Seq<Coord> {
    spec_plausible_positions(stops.subrange(chunk.0 as int, chunk.1 as int))
}

/// A chunk is asked for where two or more of its stops take part in
/// geometry.
pub open spec fn queryable(stops: Seq<StopView>, chunk: (usize, usize)) -> bool {
    chunk_positions(stops, chunk).len() >= 2
}

/// The first chunk at or behind `from` that is asked for, or the number of
/// chunks where there is none.
pub open spec fn next_queryable(stops: Seq<StopView>, chunks: Seq<(usize, usize)>, from: int) -> int
    decreases chunks.len() - from,
{
    if from < 0 || from >= chunks.len() {
        chunks.len() as int
    } else if queryable(stops, chunks[from]) {
        from
    } else {
        next_queryable(stops, chunks, from + 1)
    }
}

/// The chunk that a search ends on is asked for, and a search that starts on
/// it ends on it.
pub proof fn lemma_next_queryable(stops: Seq<StopView>, chunks: Seq<(usize, usize)>, from: int)
    requires
        0 <= from <= chunks.len(),
    ensures
        from <= next_queryable(stops, chunks, from) <= chunks.len(),
        next_queryable(stops, chunks, from) < chunks.len() ==> queryable(
            stops,
            chunks[next_queryable(stops, chunks, from)],
        ),
        next_queryable(stops, chunks, next_queryable(stops, chunks, from)) == next_queryable(
            stops,
            chunks,
            from,
        ),
    decreases chunks.len() - from,
{
    if from < chunks.len() && !queryable(stops, chunks[from]) {
        lemma_next_queryable(stops, chunks, from + 1);
    }
}

/// Every chunk lies within the stops and holds at least one of them.
pub open spec fn chunks_within(chunks: Seq<(usize, usize)>, n: int) -> bool {
    forall|k: int| 0 <= k < chunks.len() ==> (#[trigger] chunks[k]).0 < chunks[k].1 <= n
}

fn seek(stops: &Vec<Stop>, chunks: &Vec<(usize, usize)>, from: usize) -> (at: usize)
    requires
        chunks_within(chunks@, stops.len() as int),
    ensures
        at == next_queryable(stop_views(stops@), chunks@, from as int),
        at <= chunks.len(),
        from <= chunks.len() ==> from <= at,
{
    let mut at = from;
    while at < chunks.len()
        invariant
            from <= at,
            chunks_within(chunks@, stops.len() as int),
            next_queryable(stop_views(stops@), chunks@, from as int) == next_queryable(
                stop_views(stops@),
                chunks@,
                at as int,
            ),
        decreases chunks.len() - at,
    {
        let chunk = chunks[at];
        let positions = plausible_positions(stops, chunk.0, chunk.1);
        if positions.len() >= 2 {
            return at;
        }
        at += 1;
    }
    chunks.len()
}

/// The snapping of one route in progress.  It names the chunk to ask the
/// routing engine for, takes the engine's reply, and goes on to the next
/// chunk, until the path is complete.
pub struct Snapper {
    stops: Vec<Stop>,
    turning: usize,
    chunks: Vec<(usize, usize)>,
    cursor: usize,
    path: Vec<Segment>,
}

impl Snapper {
    /// The stops of the route.
    pub closed spec fn stops(&self) -> Seq<StopView> {
        stop_views(self.stops@)
    }

    /// The turning point of the route.
    pub closed spec fn turning(&self) -> int {
        self.turning as int
    }

    /// The chunks of the route.
    pub closed spec fn chunks(&self) -> Seq<(usize, usize)> {
        self.chunks@
    }

    /// The chunk to ask for next; the number of chunks when none is left.
    pub closed spec fn cursor(&self) -> int {
        self.cursor as int
    }

    /// The segments gathered so far.
    pub closed spec fn path(&self) -> Seq<SegmentView> {
        segment_views(self.path@)
    }

    /// What holds of every snapping in progress.
    pub open spec fn wf(&self) -> bool {
        &&& is_turning_point(self.stops(), self.turning())
        &&& chunks_within(self.chunks(), self.stops().len() as int)
        &&& 0 <= self.cursor() <= self.chunks().len()
        &&& self.cursor() == next_queryable(self.stops(), self.chunks(), self.cursor())
    }

    /// Starts the snapping of a route with chunks of at most `size` stops.
    /// A route of which fewer than two stops take part in geometry is not
    /// snapped.
    pub fn begin(stops: Vec<Stop>, size: usize) -> (snapper: Option<Snapper>)
        ensures
            snapper is None <==> spec_plausible_positions(stop_views(stops@)).len() < 2,
            snapper matches Some(s) ==> {
                &&& s.wf()
                &&& s.stops() == stop_views(stops@)
                &&& is_chunking(s.chunks(), stops.len() as int, size as int)
                &&& s.cursor() == next_queryable(s.stops(), s.chunks(), 0)
                &&& s.path() == Seq::<SegmentView>::empty()
            },
    {
        let n = stops.len();
        let all = plausible_positions(&stops, 0, n);
        proof {
            let views = stop_views(stops@);
            assert(views.subrange(0, n as int) =~= views);
            views.lemma_filter_len(|s: StopView| crate::geometry::spec_plausible(s.longitude, s.latitude));
        }
        if all.len() < 2 {
            return None;
        }
        let turning = turning_point(&stops);
        let chunks = chunk_ranges(n, size);
        proof {
            assert forall|k: int| 0 <= k < chunks@.len() implies (#[trigger] chunks@[k]).0
                < chunks@[k].1 <= n by {
                lemma_chunks_ascend(chunks@, n as int, size as int, k, chunks@.len() - 1);
            }
        }
        let cursor = seek(&stops, &chunks, 0);
        let path: Vec<Segment> = Vec::new();
        proof {
            assert(segment_views(path@) =~= Seq::<SegmentView>::empty());
            lemma_next_queryable(stop_views(stops@), chunks@, 0);
        }
        Some(Snapper { stops, turning, chunks, cursor, path })
    }

    /// Whether every chunk has been dealt with.
    pub fn is_complete(&self) -> (r: bool)
        requires
            self.wf(),
        ensures
            r == (self.cursor() == self.chunks().len()),
    {
        self.cursor >= self.chunks.len()
    }

    /// The positions to ask the routing engine for next: those of the stops
    /// of the chunk at the cursor that take part in geometry.  Nothing when
    /// the path is complete.
    pub fn request(&self) -> (r: Option<Vec<Coord>>)
        requires
            self.wf(),
        ensures
            match r {
                Some(positions) => {
                    &&& self.cursor() < self.chunks().len()
                    &&& positions@ == chunk_positions(self.stops(), self.chunks()[self.cursor()])
                    &&& positions@.len() >= 2
                },
                None => self.cursor() == self.chunks().len(),
            },
    {
        if self.cursor >= self.chunks.len() {
            None
        } else {
            let chunk = self.chunks[self.cursor];
            proof {
                lemma_next_queryable(self.stops(), self.chunks(), self.cursor());
            }
            Some(plausible_positions(&self.stops, chunk.0, chunk.1))
        }
    }

    /// Takes the engine's reply to the pending request: the chunk's segment
    /// joins the path, and the cursor moves to the next chunk to ask for.
    /// With the path complete nothing changes.
    pub fn supply(&mut self, reply: &EngineReply)
        requires
            old(self).wf(),
        ensures
            final(self).wf(),
            final(self).stops() == old(self).stops(),
            final(self).turning() == old(self).turning(),
            final(self).chunks() == old(self).chunks(),
            old(self).cursor() == old(self).chunks().len() ==> {
                &&& final(self).cursor() == old(self).cursor()
                &&& final(self).path() == old(self).path()
            },
            old(self).cursor() < old(self).chunks().len() ==> {
                &&& final(self).cursor() == next_queryable(
                    old(self).stops(),
                    old(self).chunks(),
                    old(self).cursor() + 1,
                )
                &&& final(self).path() == old(self).path().push(
                    spec_segment(
                        old(self).stops(),
                        old(self).turning(),
                        old(self).cursor(),
                        old(self).chunks()[old(self).cursor()],
                        spec_chunk_geometry(
                            chunk_positions(old(self).stops(), old(self).chunks()[old(self).cursor()]),
                            *reply,
                        ),
                    ),
                )
            },
    {
        if self.cursor < self.chunks.len() {
            let chunk = self.chunks[self.cursor];
            let fallback = plausible_positions(&self.stops, chunk.0, chunk.1);
            let geometry = chunk_geometry(fallback, reply);
            let segment = tag_segment(&self.stops, self.turning, self.cursor, chunk, geometry);
            let ghost before = segment_views(self.path@);
            self.path.push(segment);
            proof {
                assert(segment_views(self.path@) =~= before.push(segment@));
            }
            let next = seek(&self.stops, &self.chunks, self.cursor + 1);
            self.cursor = next;
            proof {
                lemma_next_queryable(self.stops(), self.chunks(), old(self).cursor() + 1);
            }
        }
    }

    /// The path gathered from the chunks dealt with.
    pub fn finish(self) -> (path: Vec<Segment>)
        ensures
            segment_views(path@) == self.path(),
    {
        self.path
    }
}

} // verus!
