//! Positions: which of them take part in geometry, and the nearest point of a
//! polyline to a position.
//!
//! Projection works on the fixed-point coordinates themselves.  Measuring a
//! distance in metres is left to the caller, who hands the measured
//! distances back in millimetres.

use vstd::prelude::*;
use crate::stop::{Coord, Stop, StopView, stop_views};

verus! {

/// The southern bound of plausible latitudes: 30 degrees.
pub const MIN_LATITUDE: i64 = 30_000_000;

/// The western bound of plausible longitudes: 120 degrees.
pub const MIN_LONGITUDE: i64 = 120_000_000;

/// A position takes part in geometry where it lies north of 30 degrees and
/// east of 120 degrees.
pub open spec fn spec_plausible(lon: int, lat: int) -> bool {
    lat > MIN_LATITUDE && lon > MIN_LONGITUDE
}

/// Whether a position takes part in geometry.
pub fn plausible(c: Coord) -> (r: bool)
    ensures
        r == spec_plausible(c.lon as int, c.lat as int),
{
    c.lat > MIN_LATITUDE && c.lon > MIN_LONGITUDE
}

/// The positions of the stops that take part in geometry, in the stops'
/// order.
pub open spec fn spec_plausible_positions(stops: Seq<StopView>) -> Seq<Coord> {
    stops.filter(|s: StopView| spec_plausible(s.longitude, s.latitude)).map_values(
        |s: StopView| s.position(),
    )
}

/// The positions of the stops `start..end` that take part in geometry.
pub fn plausible_positions(stops: &Vec<Stop>, start: usize, end: usize) -> (positions: Vec<Coord>)
    requires
        start <= end <= stops.len(),
    ensures
        positions@ == spec_plausible_positions(
            stop_views(stops@).subrange(start as int, end as int),
        ),
{
    let mut positions: Vec<Coord> = Vec::new();
    let ghost range = stop_views(stops@).subrange(start as int, end as int);
    let ghost keep = |s: StopView| spec_plausible(s.longitude, s.latitude);
    let ghost place = |s: StopView| s.position();
    let mut i: usize = start;
    proof {
        range.take(0).lemma_filter_len(keep);
        assert(positions@ =~= range.take(0).filter(keep).map_values(place));
    }
    while i < end
        invariant
            start <= i <= end <= stops.len(),
            range == stop_views(stops@).subrange(start as int, end as int),
            keep == |s: StopView| spec_plausible(s.longitude, s.latitude),
            place == |s: StopView| s.position(),
            positions@ == range.take(i - start).filter(keep).map_values(place),
        decreases end - i,
    {
        let ghost seen = range.take(i - start);
        proof {
            assert(range.take(i + 1 - start) =~= seen.push(stops[i as int]@));
            seen.lemma_filter_push(stops[i as int]@, keep);
        }
        let c = stops[i].position();
        if plausible(c) {
            positions.push(c);
            proof {
                seen.filter(keep).lemma_push_map_commute(place, stops[i as int]@);
            }
        }
        i += 1;
    }
    proof {
        assert(range.take(end - start) =~= range);
    }
    positions
}

/// The greatest longitude on the globe: 180 degrees.
pub const MAX_LONGITUDE: i64 = 180_000_000;

/// The greatest latitude on the globe: 90 degrees.
pub const MAX_LATITUDE: i64 = 90_000_000;

/// A position lies on the globe.
pub open spec fn spec_on_globe(c: Coord) -> bool {
    &&& -MAX_LONGITUDE <= c.lon <= MAX_LONGITUDE
    &&& -MAX_LATITUDE <= c.lat <= MAX_LATITUDE
}

/// Whether a position lies on the globe.
pub fn on_globe(c: Coord) -> (r: bool)
    ensures
        r == spec_on_globe(c),
{
    -MAX_LONGITUDE <= c.lon && c.lon <= MAX_LONGITUDE && -MAX_LATITUDE <= c.lat && c.lat
        <= MAX_LATITUDE
}

/// The integer nearest to `n / d`, the upper one where two are as near.
pub open spec fn rounded(n: int, d: int) -> int {
    (2 * n + d) / (2 * d)
}

/// `delta` shortened by the factor `num / denom`, rounded to the nearest
/// integer and away from zero where two are as near.
pub open spec fn scaled(num: int, denom: int, delta: int) -> int {
    if delta >= 0 {
        rounded(num * delta, denom)
    } else {
        -rounded(num * (-delta), denom)
    }
}

/// How far along the segment from `a` to `b` the foot of `p` lies, as the
/// numerator of a fraction whose denominator is `span(a, b)`.
pub open spec fn along(p: Coord, a: Coord, b: Coord) -> int {
    (p.lon - a.lon) * (b.lon - a.lon) + (p.lat - a.lat) * (b.lat - a.lat)
}

/// The squared length of the segment from `a` to `b`.
pub open spec fn span(a: Coord, b: Coord) -> int {
    (b.lon - a.lon) * (b.lon - a.lon) + (b.lat - a.lat) * (b.lat - a.lat)
}

/// The point of the segment from `a` to `b` that is nearest to `p`: the foot
/// of `p` on the line through both, moved to the nearer end where it lies
/// outside the segment.
pub open spec fn spec_project(p: Coord, a: Coord, b: Coord) -> Coord {
    if along(p, a, b) <= 0 {
        a
    } else if along(p, a, b) >= span(a, b) {
        b
    } else {
        Coord {
            lon: (a.lon + scaled(along(p, a, b), span(a, b), b.lon - a.lon)) as i64,
            lat: (a.lat + scaled(along(p, a, b), span(a, b), b.lat - a.lat)) as i64,
        }
    }
}

proof fn lemma_product_bound(x: int, y: int, bx: int, by: int)
    requires
        -bx <= x <= bx,
        -by <= y <= by,
    ensures
        -(bx * by) <= x * y <= bx * by,
{
    assert(-(bx * by) <= x * y <= bx * by) by (nonlinear_arith)
        requires
            -bx <= x <= bx,
            -by <= y <= by,
    ;
}

proof fn lemma_rounded_bound(num: int, denom: int, size: int)
    requires
        0 < num < denom,
        0 <= size,
    ensures
        0 <= rounded(num * size, denom) <= size,
{
    let n = num * size;
    let q = rounded(n, denom);
    assert(0 <= n && n <= denom * size) by (nonlinear_arith)
        requires
            0 < num < denom,
            0 <= size,
            n == num * size,
    ;
    assert(0 <= q && q <= size) by (nonlinear_arith)
        requires
            0 <= n <= denom * size,
            denom > 0,
            size >= 0,
            q == (2 * n + denom) / (2 * denom),
    ;
}

fn times(x: i128, y: i128) -> (r: i128)
    requires
        -0x1_0000_0000 <= x <= 0x1_0000_0000,
        -0x1_0000_0000_0000_0000 <= y <= 0x1_0000_0000_0000_0000,
    ensures
        r == x * y,
{
    proof {
        lemma_product_bound(x as int, y as int, 0x1_0000_0000, 0x1_0000_0000_0000_0000);
    }
    x * y
}

fn shorten(num: i128, denom: i128, delta: i64) -> (r: i64)
    requires
        0 < num < denom <= 0x1_0000_0000_0000_0000,
        -0x1_0000_0000 <= delta <= 0x1_0000_0000,
    ensures
        r == scaled(num as int, denom as int, delta as int),
        delta >= 0 ==> 0 <= r <= delta,
        delta < 0 ==> delta <= r <= 0,
{
    let size: i128 = if delta >= 0 {
        delta as i128
    } else {
        -(delta as i128)
    };
    proof {
        lemma_rounded_bound(num as int, denom as int, size as int);
        lemma_product_bound(size as int, num as int, 0x1_0000_0000, 0x1_0000_0000_0000_0000);
        assert(num * size == size * num) by (nonlinear_arith);
        assert(0 <= num * size) by (nonlinear_arith)
            requires
                0 < num,
                0 <= size,
        ;
    }
    let n: i128 = times(size, num);
    let q: i128 = (2 * n + denom) / (2 * denom);
    if delta >= 0 {
        q as i64
    } else {
        (-q) as i64
    }
}

/// The point of the segment from `a` to `b` that is nearest to `p`.
pub fn project(p: Coord, a: Coord, b: Coord) -> (c: Coord)
    requires
        spec_on_globe(p),
        spec_on_globe(a),
        spec_on_globe(b),
    ensures
        c == spec_project(p, a, b),
        spec_on_globe(c),
{
    let dx: i128 = b.lon as i128 - a.lon as i128;
    let dy: i128 = b.lat as i128 - a.lat as i128;
    let px: i128 = p.lon as i128 - a.lon as i128;
    let py: i128 = p.lat as i128 - a.lat as i128;
    proof {
        lemma_product_bound(dx as int, dx as int, 360_000_000, 360_000_000);
        lemma_product_bound(dy as int, dy as int, 180_000_000, 180_000_000);
        lemma_product_bound(px as int, dx as int, 360_000_000, 360_000_000);
        lemma_product_bound(py as int, dy as int, 180_000_000, 180_000_000);
    }
    let denom: i128 = times(dx, dx) + times(dy, dy);
    let num: i128 = times(px, dx) + times(py, dy);
    if num <= 0 {
        a
    } else if num >= denom {
        b
    } else {
        let mx = shorten(num, denom, (b.lon - a.lon));
        let my = shorten(num, denom, (b.lat - a.lat));
        Coord { lon: a.lon + mx, lat: a.lat + my }
    }
}

/// A segment gives a nearest point where both of its ends lie on the globe
/// and differ.
pub open spec fn has_foot(a: Coord, b: Coord) -> bool {
    spec_on_globe(a) && spec_on_globe(b) && a != b
}

/// The nearest points to `p` on the first `m` segments of a polyline, one for
/// each segment that gives one, in the order of the segments.
pub open spec fn feet_of(p: Coord, line: Seq<Coord>, m: int) -> Seq<Coord>
    decreases m,
{
    if m <= 0 {
        Seq::empty()
    } else if has_foot(line[m - 1], line[m]) {
        feet_of(p, line, m - 1).push(spec_project(p, line[m - 1], line[m]))
    } else {
        feet_of(p, line, m - 1)
    }
}

/// The nearest points to `p` on the segments of a polyline.  A position off
/// the globe has none.
pub open spec fn spec_feet(p: Coord, line: Seq<Coord>) -> Seq<Coord> {
    if spec_on_globe(p) {
        feet_of(p, line, line.len() - 1)
    } else {
        Seq::empty()
    }
}

/// Projects a position onto every segment of a polyline: the candidates for
/// the nearest point of the polyline, still to be measured.
pub fn project_onto_polyline(p: Coord, line: &Vec<Coord>) -> (feet: Vec<Coord>)
    ensures
        feet@ == spec_feet(p, line@),
        forall|i: int| 0 <= i < feet@.len() ==> spec_on_globe(#[trigger] feet@[i]),
{
    let mut feet: Vec<Coord> = Vec::new();
    if !on_globe(p) || line.len() < 2 {
        return feet;
    }
    let mut k: usize = 1;
    while k < line.len()
        invariant
            1 <= k <= line.len(),
            spec_on_globe(p),
            feet@ == feet_of(p, line@, k - 1),
            forall|i: int| 0 <= i < feet@.len() ==> spec_on_globe(#[trigger] feet@[i]),
        decreases line.len() - k,
    {
        let a = line[k - 1];
        let b = line[k];
        if on_globe(a) && on_globe(b) && (a.lon != b.lon || a.lat != b.lat) {
            feet.push(project(p, a, b));
        }
        k += 1;
    }
    feet
}

/// A candidate point with its measured distance.
#[derive(Clone, Copy, Debug, PartialEq, Eq, Structural)]
pub struct Measured {
    pub point: Coord,
    /// The distance in millimetres.
    pub distance: u64,
}

/// `k` is the place of the closest candidate: none is nearer, and none before
/// it is as near.
pub open spec fn is_closest(measured: Seq<Measured>, k: int) -> bool {
    &&& 0 <= k < measured.len()
    &&& forall|j: int| 0 <= j < measured.len() ==> measured[k].distance <= measured[j].distance
    &&& forall|j: int| 0 <= j < k ==> measured[k].distance < measured[j].distance
}

/// The closest of the measured candidates, the earliest of them where
/// several are as near; nothing where there is no candidate.
pub open spec fn spec_closest(measured: Seq<Measured>) -> Option<Measured> {
    if measured.len() == 0 {
        None
    } else {
        Some(measured[choose|k: int| is_closest(measured, k)])
    }
}

/// Picks the closest of the measured candidates, the earliest of them where
/// several are as near.  Nothing where there is no candidate.
pub fn closest(measured: &Vec<Measured>) -> (best: Option<Measured>)
    ensures
        best == spec_closest(measured@),
        best is None <==> measured@.len() == 0,
        best matches Some(m) ==> exists|k: int| is_closest(measured@, k) && measured@[k] == m,
{
    if measured.len() == 0 {
        return None;
    }
    let mut at: usize = 0;
    let mut k: usize = 1;
    while k < measured.len()
        invariant
            0 <= at < k <= measured.len(),
            forall|j: int| 0 <= j < k ==> measured[at as int].distance <= measured[j].distance,
            forall|j: int| 0 <= j < at ==> measured[at as int].distance < measured[j].distance,
        decreases measured.len() - k,
    {
        if measured[k].distance < measured[at].distance {
            at = k;
        }
        k += 1;
    }
    proof {
        assert(is_closest(measured@, at as int));
        lemma_closest_unique(measured@, at as int, choose|k: int| is_closest(measured@, k));
    }
    Some(measured[at])
}

/// The closest candidate is one candidate only.
pub proof fn lemma_closest_unique(measured: Seq<Measured>, a: int, b: int)
    requires
        is_closest(measured, a),
        is_closest(measured, b),
    ensures
        a == b,
{
    if a < b {
        assert(measured[b].distance < measured[a].distance);
        assert(measured[a].distance <= measured[b].distance);
    } else if b < a {
        assert(measured[a].distance < measured[b].distance);
        assert(measured[b].distance <= measured[a].distance);
    }
}

} // verus!
