//! The requests that a run sends: their addresses and parameters as texts.

use vstd::prelude::*;
use crate::config::BusRouteProcessor;
use crate::stop::Coord;
use crate::text::{
    chars_of, magnitude, numeral, padded, push_numeral, push_padded, text_of,
};

verus! {

/// A number of millionths written in units with six decimal places.
pub open spec fn spec_degrees(m: int) -> Seq<char> {
    if m < 0 {
        seq!['-'] + numeral(((-m) / 1_000_000) as nat) + seq!['.'] + padded(
            ((-m) % 1_000_000) as nat,
            6,
        )
    } else {
        numeral((m / 1_000_000) as nat) + seq!['.'] + padded((m % 1_000_000) as nat, 6)
    }
}

/// Appends a number of millionths, written in units with six decimal
/// places.
pub fn push_degrees(out: &mut String, m: i64)
    ensures
        final(out)@ == old(out)@ + spec_degrees(m as int),
{
    let size = magnitude(m);
    proof {
        reveal_strlit("-");
        reveal_strlit(".");
        assert("-"@ =~= seq!['-']);
        assert("."@ =~= seq!['.']);
    }
    if m < 0 {
        out.append("-");
    }
    push_numeral(out, size / 1_000_000);
    out.append(".");
    push_padded(out, size % 1_000_000, 6);
    proof {
        assert(final(out)@ =~= old(out)@ + spec_degrees(m as int));
    }
}

/// A position as the routing engine reads it: longitude, comma, latitude.
pub open spec fn spec_position(c: Coord) -> Seq<char> {
    spec_degrees(c.lon as int) + seq![','] + spec_degrees(c.lat as int)
}

/// Positions as the routing engine reads them, with a semicolon between
/// each two.
pub open spec fn spec_positions(positions: Seq<Coord>) -> Seq<char>
    decreases positions.len(),
{
    if positions.len() == 0 {
        Seq::empty()
    } else if positions.len() == 1 {
        spec_position(positions[0])
    } else {
        spec_positions(positions.drop_last()) + seq![';'] + spec_position(positions.last())
    }
}

/// Appends the positions as the routing engine reads them.
pub fn push_positions(out: &mut String, positions: &Vec<Coord>)
    ensures
        final(out)@ == old(out)@ + spec_positions(positions@),
{
    let mut i: usize = 0;
    proof {
        reveal_strlit(";");
        reveal_strlit(",");
        assert(";"@ =~= seq![';']);
        assert(","@ =~= seq![',']);
        assert(out@ =~= old(out)@ + spec_positions(positions@.take(0)));
    }
    while i < positions.len()
        invariant
            i <= positions.len(),
            ";"@ == seq![';'],
            ","@ == seq![','],
            out@ == old(out)@ + spec_positions(positions@.take(i as int)),
        decreases positions.len() - i,
    {
        let ghost before = out@;
        let ghost next = positions@.take(i + 1);
        proof {
            assert(next.drop_last() =~= positions@.take(i as int));
            assert(next.last() == positions[i as int]);
        }
        if i > 0 {
            out.append(";");
        }
        push_degrees(out, positions[i].lon);
        out.append(",");
        push_degrees(out, positions[i].lat);
        proof {
            if i > 0 {
                assert(out@ =~= before + seq![';'] + spec_position(positions[i as int]));
                assert(out@ =~= old(out)@ + spec_positions(next));
            } else {
                assert(out@ =~= before + spec_position(positions[i as int]));
                assert(positions@.take(0) =~= Seq::<Coord>::empty());
                assert(out@ =~= old(out)@ + spec_positions(next));
            }
        }
        i += 1;
    }
    proof {
        assert(positions@.take(positions.len() as int) =~= positions@);
    }
}

/// `pattern` stands in `text` at place `i`.
pub open spec fn occurs_at(text: Seq<char>, pattern: Seq<char>, i: int) -> bool {
    &&& 0 <= i
    &&& i + pattern.len() <= text.len()
    &&& text.subrange(i, i + pattern.len()) == pattern
}

/// `pattern` stands somewhere in `text`.
pub open spec fn spec_contains(text: Seq<char>, pattern: Seq<char>) -> bool {
    exists|i: int| occurs_at(text, pattern, i)
}

/// `text` with `to` in place of `from`, wherever `from` stands in it; the
/// places are taken from the left, and places that overlap one already taken
/// are passed over.  An empty `from` stands nowhere.
pub open spec fn spec_replace(text: Seq<char>, from: Seq<char>, to: Seq<char>) -> Seq<char>
    decreases text.len(),
{
    if from.len() == 0 || text.len() < from.len() {
        text
    } else if occurs_at(text, from, 0) {
        to + spec_replace(text.skip(from.len() as int), from, to)
    } else {
        seq![text[0]] + spec_replace(text.skip(1), from, to)
    }
}

fn stands_at(text: &Vec<char>, pattern: &Vec<char>, i: usize) -> (r: bool)
    requires
        i + pattern.len() <= text.len(),
    ensures
        r == occurs_at(text@, pattern@, i as int),
{
    let mut k: usize = 0;
    while k < pattern.len()
        invariant
            k <= pattern.len(),
            i + pattern.len() <= text.len(),
            forall|j: int| 0 <= j < k ==> text[i + j] == pattern[j],
        decreases pattern.len() - k,
    {
        if text[i + k] != pattern[k] {
            proof {
                assert(text@.subrange(i as int, i + pattern.len())[k as int] == text[i + k]);
            }
            return false;
        }
        k += 1;
    }
    proof {
        assert(text@.subrange(i as int, i + pattern.len()) =~= pattern@);
    }
    true
}

/// Whether `pattern` stands somewhere in `text`.
pub fn contains(text: &str, pattern: &str) -> (r: bool)
    ensures
        r == spec_contains(text@, pattern@),
{
    let t = chars_of(text);
    let p = chars_of(pattern);
    if p.len() > t.len() {
        return false;
    }
    let last = t.len() - p.len();
    let mut i: usize = 0;
    loop
        invariant
            i <= last,
            last == t.len() - p.len(),
            t@ == text@,
            p@ == pattern@,
            forall|j: int| 0 <= j < i ==> !occurs_at(text@, pattern@, j),
        decreases last - i,
    {
        if stands_at(&t, &p, i) {
            return true;
        }
        if i == last {
            return false;
        }
        i += 1;
    }
}

/// `text` with `to` in place of `from`, wherever `from` stands in it.
pub fn replace(text: &str, from: &str, to: &str) -> (r: String)
    ensures
        r@ == spec_replace(text@, from@, to@),
{
    let t = chars_of(text);
    let f = chars_of(from);
    let w = chars_of(to);
    if f.len() == 0 {
        return text_of(&t);
    }
    let mut out: Vec<char> = Vec::new();
    let mut i: usize = 0;
    proof {
        assert(t@.skip(0) =~= t@);
        assert(out@ + spec_replace(t@.skip(0), f@, w@) =~= spec_replace(t@, f@, w@));
    }
    while i < t.len()
        invariant
            i <= t.len(),
            f.len() > 0,
            out@ + spec_replace(t@.skip(i as int), f@, w@) == spec_replace(t@, f@, w@),
        decreases t.len() - i,
    {
        let ghost rest = t@.skip(i as int);
        let ghost done = out@;
        if f.len() <= t.len() - i && stands_at(&t, &f, i) {
            proof {
                assert(rest.subrange(0, f.len() as int) =~= t@.subrange(i as int, i + f.len()));
                assert(rest.skip(f.len() as int) =~= t@.skip(i + f.len()));
            }
            let mut k: usize = 0;
            while k < w.len()
                invariant
                    k <= w.len(),
                    out@ == done + w@.take(k as int),
                decreases w.len() - k,
            {
                out.push(w[k]);
                proof {
                    assert(w@.take(k + 1) =~= w@.take(k as int).push(w[k as int]));
                }
                k += 1;
            }
            proof {
                assert(w@.take(w.len() as int) =~= w@);
                assert(out@ + spec_replace(t@.skip(i + f.len()), f@, w@) =~= done + spec_replace(
                    rest,
                    f@,
                    w@,
                ));
            }
            i += f.len();
        } else {
            proof {
                if f.len() <= t.len() - i {
                    assert(rest.subrange(0, f.len() as int) =~= t@.subrange(i as int, i + f.len()));
                }
                assert(rest.skip(1) =~= t@.skip(i + 1));
                if rest.len() < f.len() {
                    assert(rest =~= seq![rest[0]] + rest.skip(1));
                }
            }
            out.push(t[i]);
            proof {
                assert(out@ + spec_replace(t@.skip(i + 1), f@, w@) =~= done + spec_replace(
                    rest,
                    f@,
                    w@,
                ));
            }
            i += 1;
        }
    }
    proof {
        assert(t@.skip(t.len() as int) =~= Seq::<char>::empty());
        assert(out@ + Seq::<char>::empty() =~= out@);
    }
    text_of(&out)
}

/// The part of an address that names the engine's routing service.
pub open spec fn route_service() -> Seq<char> {
    "/route/v1/driving"@
}

/// The part of an address that names the engine's matching service.
pub open spec fn match_service() -> Seq<char> {
    "/match/v1/driving"@
}

/// What follows the positions in a request to the engine: the whole
/// geometry as GeoJSON, no turn instructions, no needless detours.
pub open spec fn route_options() -> Seq<char> {
    "?overview=full&geometries=geojson&steps=false&continue_straight=true"@
}

/// The address of the engine's routing service: the configured address where
/// it names that service, and else the configured address with the routing
/// service in place of the matching service.
pub open spec fn spec_engine_base(configured: Seq<char>) -> Seq<char> {
    if spec_contains(configured, route_service()) {
        configured
    } else {
        spec_replace(configured, match_service(), route_service())
    }
}

/// The address of the engine's routing service.
pub fn engine_base(configured: &str) -> (base: String)
    ensures
        base@ == spec_engine_base(configured@),
{
    if contains(configured, "/route/v1/driving") {
        String::from_str(configured)
    } else {
        replace(configured, "/match/v1/driving", "/route/v1/driving")
    }
}

/// The address of a request for the road through the given positions.
pub open spec fn spec_engine_url(configured: Seq<char>, positions: Seq<Coord>) -> Seq<char> {
    spec_engine_base(configured) + seq!['/'] + spec_positions(positions) + route_options()
}

/// Writes the address of a request for the road through the given
/// positions.
pub fn engine_url(configured: &str, positions: &Vec<Coord>) -> (url: String)
    ensures
        url@ == spec_engine_url(configured@, positions@),
{
    let mut url = engine_base(configured);
    proof {
        reveal_strlit("/");
        assert("/"@ =~= seq!['/']);
    }
    url.append("/");
    push_positions(&mut url, positions);
    url.append("?overview=full&geometries=geojson&steps=false&continue_straight=true");
    url
}

/// A request to the catalog: an address and the parameters of its query.
#[derive(Debug, PartialEq, Eq)]
pub struct CatalogRequest {
    pub url: String,
    pub query: Vec<(String, String)>,
}

/// One parameter of a query.
pub open spec fn is_parameter(p: (String, String), name: Seq<char>, value: Seq<char>) -> bool {
    p.0@ == name && p.1@ == value
}

fn parameter(name: &str, value: &str) -> (p: (String, String))
    ensures
        is_parameter(p, name@, value@),
{
    (String::from_str(name), String::from_str(value))
}

impl BusRouteProcessor {
    /// The request for the list of all routes of the city: up to 2000
    /// results on one page, as JSON.
    pub fn route_list_request(&self) -> (request: CatalogRequest)
        ensures
            request.url@ == self.tago_base_url@ + "/getRouteNoList"@,
            request.query@.len() == 5,
            is_parameter(request.query@[0], "cityCode"@, self.city_code@),
            is_parameter(request.query@[1], "numOfRows"@, "2000"@),
            is_parameter(request.query@[2], "pageNo"@, "1"@),
            is_parameter(request.query@[3], "serviceKey"@, self.service_key@),
            is_parameter(request.query@[4], "_type"@, "json"@),
    {
        let mut url = self.tago_base_url.clone();
        url.append("/getRouteNoList");
        let mut query: Vec<(String, String)> = Vec::new();
        query.push(parameter("cityCode", self.city_code.as_str()));
        query.push(parameter("numOfRows", "2000"));
        query.push(parameter("pageNo", "1"));
        query.push(parameter("serviceKey", self.service_key.as_str()));
        query.push(parameter("_type", "json"));
        CatalogRequest { url, query }
    }

    /// The request for the stops of a route: up to 1024 results, as JSON.
    pub fn stop_list_request(&self, route_id: &str) -> (request: CatalogRequest)
        ensures
            request.url@ == self.tago_base_url@ + "/getRouteAcctoThrghSttnList"@,
            request.query@.len() == 5,
            is_parameter(request.query@[0], "cityCode"@, self.city_code@),
            is_parameter(request.query@[1], "routeId"@, route_id@),
            is_parameter(request.query@[2], "numOfRows"@, "1024"@),
            is_parameter(request.query@[3], "serviceKey"@, self.service_key@),
            is_parameter(request.query@[4], "_type"@, "json"@),
    {
        let mut url = self.tago_base_url.clone();
        url.append("/getRouteAcctoThrghSttnList");
        let mut query: Vec<(String, String)> = Vec::new();
        query.push(parameter("cityCode", self.city_code.as_str()));
        query.push(parameter("routeId", route_id));
        query.push(parameter("numOfRows", "1024"));
        query.push(parameter("serviceKey", self.service_key.as_str()));
        query.push(parameter("_type", "json"));
        CatalogRequest { url, query }
    }

    /// The address of a request to the routing engine for the road through
    /// the given positions.
    pub fn engine_request(&self, positions: &Vec<Coord>) -> (url: String)
        ensures
            url@ == spec_engine_url(self.osrm_base_url@, positions@),
    {
        engine_url(self.osrm_base_url.as_str(), positions)
    }
}

} // verus!
