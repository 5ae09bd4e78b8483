//! The identifiers and use cases of the serving layer that reads what the
//! pipeline has written.

use std::sync::Arc;
use vstd::prelude::*;
use crate::text::same_text;

verus! {

/// The id of a route.
#[derive(Debug, Clone, PartialEq, Eq, Hash)]
pub struct RouteId(pub String);

/// The id of a bus stop.
#[derive(Debug, Clone, PartialEq, Eq, Hash)]
pub struct BusStopId(pub String);

/// The id of a city.
#[derive(Debug, Clone, Copy, PartialEq, Eq, Hash)]
pub struct CityId(pub u8);

/// A position in millionths of a degree.
#[derive(Debug, Clone, Copy, PartialEq, Eq)]
pub struct Coordinates {
    pub latitude: i64,
    pub longitude: i64,
}

/// The path of a route.
pub type Polyline = Vec<Coordinates>;

/// A route with its path.
#[derive(Debug)]
pub struct BusRoute {
    pub id: RouteId,
    pub city_id: CityId,
    pub name: String,
    pub polyline: Polyline,
}

/// The place of a bus stop.
#[derive(Debug)]
pub struct BusStop {
    pub id: BusStopId,
    pub city_id: CityId,
    pub name: String,
    pub coordinates: Coordinates,
}

/// The place of a bus on its route.
#[derive(Debug)]
pub struct Bus {
    pub id: String,
    pub route_id: RouteId,
    pub city_id: CityId,
    pub coordinates: Coordinates,
}

/// The coming arrival of a bus at a stop.
#[derive(Debug)]
pub struct BusArrival {
    pub stop_id: BusStopId,
    pub route_id: RouteId,
    pub vehicle_id: String,
    /// Seconds since the start of 1970, in universal time.
    pub arrival_time: i64,
}

/// The routes that run in the city, in the order given.
pub fn routes_of_city(items: Vec<BusRoute>, city_id: CityId) -> (kept: Vec<BusRoute>)
    ensures
        kept@ == items@.filter(|r: BusRoute| r.city_id == city_id),
{
    let mut kept: Vec<BusRoute> = Vec::new();
    let ghost keep = |r: BusRoute| r.city_id == city_id;
    proof {
        items@.take(0).lemma_filter_len(keep);
        assert(kept@ =~= items@.take(0).filter(keep));
    }
    for r in it: items
        invariant
            it.seq() == items@,
            keep == |r: BusRoute| r.city_id == city_id,
            kept@ == items@.take(it.index() as int).filter(keep),
    {
        proof {
            assert(items@.take(it.index() + 1) =~= items@.take(it.index() as int).push(r));
            items@.take(it.index() as int).lemma_filter_push(r, keep);
        }
        if r.city_id.0 == city_id.0 {
            kept.push(r);
        }
    }
    proof {
        assert(items@.take(items@.len() as int) =~= items@);
    }
    kept
}

/// The stops that lie in the city, in the order given.
pub fn stops_of_city(items: Vec<BusStop>, city_id: CityId) -> (kept: Vec<BusStop>)
    ensures
        kept@ == items@.filter(|s: BusStop| s.city_id == city_id),
{
    let mut kept: Vec<BusStop> = Vec::new();
    let ghost keep = |s: BusStop| s.city_id == city_id;
    proof {
        items@.take(0).lemma_filter_len(keep);
        assert(kept@ =~= items@.take(0).filter(keep));
    }
    for s in it: items
        invariant
            it.seq() == items@,
            keep == |s: BusStop| s.city_id == city_id,
            kept@ == items@.take(it.index() as int).filter(keep),
    {
        proof {
            assert(items@.take(it.index() + 1) =~= items@.take(it.index() as int).push(s));
            items@.take(it.index() as int).lemma_filter_push(s, keep);
        }
        if s.city_id.0 == city_id.0 {
            kept.push(s);
        }
    }
    proof {
        assert(items@.take(items@.len() as int) =~= items@);
    }
    kept
}

/// The buses that run in the city, in the order given.
pub fn buses_of_city(items: Vec<Bus>, city_id: CityId) -> (kept: Vec<Bus>)
    ensures
        kept@ == items@.filter(|b: Bus| b.city_id == city_id),
{
    let mut kept: Vec<Bus> = Vec::new();
    let ghost keep = |b: Bus| b.city_id == city_id;
    proof {
        items@.take(0).lemma_filter_len(keep);
        assert(kept@ =~= items@.take(0).filter(keep));
    }
    for b in it: items
        invariant
            it.seq() == items@,
            keep == |b: Bus| b.city_id == city_id,
            kept@ == items@.take(it.index() as int).filter(keep),
    {
        proof {
            assert(items@.take(it.index() + 1) =~= items@.take(it.index() as int).push(b));
            items@.take(it.index() as int).lemma_filter_push(b, keep);
        }
        if b.city_id.0 == city_id.0 {
            kept.push(b);
        }
    }
    proof {
        assert(items@.take(items@.len() as int) =~= items@);
    }
    kept
}

/// The buses that run on the route in the city, in the order given.
pub fn buses_of_route(items: Vec<Bus>, city_id: CityId, route_id: &RouteId) -> (kept: Vec<Bus>)
    ensures
        kept@ == items@.filter(|b: Bus| b.city_id == city_id && b.route_id.0@ == route_id.0@),
{
    let mut kept: Vec<Bus> = Vec::new();
    let ghost keep = |b: Bus| b.city_id == city_id && b.route_id.0@ == route_id.0@;
    proof {
        items@.take(0).lemma_filter_len(keep);
        assert(kept@ =~= items@.take(0).filter(keep));
    }
    for b in it: items
        invariant
            it.seq() == items@,
            keep == |b: Bus| b.city_id == city_id && b.route_id.0@ == route_id.0@,
            kept@ == items@.take(it.index() as int).filter(keep),
    {
        proof {
            assert(items@.take(it.index() + 1) =~= items@.take(it.index() as int).push(b));
            items@.take(it.index() as int).lemma_filter_push(b, keep);
        }
        if b.city_id.0 == city_id.0 && same_text(b.route_id.0.as_str(), route_id.0.as_str()) {
            kept.push(b);
        }
    }
    proof {
        assert(items@.take(items@.len() as int) =~= items@);
    }
    kept
}

/// The arrivals at the stop, in the order given.
pub fn arrivals_at_stop(items: Vec<BusArrival>, stop_id: &BusStopId) -> (kept: Vec<BusArrival>)
    ensures
        kept@ == items@.filter(|a: BusArrival| a.stop_id.0@ == stop_id.0@),
{
    let mut kept: Vec<BusArrival> = Vec::new();
    let ghost keep = |a: BusArrival| a.stop_id.0@ == stop_id.0@;
    proof {
        items@.take(0).lemma_filter_len(keep);
        assert(kept@ =~= items@.take(0).filter(keep));
    }
    for a in it: items
        invariant
            it.seq() == items@,
            keep == |a: BusArrival| a.stop_id.0@ == stop_id.0@,
            kept@ == items@.take(it.index() as int).filter(keep),
    {
        proof {
            assert(items@.take(it.index() + 1) =~= items@.take(it.index() as int).push(a));
            items@.take(it.index() as int).lemma_filter_push(a, keep);
        }
        if same_text(a.stop_id.0.as_str(), stop_id.0.as_str()) {
            kept.push(a);
        }
    }
    proof {
        assert(items@.take(items@.len() as int) =~= items@);
    }
    kept
}

/// `i` is the place of the first route with the given id.
pub open spec fn first_with_id(routes: Seq<BusRoute>, id: Seq<char>, i: int) -> bool {
    &&& 0 <= i < routes.len()
    &&& routes[i].id.0@ == id
    &&& forall|j: int| 0 <= j < i ==> (#[trigger] routes[j]).id.0@ != id
}

/// The first route with the given id, if there is one.
pub fn route_by_id(routes: Vec<BusRoute>, route_id: &RouteId) -> (found: Option<BusRoute>)
    ensures
        match found {
            Some(route) => exists|i: int|
                first_with_id(routes@, route_id.0@, i) && routes@[i] == route,
            None => forall|i: int| 0 <= i < routes@.len() ==> (#[trigger] routes@[i]).id.0@
                != route_id.0@,
        },
{
    for route in it: routes
        invariant
            it.seq() == routes@,
            forall|j: int| 0 <= j < it.index() ==> (#[trigger] routes@[j]).id.0@ != route_id.0@,
    {
        if same_text(route.id.0.as_str(), route_id.0.as_str()) {
            proof {
                assert(first_with_id(routes@, route_id.0@, it.index() as int));
            }
            return Some(route);
        }
    }
    None
}

/// Why a repository could not answer.
#[derive(Debug)]
pub struct RepositoryError {
    pub message: String,
}

/// The store that the use cases read from and write to.  Nothing is promised
/// of what an implementation answers.
pub trait BusInformationRepository {
    fn find_stops_by_city(&self, city_id: u8) -> Result<Vec<BusStop>, RepositoryError>;

    fn find_arrival_info_by_stop(&self, city_id: u8, bus_stop_id: u16) -> Result<
        Vec<BusArrival>,
        RepositoryError,
    >;

    fn find_buses_by_city(&self, city_id: u8) -> Result<Vec<Bus>, RepositoryError>;

    fn find_buses_by_route(&self, city_id: u8, route_id: u16) -> Result<
        Vec<Bus>,
        RepositoryError,
    >;

    fn find_polyline_by_route(&self, city_id: u8, route_id: u16) -> Result<
        Polyline,
        RepositoryError,
    >;

    fn refresh_all_data(&self) -> Result<(), RepositoryError>;
}

/// Gets the places of all bus stops of a city.
pub struct GetBusStopLocationByCity<R: BusInformationRepository> {
    repository: Arc<R>,
}

impl<R: BusInformationRepository> GetBusStopLocationByCity<R> {
    /// The repository that the use case asks.
    pub closed spec fn repository(&self) -> Arc<R> {
        self.repository
    }

    /// The use case over the given repository.
    pub fn new(repository: Arc<R>) -> (use_case: Self)
        ensures
            use_case.repository() == repository,
    {
        Self { repository }
    }

    /// Asks the repository for the stops of the city and hands on its
    /// answer.
    pub fn execute(&self, city_id: u8) -> (r: Result<Vec<BusStop>, RepositoryError>)
        ensures
            call_ensures(R::find_stops_by_city, (&*self.repository(), city_id), r),
    {
        self.repository.find_stops_by_city(city_id)
    }
}

/// Gets the coming arrivals at a bus stop.
pub struct GetBusStopArrivalByCity<R: BusInformationRepository> {
    repository: Arc<R>,
}

impl<R: BusInformationRepository> GetBusStopArrivalByCity<R> {
    /// The repository that the use case asks.
    pub closed spec fn repository(&self) -> Arc<R> {
        self.repository
    }

    /// The use case over the given repository.
    pub fn new(repository: Arc<R>) -> (use_case: Self)
        ensures
            use_case.repository() == repository,
    {
        Self { repository }
    }

    /// Asks the repository for the arrivals at the stop.
    pub fn execute(&self, city_id: u8, bus_stop_id: u16) -> (r: Result<
        Vec<BusArrival>,
        RepositoryError,
    >)
        ensures
            call_ensures(
                R::find_arrival_info_by_stop,
                (&*self.repository(), city_id, bus_stop_id),
                r,
            ),
    {
        self.repository.find_arrival_info_by_stop(city_id, bus_stop_id)
    }
}

/// Gets the places of all buses of a city.
pub struct GetBusLocationByCity<R: BusInformationRepository> {
    repository: Arc<R>,
}

impl<R: BusInformationRepository> GetBusLocationByCity<R> {
    /// The repository that the use case asks.
    pub closed spec fn repository(&self) -> Arc<R> {
        self.repository
    }

    /// The use case over the given repository.
    pub fn new(repository: Arc<R>) -> (use_case: Self)
        ensures
            use_case.repository() == repository,
    {
        Self { repository }
    }

    /// Asks the repository for the buses of the city.
    pub fn execute(&self, city_id: u8) -> (r: Result<Vec<Bus>, RepositoryError>)
        ensures
            call_ensures(R::find_buses_by_city, (&*self.repository(), city_id), r),
    {
        self.repository.find_buses_by_city(city_id)
    }
}

/// Gets the places of all buses of a route.
pub struct GetBusLocationByRoute<R: BusInformationRepository> {
    repository: Arc<R>,
}

impl<R: BusInformationRepository> GetBusLocationByRoute<R> {
    /// The repository that the use case asks.
    pub closed spec fn repository(&self) -> Arc<R> {
        self.repository
    }

    /// The use case over the given repository.
    pub fn new(repository: Arc<R>) -> (use_case: Self)
        ensures
            use_case.repository() == repository,
    {
        Self { repository }
    }

    /// Asks the repository for the buses of the route.
    pub fn execute(&self, city_id: u8, route_id: u16) -> (r: Result<
        Vec<Bus>,
        RepositoryError,
    >)
        ensures
            call_ensures(R::find_buses_by_route, (&*self.repository(), city_id, route_id), r),
    {
        self.repository.find_buses_by_route(city_id, route_id)
    }
}

/// Gets the path of a route.
pub struct GetBusPolylineByRoute<R: BusInformationRepository> {
    repository: Arc<R>,
}

impl<R: BusInformationRepository> GetBusPolylineByRoute<R> {
    /// The repository that the use case asks.
    pub closed spec fn repository(&self) -> Arc<R> {
        self.repository
    }

    /// The use case over the given repository.
    pub fn new(repository: Arc<R>) -> (use_case: Self)
        ensures
            use_case.repository() == repository,
    {
        Self { repository }
    }

    /// Asks the repository for the path of the route.
    pub fn execute(&self, city_id: u8, route_id: u16) -> (r: Result<Polyline, RepositoryError>)
        ensures
            call_ensures(R::find_polyline_by_route, (&*self.repository(), city_id, route_id), r),
    {
        self.repository.find_polyline_by_route(city_id, route_id)
    }
}

/// Starts a refresh of all data from their source.
pub struct UpdateData<R: BusInformationRepository> {
    repository: Arc<R>,
}

impl<R: BusInformationRepository> UpdateData<R> {
    /// The repository that the use case asks.
    pub closed spec fn repository(&self) -> Arc<R> {
        self.repository
    }

    /// The use case over the given repository.
    pub fn new(repository: Arc<R>) -> (use_case: Self)
        ensures
            use_case.repository() == repository,
    {
        Self { repository }
    }

    /// Asks the repository to refresh its data.
    pub fn execute(&self) -> (r: Result<(), RepositoryError>)
        ensures
            call_ensures(R::refresh_all_data, (&*self.repository(),), r),
    {
        self.repository.refresh_all_data()
    }
}

} // verus!
