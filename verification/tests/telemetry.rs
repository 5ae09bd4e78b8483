use polly::telemetry::{
    arrivals_at_stop, buses_of_city, buses_of_route, route_by_id, routes_of_city, stops_of_city,
    Bus,
    BusArrival, BusInformationRepository, BusRoute, BusStop, BusStopId, CityId, Coordinates,
    GetBusLocationByCity, GetBusLocationByRoute, GetBusPolylineByRoute, GetBusStopArrivalByCity,
    GetBusStopLocationByCity, Polyline, RepositoryError, RouteId, UpdateData,
};
use std::sync::Arc;

struct Fixed;

impl BusInformationRepository for Fixed {
    fn find_stops_by_city(&self, city_id: u8) -> Result<Vec<BusStop>, RepositoryError> {
        Ok(vec![BusStop {
            id: BusStopId("S1".to_string()),
            city_id: CityId(city_id),
            name: "City Hall".to_string(),
            coordinates: Coordinates { longitude: 129_075_600, latitude: 35_179_600 },
        }])
    }

    fn find_arrival_info_by_stop(
        &self,
        city_id: u8,
        bus_stop_id: u16,
    ) -> Result<Vec<BusArrival>, RepositoryError> {
        if city_id == 0 {
            return Err(RepositoryError { message: "no such city".to_string() });
        }
        Ok(vec![BusArrival {
            stop_id: BusStopId(bus_stop_id.to_string()),
            route_id: RouteId("724".to_string()),
            vehicle_id: "Busan-77-1234".to_string(),
            arrival_time: 1_768_989_600,
        }])
    }

    fn find_buses_by_city(&self, city_id: u8) -> Result<Vec<Bus>, RepositoryError> {
        self.find_buses_by_route(city_id, 724)
    }

    fn find_buses_by_route(
        &self,
        city_id: u8,
        route_id: u16,
    ) -> Result<Vec<Bus>, RepositoryError> {
        Ok(vec![Bus {
            id: "Busan-77-1234".to_string(),
            route_id: RouteId(route_id.to_string()),
            city_id: CityId(city_id),
            coordinates: Coordinates { longitude: 129_075_600, latitude: 35_179_600 },
        }])
    }

    fn find_polyline_by_route(&self, _city_id: u8, route_id: u16) -> Result<Polyline, RepositoryError> {
        Ok((0..route_id as i64).map(|i| Coordinates { longitude: i, latitude: -i }).collect())
    }

    fn refresh_all_data(&self) -> Result<(), RepositoryError> {
        Ok(())
    }
}

#[test]
fn use_cases_ask_their_repository() {
    let repository = Arc::new(Fixed);
    let stops = GetBusStopLocationByCity::new(repository.clone()).execute(1).unwrap();
    assert_eq!(stops.len(), 1);
    assert_eq!(stops[0].city_id, CityId(1));
    assert_eq!(stops[0].id, BusStopId("S1".to_string()));

    let arrivals = GetBusStopArrivalByCity::new(repository.clone()).execute(1, 42).unwrap();
    assert_eq!(arrivals[0].stop_id, BusStopId("42".to_string()));
    assert_eq!(arrivals[0].route_id, RouteId("724".to_string()));

    let buses = GetBusLocationByCity::new(repository.clone()).execute(3).unwrap();
    assert_eq!(buses[0].route_id, RouteId("724".to_string()));
    assert_eq!(buses[0].city_id, CityId(3));

    let on_route = GetBusLocationByRoute::new(repository.clone()).execute(3, 10).unwrap();
    assert_eq!(on_route[0].route_id, RouteId("10".to_string()));

    let line = GetBusPolylineByRoute::new(repository.clone()).execute(3, 2).unwrap();
    assert_eq!(
        line,
        vec![
            Coordinates { longitude: 0, latitude: 0 },
            Coordinates { longitude: 1, latitude: -1 }
        ]
    );

    assert!(UpdateData::new(repository).execute().is_ok());
}

#[test]
fn a_failure_of_the_repository_is_handed_on() {
    let arrivals = GetBusStopArrivalByCity::new(Arc::new(Fixed)).execute(0, 42);
    assert_eq!(arrivals.unwrap_err().message, "no such city");
}

fn bus(id: &str, city: u8, route: &str) -> Bus {
    Bus {
        id: id.to_string(),
        route_id: RouteId(route.to_string()),
        city_id: CityId(city),
        coordinates: Coordinates { longitude: 129_075_600, latitude: 35_179_600 },
    }
}

fn names(buses: &Vec<Bus>) -> Vec<String> {
    buses.iter().map(|b| b.id.clone()).collect()
}

#[test]
fn buses_are_kept_by_city_and_route() {
    let all = || vec![bus("a", 1, "724"), bus("b", 2, "724"), bus("c", 1, "10"), bus("d", 1, "724")];
    assert_eq!(names(&buses_of_city(all(), CityId(1))), vec!["a", "c", "d"]);
    assert_eq!(names(&buses_of_city(all(), CityId(2))), vec!["b"]);
    assert_eq!(names(&buses_of_city(all(), CityId(3))), Vec::<String>::new());
    let route = RouteId("724".to_string());
    assert_eq!(names(&buses_of_route(all(), CityId(1), &route)), vec!["a", "d"]);
    assert_eq!(names(&buses_of_route(all(), CityId(2), &route)), vec!["b"]);
    assert_eq!(
        names(&buses_of_route(all(), CityId(1), &RouteId("72".to_string()))),
        Vec::<String>::new()
    );
}

#[test]
fn stops_routes_and_arrivals_are_kept_by_their_ids() {
    let stop = |id: &str, city: u8| BusStop {
        id: BusStopId(id.to_string()),
        city_id: CityId(city),
        name: id.to_string(),
        coordinates: Coordinates { longitude: 0, latitude: 0 },
    };
    let kept = stops_of_city(vec![stop("s1", 1), stop("s2", 2), stop("s3", 1)], CityId(1));
    assert_eq!(kept.iter().map(|s| s.name.clone()).collect::<Vec<_>>(), vec!["s1", "s3"]);

    let route = |id: &str, city: u8| BusRoute {
        id: RouteId(id.to_string()),
        city_id: CityId(city),
        name: id.to_string(),
        polyline: Vec::new(),
    };
    let kept = routes_of_city(vec![route("r1", 9), route("r2", 1)], CityId(9));
    assert_eq!(kept.iter().map(|r| r.name.clone()).collect::<Vec<_>>(), vec!["r1"]);

    let arrival = |stop: &str, vehicle: &str| BusArrival {
        stop_id: BusStopId(stop.to_string()),
        route_id: RouteId("724".to_string()),
        vehicle_id: vehicle.to_string(),
        arrival_time: 0,
    };
    let kept = arrivals_at_stop(
        vec![arrival("s1", "v1"), arrival("s2", "v2"), arrival("s1", "v3")],
        &BusStopId("s1".to_string()),
    );
    assert_eq!(kept.iter().map(|a| a.vehicle_id.clone()).collect::<Vec<_>>(), vec!["v1", "v3"]);
}

#[test]
fn a_route_is_found_by_its_id() {
    let route = |id: &str, name: &str| BusRoute {
        id: RouteId(id.to_string()),
        city_id: CityId(1),
        name: name.to_string(),
        polyline: Vec::new(),
    };
    let all = || vec![route("r1", "one"), route("r2", "two"), route("r1", "again")];
    assert_eq!(route_by_id(all(), &RouteId("r1".to_string())).unwrap().name, "one");
    assert_eq!(route_by_id(all(), &RouteId("r2".to_string())).unwrap().name, "two");
    assert!(route_by_id(all(), &RouteId("r3".to_string())).is_none());
    assert!(route_by_id(Vec::new(), &RouteId("r1".to_string())).is_none());
}
