use polly::json::Json;
use polly::snapping::{
    chunk_geometry, chunk_ranges, route_geometry, tag_segment, turning_point, EngineReply,
    Segment, Snapper, CHUNK_SIZE,
};
use polly::stop::Direction::{Down, Up};
use polly::stop::{Coord, Direction, Stop};

fn stop(ord: i64, direction: Direction) -> Stop {
    Stop {
        node_id: format!("n{}", ord),
        name: format!("stop {}", ord),
        order: ord,
        code: ord.to_string(),
        latitude: 37_000_000 + ord * 1_000,
        longitude: 127_000_000 + ord * 1_000,
        direction,
    }
}

fn at(ord: i64) -> Coord {
    Coord { lon: 127_000_000 + ord * 1_000, lat: 37_000_000 + ord * 1_000 }
}

fn route(directions: &[Direction]) -> Vec<Stop> {
    directions.iter().enumerate().map(|(i, d)| stop(i as i64, *d)).collect()
}

fn down(n: usize) -> Vec<Stop> {
    route(&vec![Direction::Down; n])
}

fn object(members: Vec<(&str, Json)>) -> Json {
    Json::Object(members.into_iter().map(|(k, v)| (k.to_string(), v)).collect())
}

fn point(lon: i64, lat: i64) -> Json {
    Json::Array(vec![Json::Decimal(lon), Json::Decimal(lat)])
}

fn answer(code: &str, points: Vec<Json>) -> Json {
    object(vec![
        ("code", Json::Str(code.to_string())),
        (
            "routes",
            Json::Array(vec![object(vec![(
                "geometry",
                object(vec![("coordinates", Json::Array(points))]),
            )])]),
        ),
    ])
}

#[test]
fn turning_point_is_the_first_stop_of_another_direction() {
    assert_eq!(turning_point(&route(&[Down, Down, Up, Up])), 2);
    assert_eq!(turning_point(&route(&[Down, Up, Down, Up])), 1);
    assert_eq!(turning_point(&route(&[Up, Up, Up, Down])), 3);
    assert_eq!(turning_point(&route(&[Down, Down, Up, Down])), 2);
    assert_eq!(turning_point(&route(&[Down, Up])), 1);
}

#[test]
fn turning_point_without_a_change_is_the_last_index() {
    assert_eq!(turning_point(&route(&[Down, Down, Down])), 2);
    assert_eq!(turning_point(&route(&[Up, Up])), 1);
    assert_eq!(turning_point(&route(&[Down])), 0);
}

#[test]
fn chunks_of_a_short_route() {
    assert_eq!(chunk_ranges(5, CHUNK_SIZE), vec![(0, 5)]);
    assert_eq!(chunk_ranges(2, CHUNK_SIZE), vec![(0, 2)]);
    assert_eq!(chunk_ranges(140, 140), vec![(0, 140)]);
    assert_eq!(CHUNK_SIZE, 140);
}

#[test]
fn a_route_of_fewer_than_two_stops_has_no_chunk() {
    assert_eq!(chunk_ranges(0, 140), vec![]);
    assert_eq!(chunk_ranges(1, 140), vec![]);
}

#[test]
fn chunks_overlap_by_one_stop() {
    assert_eq!(chunk_ranges(7, 3), vec![(0, 3), (2, 5), (4, 7)]);
    assert_eq!(chunk_ranges(6, 3), vec![(0, 3), (2, 5), (4, 6)]);
    assert_eq!(chunk_ranges(141, 140), vec![(0, 140), (139, 141)]);
    assert_eq!(chunk_ranges(300, 140), vec![(0, 140), (139, 279), (278, 300)]);
    assert_eq!(chunk_ranges(5, 2), vec![(0, 2), (1, 3), (2, 4), (3, 5)]);
}

#[test]
fn chunks_cover_every_stop_once() {
    for size in 2..8usize {
        for n in 2..40usize {
            let chunks = chunk_ranges(n, size);
            let mut seen = vec![0usize; n];
            for (k, (start, end)) in chunks.iter().enumerate() {
                assert!(end - start >= 2, "size {} n {}", size, n);
                assert!(end - start <= size);
                let first = if k == 0 { *start } else { *start + 1 };
                for i in first..*end {
                    seen[i] += 1;
                }
            }
            assert!(seen.iter().all(|c| *c == 1), "size {} n {}", size, n);
        }
    }
}

#[test]
fn geometry_is_read_from_a_successful_answer() {
    let body = answer("Ok", vec![point(127_000_000, 37_000_000), point(127_000_500, 37_000_250)]);
    assert_eq!(
        route_geometry(&body),
        Some(vec![
            Coord { lon: 127_000_000, lat: 37_000_000 },
            Coord { lon: 127_000_500, lat: 37_000_250 },
        ])
    );
    let whole = answer("Ok", vec![Json::Array(vec![Json::Int(127), Json::Int(37), Json::Int(5)])]);
    assert_eq!(route_geometry(&whole), Some(vec![Coord { lon: 127_000_000, lat: 37_000_000 }]));
}

#[test]
fn geometry_is_missing_from_other_answers() {
    let p = || vec![point(1, 2), point(3, 4)];
    assert_eq!(route_geometry(&answer("NoRoute", p())), None);
    assert_eq!(route_geometry(&answer("ok", p())), None);
    assert_eq!(route_geometry(&answer("Ok", vec![])), None);
    assert_eq!(route_geometry(&answer("Ok", vec![point(1, 2), Json::Null])), None);
    assert_eq!(route_geometry(&answer("Ok", vec![Json::Array(vec![Json::Int(1)])])), None);
    assert_eq!(
        route_geometry(&answer(
            "Ok",
            vec![Json::Array(vec![Json::Int(1), Json::Str("2".to_string())])]
        )),
        None
    );
    assert_eq!(route_geometry(&Json::Null), None);
    assert_eq!(route_geometry(&object(vec![("code", Json::Str("Ok".to_string()))])), None);
    assert_eq!(
        route_geometry(&object(vec![
            ("code", Json::Str("Ok".to_string())),
            ("routes", Json::Array(vec![]))
        ])),
        None
    );
    assert_eq!(
        route_geometry(&object(vec![("code", Json::Int(0)), ("routes", Json::Array(vec![]))])),
        None
    );
}

#[test]
fn fallback_is_the_straight_line_of_the_chunk() {
    let own = vec![at(0), at(1), at(2)];
    assert_eq!(chunk_geometry(own.clone(), &EngineReply::Unavailable), own);
    assert_eq!(
        chunk_geometry(own.clone(), &EngineReply::Body(answer("NoRoute", vec![point(1, 2)]))),
        own
    );
    assert_eq!(chunk_geometry(own.clone(), &EngineReply::Body(Json::Null)), own);
    let road = EngineReply::Body(answer("Ok", vec![point(5, 6), point(7, 8), point(9, 10)]));
    assert_eq!(
        chunk_geometry(own, &road),
        vec![Coord { lon: 5, lat: 6 }, Coord { lon: 7, lat: 8 }, Coord { lon: 9, lat: 10 }]
    );
}

#[test]
fn segments_are_tagged_by_turning_point() {
    let stops = down(10);
    let line = vec![at(0), at(1), at(2)];
    let first = tag_segment(&stops, 4, 0, (0, 3), line.clone());
    assert_eq!(
        first,
        Segment {
            coordinates: line.clone(),
            direction: Direction::Down,
            contains_turning_point: false,
            start_order: 0,
        }
    );
    let holds = tag_segment(&stops, 4, 1, (2, 5), line.clone());
    assert_eq!(holds.direction, Direction::Down);
    assert!(holds.contains_turning_point);
    assert_eq!(holds.start_order, 2);
    assert_eq!(holds.coordinates, vec![at(1), at(2)]);
    let starts_on = tag_segment(&stops, 4, 2, (4, 7), line.clone());
    assert_eq!(starts_on.direction, Direction::Down);
    assert!(starts_on.contains_turning_point);
    let past = tag_segment(&stops, 4, 3, (6, 9), line.clone());
    assert_eq!(past.direction, Direction::Up);
    assert!(!past.contains_turning_point);
    assert_eq!(past.start_order, 6);
    let ends_before = tag_segment(&stops, 4, 0, (1, 4), line);
    assert!(!ends_before.contains_turning_point);
}

#[test]
fn a_later_chunk_gives_up_its_first_point() {
    let stops = down(6);
    assert_eq!(tag_segment(&stops, 5, 1, (2, 4), vec![at(2), at(3)]).coordinates, vec![at(3)]);
    assert_eq!(tag_segment(&stops, 5, 1, (2, 4), vec![at(2)]).coordinates, vec![]);
    assert_eq!(tag_segment(&stops, 5, 1, (2, 4), vec![]).coordinates, vec![]);
    assert_eq!(
        tag_segment(&stops, 5, 0, (0, 2), vec![at(0), at(1)]).coordinates,
        vec![at(0), at(1)]
    );
}

#[test]
fn a_failed_chunk_falls_back_to_its_straight_line() {
    let stops = route(&[Down, Down, Down, Up, Up]);
    let mut snapper = Snapper::begin(stops, 3).unwrap();
    assert!(!snapper.is_complete());
    assert_eq!(snapper.request(), Some(vec![at(0), at(1), at(2)]));
    snapper.supply(&EngineReply::Unavailable);
    assert_eq!(snapper.request(), Some(vec![at(2), at(3), at(4)]));
    let road = vec![point(127_002_000, 37_002_000), point(127_003_300, 37_003_100), point(127_004_000, 37_004_000)];
    snapper.supply(&EngineReply::Body(answer("Ok", road)));
    assert!(snapper.is_complete());
    assert_eq!(snapper.request(), None);
    let path = snapper.finish();
    assert_eq!(
        path,
        vec![
            Segment {
                coordinates: vec![at(0), at(1), at(2)],
                direction: Down,
                contains_turning_point: false,
                start_order: 0,
            },
            Segment {
                coordinates: vec![
                    Coord { lon: 127_003_300, lat: 37_003_100 },
                    Coord { lon: 127_004_000, lat: 37_004_000 },
                ],
                direction: Down,
                contains_turning_point: true,
                start_order: 2,
            },
        ]
    );
}

#[test]
fn a_failed_chunk_leaves_the_other_chunks_as_they_are() {
    let road = |k: i64| {
        EngineReply::Body(answer("Ok", vec![point(k, k), point(k + 1, k + 1), point(k + 2, k + 2)]))
    };
    let run = |fail: Option<usize>| {
        let mut snapper = Snapper::begin(down(7), 3).unwrap();
        let mut k = 0usize;
        while snapper.request().is_some() {
            if fail == Some(k) {
                snapper.supply(&EngineReply::Unavailable);
            } else {
                snapper.supply(&road(10 * k as i64));
            }
            k += 1;
        }
        assert_eq!(k, 3);
        snapper.finish()
    };
    let fine = run(None);
    let broken = run(Some(1));
    assert_eq!(fine.len(), 3);
    assert_eq!(broken[0], fine[0]);
    assert_eq!(broken[2], fine[2]);
    assert_eq!(broken[1].coordinates, vec![at(3), at(4)]);
    assert_eq!(broken[1].start_order, fine[1].start_order);
    assert_eq!(fine[2].direction, Direction::Down);
    assert!(fine[2].contains_turning_point);
    assert!(!fine[0].contains_turning_point);
}

#[test]
fn segments_behind_the_turning_point_run_up() {
    let stops = route(&[Down, Up, Up, Up, Up, Up, Up]);
    let mut snapper = Snapper::begin(stops, 3).unwrap();
    while snapper.request().is_some() {
        snapper.supply(&EngineReply::Unavailable);
    }
    let path = snapper.finish();
    assert_eq!(path.len(), 3);
    assert_eq!(path[0].direction, Down);
    assert!(path[0].contains_turning_point);
    assert_eq!(path[1].direction, Up);
    assert!(!path[1].contains_turning_point);
    assert_eq!(path[2].direction, Up);
    assert_eq!(path[2].start_order, 4);
}

#[test]
fn a_route_with_fewer_than_two_plausible_stops_is_not_snapped() {
    assert!(Snapper::begin(Vec::new(), 140).is_none());
    assert!(Snapper::begin(down(1), 140).is_none());
    let mut far = down(3);
    far[0].latitude = 0;
    far[1].longitude = 0;
    assert!(Snapper::begin(far, 140).is_none());
    assert!(Snapper::begin(down(2), 140).is_some());
}

#[test]
fn implausible_stops_stay_out_of_requests_and_chunks_without_two_are_skipped() {
    let mut stops = down(7);
    stops[1].latitude = 0;
    stops[2].longitude = 120_000_000;
    stops[3].latitude = 30_000_000;
    let mut snapper = Snapper::begin(stops, 3).unwrap();
    assert_eq!(snapper.request(), Some(vec![at(4), at(5), at(6)]));
    snapper.supply(&EngineReply::Unavailable);
    assert_eq!(snapper.request(), None);
    let path = snapper.finish();
    assert_eq!(path.len(), 1);
    assert_eq!(path[0].coordinates, vec![at(5), at(6)]);
    assert_eq!(path[0].start_order, 4);
}

#[test]
fn supplying_a_complete_snapper_changes_nothing() {
    let mut snapper = Snapper::begin(down(2), 140).unwrap();
    snapper.supply(&EngineReply::Unavailable);
    assert!(snapper.is_complete());
    snapper.supply(&EngineReply::Unavailable);
    assert!(snapper.is_complete());
    assert_eq!(snapper.finish().len(), 1);
}

#[test]
fn only_a_decoded_answer_under_a_success_status_is_handed_on() {
    let body = || answer("Ok", vec![point(1, 2)]);
    assert_eq!(EngineReply::from_response(Some(200), Some(body())), EngineReply::Body(body()));
    assert_eq!(EngineReply::from_response(Some(299), Some(body())), EngineReply::Body(body()));
    assert_eq!(EngineReply::from_response(Some(199), Some(body())), EngineReply::Unavailable);
    assert_eq!(EngineReply::from_response(Some(300), Some(body())), EngineReply::Unavailable);
    assert_eq!(EngineReply::from_response(Some(400), Some(body())), EngineReply::Unavailable);
    assert_eq!(EngineReply::from_response(Some(500), Some(body())), EngineReply::Unavailable);
    assert_eq!(EngineReply::from_response(Some(200), None), EngineReply::Unavailable);
    assert_eq!(EngineReply::from_response(None, Some(body())), EngineReply::Unavailable);
    assert_eq!(EngineReply::from_response(None, None), EngineReply::Unavailable);
}

#[test]
fn a_chunk_that_starts_on_the_turning_point_runs_down_and_holds_it() {
    let stops = route(&[Down, Down, Up, Up, Up]);
    assert_eq!(turning_point(&stops), 2);
    let mut snapper = Snapper::begin(stops, 3).unwrap();
    while snapper.request().is_some() {
        snapper.supply(&EngineReply::Unavailable);
    }
    let path = snapper.finish();
    assert_eq!(path.len(), 2);
    assert_eq!(path[0].direction, Down);
    assert!(path[0].contains_turning_point);
    assert_eq!(path[1].start_order, 2);
    assert_eq!(path[1].direction, Down);
    assert!(path[1].contains_turning_point);
}

#[test]
fn a_chunk_that_starts_behind_the_turning_point_runs_up() {
    let stops = route(&[Down, Up, Up, Up, Up]);
    let mut snapper = Snapper::begin(stops, 3).unwrap();
    while snapper.request().is_some() {
        snapper.supply(&EngineReply::Unavailable);
    }
    let path = snapper.finish();
    assert_eq!(path.len(), 2);
    assert!(path[0].contains_turning_point);
    assert_eq!(path[1].start_order, 2);
    assert_eq!(path[1].direction, Up);
    assert!(!path[1].contains_turning_point);
}
