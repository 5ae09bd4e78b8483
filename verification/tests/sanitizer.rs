use polly::geometry::Measured;
use polly::json::Json;
use polly::sanitizer::{corrected, Sanitizer, KEEP_BEYOND, SNAP_WITHIN};
use polly::snapping::EngineReply;
use polly::stop::{Coord, RawStop};

fn c(lon: i64, lat: i64) -> Coord {
    Coord { lon, lat }
}

fn stop(id: &str, lon: i64, lat: i64) -> RawStop {
    RawStop {
        node_id: id.to_string(),
        node_nm: id.to_string(),
        node_ord: 0,
        node_no: String::new(),
        gps_lat: lat,
        gps_long: lon,
        up_down_cd: 0,
    }
}

fn corridor(points: &[(i64, i64)]) -> EngineReply {
    let line = points
        .iter()
        .map(|(lon, lat)| Json::Array(vec![Json::Decimal(*lon), Json::Decimal(*lat)]))
        .collect();
    let object = |members: Vec<(&str, Json)>| {
        Json::Object(members.into_iter().map(|(k, v)| (k.to_string(), v)).collect())
    };
    EngineReply::Body(object(vec![
        ("code", Json::Str("Ok".to_string())),
        (
            "routes",
            Json::Array(vec![object(vec![(
                "geometry",
                object(vec![("coordinates", Json::Array(line))]),
            )])]),
        ),
    ]))
}

#[test]
fn thresholds_are_90_and_250_metres() {
    assert_eq!(SNAP_WITHIN, 90_000);
    assert_eq!(KEEP_BEYOND, 250_000);
}

#[test]
fn a_stop_within_90_metres_moves_to_the_projected_point() {
    let here = c(127_000_000, 37_000_000);
    let there = c(127_000_100, 37_000_050);
    let m = |d: u64| Some(Measured { point: there, distance: d });
    assert_eq!(corrected(here, m(0)), there);
    assert_eq!(corrected(here, m(40_000)), there);
    assert_eq!(corrected(here, m(90_000)), there);
}

#[test]
fn a_stop_beyond_90_metres_stays() {
    let here = c(127_000_000, 37_000_000);
    let there = c(127_000_100, 37_000_050);
    let m = |d: u64| Some(Measured { point: there, distance: d });
    assert_eq!(corrected(here, m(90_001)), here);
    assert_eq!(corrected(here, m(170_000)), here);
    assert_eq!(corrected(here, m(249_999)), here);
    assert_eq!(corrected(here, m(250_000)), here);
    assert_eq!(corrected(here, m(300_000)), here);
    assert_eq!(corrected(here, m(u64::MAX)), here);
    assert_eq!(corrected(here, None), here);
}

#[test]
fn a_near_stop_is_snapped_and_a_far_stop_is_left() {
    let stops = vec![
        stop("a", 127_000_000, 37_000_000),
        stop("b", 127_001_000, 37_000_400),
        stop("c", 127_002_000, 37_003_000),
        stop("d", 127_003_000, 37_000_000),
    ];
    let mut sanitizer = Sanitizer::begin(&stops);

    assert_eq!(sanitizer.corridor(), Some((c(127_000_000, 37_000_000), c(127_002_000, 37_003_000))));
    let feet = sanitizer.candidates(&corridor(&[(127_000_000, 37_000_000), (127_002_000, 37_000_000)]));
    assert_eq!(feet, vec![c(127_001_000, 37_000_000)]);
    sanitizer.settle(&vec![Measured { point: feet[0], distance: 40_000 }]);

    assert_eq!(sanitizer.corridor(), Some((c(127_001_000, 37_000_000), c(127_003_000, 37_000_000))));
    let feet = sanitizer.candidates(&corridor(&[(127_001_000, 37_000_000), (127_003_000, 37_000_000)]));
    assert_eq!(feet, vec![c(127_002_000, 37_000_000)]);
    sanitizer.settle(&vec![Measured { point: feet[0], distance: 300_000 }]);

    assert_eq!(sanitizer.corridor(), None);
    let stops = sanitizer.finish();
    assert_eq!(stops[0].position(), c(127_000_000, 37_000_000));
    assert_eq!(stops[1].position(), c(127_001_000, 37_000_000));
    assert_eq!(stops[2].position(), c(127_002_000, 37_003_000));
    assert_eq!(stops[3].position(), c(127_003_000, 37_000_000));
    assert_eq!(stops[1].node_id, "b");
    assert_eq!(stops[2].node_id, "c");
}

#[test]
fn first_and_last_stop_are_never_moved() {
    let two = vec![stop("a", 127_000_000, 37_000_000), stop("b", 127_001_000, 37_000_000)];
    let mut sanitizer = Sanitizer::begin(&two);
    assert_eq!(sanitizer.corridor(), None);
    sanitizer.settle(&vec![Measured { point: c(1, 1), distance: 0 }]);
    let stops = sanitizer.finish();
    assert_eq!(stops[0].position(), c(127_000_000, 37_000_000));
    assert_eq!(stops[1].position(), c(127_001_000, 37_000_000));
    assert_eq!(Sanitizer::begin(&Vec::new()).corridor(), None);
    assert_eq!(Sanitizer::begin(&vec![stop("a", 127_000_000, 37_000_000)]).corridor(), None);
}

#[test]
fn a_stop_between_implausible_neighbours_is_passed_over() {
    let stops = vec![
        stop("a", 0, 0),
        stop("b", 127_001_000, 37_000_400),
        stop("c", 127_002_000, 37_000_000),
        stop("d", 127_003_000, 37_000_300),
        stop("e", 127_004_000, 37_000_000),
    ];
    let mut sanitizer = Sanitizer::begin(&stops);
    assert_eq!(sanitizer.corridor(), Some((c(127_001_000, 37_000_400), c(127_003_000, 37_000_300))));
    sanitizer.settle(&Vec::new());
    assert_eq!(sanitizer.corridor(), Some((c(127_002_000, 37_000_000), c(127_004_000, 37_000_000))));
    sanitizer.settle(&Vec::new());
    assert_eq!(sanitizer.corridor(), None);
}

#[test]
fn a_moved_stop_is_the_neighbour_of_the_next() {
    let stops = vec![
        stop("a", 127_000_000, 37_000_000),
        stop("b", 127_001_000, 37_000_400),
        stop("c", 127_002_000, 37_000_000),
        stop("d", 127_003_000, 37_000_000),
    ];
    let mut sanitizer = Sanitizer::begin(&stops);
    sanitizer.settle(&vec![Measured { point: c(127_001_111, 37_000_011), distance: 1 }]);
    assert_eq!(sanitizer.corridor(), Some((c(127_001_111, 37_000_011), c(127_003_000, 37_000_000))));
}

#[test]
fn a_stop_moved_out_of_bounds_ends_the_corridor_of_the_next() {
    let stops = vec![
        stop("a", 127_000_000, 37_000_000),
        stop("b", 127_001_000, 37_000_400),
        stop("c", 127_002_000, 37_000_000),
        stop("d", 127_003_000, 37_000_000),
    ];
    let mut sanitizer = Sanitizer::begin(&stops);
    sanitizer.settle(&vec![Measured { point: c(0, 0), distance: 1 }]);
    assert_eq!(sanitizer.corridor(), None);
    assert_eq!(sanitizer.finish()[1].position(), c(0, 0));
}

#[test]
fn without_a_corridor_there_is_no_candidate() {
    let stops = vec![
        stop("a", 127_000_000, 37_000_000),
        stop("b", 127_001_000, 37_000_400),
        stop("c", 127_002_000, 37_000_000),
    ];
    let mut sanitizer = Sanitizer::begin(&stops);
    assert_eq!(sanitizer.candidates(&EngineReply::Unavailable), vec![]);
    assert_eq!(sanitizer.candidates(&EngineReply::Body(Json::Null)), vec![]);
    assert_eq!(sanitizer.candidates(&corridor(&[(127_000_000, 37_000_000)])), vec![]);
    sanitizer.settle(&Vec::new());
    assert_eq!(sanitizer.corridor(), None);
    assert_eq!(sanitizer.candidates(&corridor(&[(1, 1), (2, 2)])), vec![]);
    assert_eq!(sanitizer.finish()[1].position(), c(127_001_000, 37_000_400));
}

#[test]
fn the_closest_of_several_candidates_decides() {
    let stops = vec![
        stop("a", 127_000_000, 37_000_000),
        stop("b", 127_001_000, 37_000_400),
        stop("c", 127_002_000, 37_000_000),
    ];
    let mut sanitizer = Sanitizer::begin(&stops);
    sanitizer.settle(&vec![
        Measured { point: c(127_000_001, 37_000_001), distance: 95_000 },
        Measured { point: c(127_000_002, 37_000_002), distance: 60_000 },
        Measured { point: c(127_000_003, 37_000_003), distance: 60_000 },
    ]);
    assert_eq!(sanitizer.finish()[1].position(), c(127_000_002, 37_000_002));
}

#[test]
fn correction_starts_from_stops_in_ascending_order() {
    let mut records = vec![
        stop("c", 127_002_000, 37_000_000),
        stop("a", 127_000_000, 37_000_000),
        stop("", 127_009_000, 37_009_000),
        stop("b", 127_001_000, 37_000_400),
    ];
    records[0].node_ord = 3;
    records[1].node_ord = 1;
    records[2].node_ord = 2;
    records[3].node_ord = 2;
    let sanitizer = Sanitizer::begin(&records);
    assert_eq!(sanitizer.position(), Some(c(127_001_000, 37_000_400)));
    assert_eq!(sanitizer.corridor(), Some((c(127_000_000, 37_000_000), c(127_002_000, 37_000_000))));
    let stops = sanitizer.finish();
    assert_eq!(stops.iter().map(|s| s.node_id.clone()).collect::<Vec<_>>(), vec!["a", "b", "c"]);
}
