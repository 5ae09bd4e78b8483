use polly::geometry::{
    closest, on_globe, plausible, plausible_positions, project, project_onto_polyline, Measured,
};
use polly::stop::{Coord, Direction, Stop};

fn c(lon: i64, lat: i64) -> Coord {
    Coord { lon, lat }
}

fn stop(lon: i64, lat: i64) -> Stop {
    Stop {
        node_id: "n".to_string(),
        name: "s".to_string(),
        order: 0,
        code: String::new(),
        latitude: lat,
        longitude: lon,
        direction: Direction::Down,
    }
}

#[test]
fn plausible_positions_lie_north_of_30_and_east_of_120() {
    assert!(plausible(c(127_000_000, 37_000_000)));
    assert!(plausible(c(120_000_001, 30_000_001)));
    assert!(!plausible(c(120_000_000, 37_000_000)));
    assert!(!plausible(c(127_000_000, 30_000_000)));
    assert!(!plausible(c(0, 0)));
    assert!(!plausible(c(-127_000_000, 37_000_000)));
}

#[test]
fn plausible_positions_of_a_range() {
    let stops = vec![
        stop(127_000_000, 37_000_000),
        stop(0, 0),
        stop(127_000_002, 37_000_002),
        stop(127_000_003, 37_000_003),
    ];
    assert_eq!(
        plausible_positions(&stops, 0, 4),
        vec![c(127_000_000, 37_000_000), c(127_000_002, 37_000_002), c(127_000_003, 37_000_003)]
    );
    assert_eq!(plausible_positions(&stops, 1, 3), vec![c(127_000_002, 37_000_002)]);
    assert_eq!(plausible_positions(&stops, 1, 2), vec![]);
    assert_eq!(plausible_positions(&stops, 2, 2), vec![]);
}

#[test]
fn the_globe_ends_at_180_and_90_degrees() {
    assert!(on_globe(c(180_000_000, 90_000_000)));
    assert!(on_globe(c(-180_000_000, -90_000_000)));
    assert!(!on_globe(c(180_000_001, 0)));
    assert!(!on_globe(c(0, -90_000_001)));
    assert!(!on_globe(c(i64::MAX, i64::MIN)));
}

#[test]
fn projection_inside_a_segment() {
    let a = c(127_000_000, 37_000_000);
    let b = c(127_001_000, 37_000_000);
    assert_eq!(project(c(127_000_500, 37_000_300), a, b), c(127_000_500, 37_000_000));
    assert_eq!(project(c(127_000_250, 36_999_000), a, b), c(127_000_250, 37_000_000));
    assert_eq!(project(c(10, 10), c(0, 0), c(20, 20)), c(10, 10));
    assert_eq!(project(c(0, 20), c(0, 0), c(20, 20)), c(10, 10));
}

#[test]
fn projection_is_clamped_to_the_ends() {
    let a = c(127_000_000, 37_000_000);
    let b = c(127_001_000, 37_000_000);
    assert_eq!(project(c(126_000_000, 37_500_000), a, b), a);
    assert_eq!(project(c(128_000_000, 36_500_000), a, b), b);
    assert_eq!(project(a, a, b), a);
    assert_eq!(project(b, a, b), b);
    assert_eq!(project(c(5, 5), a, a), a);
}

#[test]
fn projection_rounds_to_the_nearest_millionth() {
    assert_eq!(project(c(1, 5), c(0, 0), c(3, 0)), c(1, 0));
    assert_eq!(project(c(1, 0), c(0, 0), c(3, 3)), c(1, 1));
    assert_eq!(project(c(1, 0), c(0, 0), c(4, 4)), c(1, 1));
    assert_eq!(project(c(-1, 0), c(0, 0), c(-4, -4)), c(-1, -1));
    assert_eq!(project(c(1, 0), c(0, 0), c(2, 2)), c(1, 1));
    assert_eq!(project(c(3, 0), c(0, 0), c(10, 10)), c(2, 2));
    assert_eq!(project(c(-3, 0), c(0, 0), c(-10, 10)), c(-2, 2));
}

#[test]
fn projection_at_the_ends_of_the_globe() {
    let a = c(-180_000_000, -90_000_000);
    let b = c(180_000_000, 90_000_000);
    assert_eq!(project(c(0, 0), a, b), c(0, 0));
    assert_eq!(project(c(180_000_000, -90_000_000), a, b), c(108_000_000, 54_000_000));
    assert_eq!(project(b, a, b), b);
}

#[test]
fn every_usable_segment_gives_a_candidate() {
    let line = vec![
        c(127_000_000, 37_000_000),
        c(127_001_000, 37_000_000),
        c(127_001_000, 37_000_000),
        c(127_001_000, 37_001_000),
        c(999_000_000, 37_001_000),
        c(127_002_000, 37_001_000),
    ];
    let p = c(127_000_400, 37_000_600);
    assert_eq!(
        project_onto_polyline(p, &line),
        vec![c(127_000_400, 37_000_000), c(127_001_000, 37_000_600)]
    );
}

#[test]
fn no_candidate_without_a_segment() {
    let p = c(127_000_400, 37_000_600);
    assert_eq!(project_onto_polyline(p, &Vec::new()), vec![]);
    assert_eq!(project_onto_polyline(p, &vec![c(127_000_000, 37_000_000)]), vec![]);
    assert_eq!(project_onto_polyline(p, &vec![p, p, p]), vec![]);
    assert_eq!(
        project_onto_polyline(c(500_000_000, 0), &vec![c(0, 0), c(10, 10)]),
        vec![]
    );
}

#[test]
fn closest_is_the_earliest_of_the_nearest() {
    let m = |lon: i64, d: u64| Measured { point: c(lon, 0), distance: d };
    assert_eq!(closest(&Vec::new()), None);
    assert_eq!(closest(&vec![m(1, 50)]), Some(m(1, 50)));
    assert_eq!(closest(&vec![m(1, 50), m(2, 40), m(3, 60)]), Some(m(2, 40)));
    assert_eq!(closest(&vec![m(1, 50), m(2, 40), m(3, 40)]), Some(m(2, 40)));
    assert_eq!(closest(&vec![m(1, 7), m(2, 7), m(3, 7)]), Some(m(1, 7)));
    assert_eq!(closest(&vec![m(1, u64::MAX), m(2, u64::MAX)]), Some(m(1, u64::MAX)));
    assert_eq!(closest(&vec![m(1, 9), m(2, 8), m(3, 0)]), Some(m(3, 0)));
}
