use polly::config::BusRouteProcessor;
use polly::request::{
    contains, engine_base, engine_url, push_degrees, push_positions, replace, CatalogRequest,
};
use polly::stop::Coord;

fn degrees(m: i64) -> String {
    let mut out = String::new();
    push_degrees(&mut out, m);
    out
}

fn pair(k: &str, v: &str) -> (String, String) {
    (k.to_string(), v.to_string())
}

#[test]
fn degrees_are_written_with_six_decimal_places() {
    assert_eq!(degrees(127_123_456), "127.123456");
    assert_eq!(degrees(37_000_001), "37.000001");
    assert_eq!(degrees(37_500_000), "37.500000");
    assert_eq!(degrees(0), "0.000000");
    assert_eq!(degrees(999_999), "0.999999");
    assert_eq!(degrees(1_000_000), "1.000000");
    assert_eq!(degrees(-500), "-0.000500");
    assert_eq!(degrees(-127_123_456), "-127.123456");
    assert_eq!(degrees(i64::MAX), "9223372036854.775807");
    assert_eq!(degrees(i64::MIN), "-9223372036854.775808");
}

#[test]
fn degrees_agree_with_the_formatting_of_floats() {
    for m in [127_920_101i64, 37_342_306, 30_000_000, 120_000_001, -1_250_000, 5] {
        assert_eq!(degrees(m), format!("{:.6}", m as f64 / 1_000_000.0));
    }
}

#[test]
fn push_degrees_appends() {
    let mut out = "x=".to_string();
    push_degrees(&mut out, 1_500_000);
    assert_eq!(out, "x=1.500000");
}

#[test]
fn positions_are_joined_by_semicolons() {
    let mut out = String::new();
    push_positions(&mut out, &Vec::new());
    assert_eq!(out, "");
    push_positions(&mut out, &vec![Coord { lon: 127_920_101, lat: 37_342_306 }]);
    assert_eq!(out, "127.920101,37.342306");
    let mut out = "/".to_string();
    push_positions(
        &mut out,
        &vec![
            Coord { lon: 127_920_101, lat: 37_342_306 },
            Coord { lon: 127_930_000, lat: 37_350_000 },
            Coord { lon: 128_000_000, lat: 37_000_009 },
        ],
    );
    assert_eq!(out, "/127.920101,37.342306;127.930000,37.350000;128.000000,37.000009");
}

#[test]
fn contains_finds_a_pattern_anywhere() {
    assert!(contains("http://osrm/route/v1/driving", "/route/v1/driving"));
    assert!(contains("abc", "abc"));
    assert!(contains("abc", "bc"));
    assert!(contains("abc", ""));
    assert!(contains("", ""));
    assert!(!contains("abc", "abcd"));
    assert!(!contains("abc", "ac"));
    assert!(!contains("", "a"));
    assert!(contains("aab", "ab"));
}

#[test]
fn contains_agrees_with_std() {
    let texts = ["", "a", "aa", "aab", "abab", "10_WJB.json", "route/route"];
    let patterns = ["", "a", "ab", "ba", "aab", "route", ".json", "_"];
    for t in texts {
        for p in patterns {
            assert_eq!(contains(t, p), t.contains(p), "{:?} {:?}", t, p);
        }
    }
}

#[test]
fn replace_puts_one_text_for_another() {
    assert_eq!(replace("a.json", ".json", ".geojson"), "a.geojson");
    assert_eq!(replace("a.json.json", ".json", ".geojson"), "a.geojson.geojson");
    assert_eq!(replace("aaa", "aa", "b"), "ba");
    assert_eq!(replace("abc", "x", "y"), "abc");
    assert_eq!(replace("abc", "abc", ""), "");
    assert_eq!(replace("", "a", "b"), "");
    assert_eq!(replace("abc", "", "x"), "abc");
    assert_eq!(replace("ab", "abc", "x"), "ab");
}

#[test]
fn replace_agrees_with_std_for_patterns_that_are_not_empty() {
    let texts = ["", "a", "aaa", "aab", "abab", "10_WJB.json", "x/match/v1/driving/match/v1/driving"];
    let patterns = ["a", "ab", "aa", ".json", "/match/v1/driving"];
    for t in texts {
        for p in patterns {
            assert_eq!(replace(t, p, "<>"), t.replace(p, "<>"), "{:?} {:?}", t, p);
        }
    }
}

#[test]
fn engine_base_names_the_routing_service() {
    assert_eq!(
        engine_base("http://router.project-osrm.org/route/v1/driving"),
        "http://router.project-osrm.org/route/v1/driving"
    );
    assert_eq!(
        engine_base("http://localhost:5000/match/v1/driving"),
        "http://localhost:5000/route/v1/driving"
    );
    assert_eq!(engine_base("http://localhost:5000"), "http://localhost:5000");
    assert_eq!(
        engine_base("http://h/match/v1/driving/route/v1/driving"),
        "http://h/match/v1/driving/route/v1/driving"
    );
}

#[test]
fn engine_url_carries_positions_and_options() {
    let positions =
        vec![Coord { lon: 127_920_101, lat: 37_342_306 }, Coord { lon: 127_930_000, lat: 37_350_000 }];
    assert_eq!(
        engine_url("http://localhost:5000/match/v1/driving", &positions),
        "http://localhost:5000/route/v1/driving/127.920101,37.342306;127.930000,37.350000?overview=full&geometries=geojson&steps=false&continue_straight=true"
    );
}

#[test]
fn catalog_requests_carry_their_parameters() {
    let processor =
        BusRouteProcessor::new("secret".to_string(), "32020".to_string(), "out", "http://tago", "")
            .unwrap();
    assert_eq!(
        processor.route_list_request(),
        CatalogRequest {
            url: "http://tago/getRouteNoList".to_string(),
            query: vec![
                pair("cityCode", "32020"),
                pair("numOfRows", "2000"),
                pair("pageNo", "1"),
                pair("serviceKey", "secret"),
                pair("_type", "json"),
            ],
        }
    );
    assert_eq!(
        processor.stop_list_request("WJB251000068"),
        CatalogRequest {
            url: "http://tago/getRouteAcctoThrghSttnList".to_string(),
            query: vec![
                pair("cityCode", "32020"),
                pair("routeId", "WJB251000068"),
                pair("numOfRows", "1024"),
                pair("serviceKey", "secret"),
                pair("_type", "json"),
            ],
        }
    );
    assert_eq!(
        processor.engine_request(&vec![Coord { lon: 127_000_000, lat: 37_000_000 }]),
        "http://router.project-osrm.org/route/v1/driving/127.000000,37.000000?overview=full&geometries=geojson&steps=false&continue_straight=true"
    );
}
