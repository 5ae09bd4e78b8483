use polly::catalog::{
    extract_items, list_routes, list_stops, parse_flexible_string, route_summary, select_routes,
    stop_record, RouteSummary,
};
use polly::config::BusRouteProcessor;
use polly::json::Json;
use polly::sequencer::sequence_stops;
use polly::stop::{Direction, RawStop};

fn s(text: &str) -> Json {
    Json::Str(text.to_string())
}

fn object(members: Vec<(&str, Json)>) -> Json {
    Json::Object(members.into_iter().map(|(k, v)| (k.to_string(), v)).collect())
}

fn payload(item: Json) -> Json {
    object(vec![(
        "response",
        object(vec![("body", object(vec![("items", object(vec![("item", item)]))]))]),
    )])
}

fn stop_item(id: &str, ord: i64) -> Json {
    object(vec![
        ("nodeid", s(id)),
        ("nodenm", s("Stop")),
        ("nodeord", Json::Int(ord)),
        ("nodeno", Json::Int(1001)),
        ("gpslati", Json::Decimal(37_342_306)),
        ("gpslong", Json::Decimal(127_920_101)),
        ("updowncd", Json::Int(0)),
    ])
}

fn processor() -> BusRouteProcessor {
    BusRouteProcessor::new("key".to_string(), "32020".to_string(), "out", "", "").unwrap()
}

#[test]
fn items_that_are_an_array_give_each_element() {
    let p = payload(Json::Array(vec![stop_item("A", 1), stop_item("B", 2), stop_item("C", 3)]));
    let items = extract_items(&p);
    assert_eq!(items.len(), 3);
    assert_eq!(*items[0], stop_item("A", 1));
    assert_eq!(*items[2], stop_item("C", 3));
}

#[test]
fn items_that_are_a_bare_object_give_one_item() {
    let p = payload(stop_item("A", 1));
    let items = extract_items(&p);
    assert_eq!(items.len(), 1);
    assert_eq!(*items[0], stop_item("A", 1));
}

#[test]
fn items_that_are_absent_give_none() {
    assert_eq!(extract_items(&Json::Null).len(), 0);
    assert_eq!(extract_items(&object(vec![])).len(), 0);
    assert_eq!(extract_items(&payload(Json::Null)).len(), 0);
    assert_eq!(extract_items(&payload(s("text"))).len(), 0);
    assert_eq!(extract_items(&payload(Json::Int(3))).len(), 0);
    let empty_items = object(vec![("response", object(vec![("body", object(vec![("items", s(""))]))]))]);
    assert_eq!(extract_items(&empty_items).len(), 0);
    assert_eq!(extract_items(&payload(Json::Array(vec![]))).len(), 0);
}

#[test]
fn flexible_string_keeps_strings_and_writes_integers() {
    assert_eq!(parse_flexible_string(&s("10-1")), "10-1");
    assert_eq!(parse_flexible_string(&Json::Int(5)), "5");
    assert_eq!(parse_flexible_string(&Json::Int(-12)), "-12");
    assert_eq!(parse_flexible_string(&s("")), "");
}

#[test]
fn flexible_string_of_anything_else_is_unknown() {
    assert_eq!(parse_flexible_string(&Json::Null), "UNKNOWN");
    assert_eq!(parse_flexible_string(&Json::Bool(true)), "UNKNOWN");
    assert_eq!(parse_flexible_string(&Json::Array(vec![])), "UNKNOWN");
    assert_eq!(parse_flexible_string(&object(vec![])), "UNKNOWN");
}

#[test]
fn flexible_string_of_a_number_with_a_fraction_is_its_numeral() {
    assert_eq!(parse_flexible_string(&Json::Decimal(10_000_000)), "10");
    assert_eq!(
        parse_flexible_string(&Json::Decimal(10_000_000)),
        parse_flexible_string(&Json::Int(10))
    );
    assert_eq!(parse_flexible_string(&Json::Decimal(0)), "0");
    assert_eq!(parse_flexible_string(&Json::Decimal(-3_000_000)), "-3");
    assert_eq!(parse_flexible_string(&Json::Decimal(10_500_000)), "10.5");
    assert_eq!(parse_flexible_string(&Json::Decimal(10_050_000)), "10.05");
    assert_eq!(parse_flexible_string(&Json::Decimal(1)), "0.000001");
    assert_eq!(parse_flexible_string(&Json::Decimal(-250_000)), "-0.25");
    assert_eq!(parse_flexible_string(&Json::Decimal(123_456_789)), "123.456789");
    assert_eq!(parse_flexible_string(&Json::Decimal(i64::MIN)), "-9223372036854.775808");
    assert_eq!(parse_flexible_string(&Json::Decimal(i64::MAX)), "9223372036854.775807");
}

#[test]
fn stop_record_reads_every_field() {
    let record = stop_record(&stop_item("WJB251000001", 4));
    assert_eq!(
        record,
        RawStop {
            node_id: "WJB251000001".to_string(),
            node_nm: "Stop".to_string(),
            node_ord: 4,
            node_no: "1001".to_string(),
            gps_lat: 37_342_306,
            gps_long: 127_920_101,
            up_down_cd: 0,
        }
    );
}

#[test]
fn stop_record_defaults_what_is_missing_or_of_another_kind() {
    let record = stop_record(&object(vec![
        ("nodeid", Json::Int(7)),
        ("nodeord", s("4")),
        ("nodeno", s("A-12")),
        ("gpslati", Json::Int(37)),
        ("gpslong", s("127.9")),
        ("updowncd", s("1")),
    ]));
    assert_eq!(
        record,
        RawStop {
            node_id: String::new(),
            node_nm: String::new(),
            node_ord: 0,
            node_no: "A-12".to_string(),
            gps_lat: 37_000_000,
            gps_long: 0,
            up_down_cd: 1,
        }
    );
    let empty = stop_record(&Json::Null);
    assert_eq!(empty.node_id, "");
    assert_eq!(empty.node_no, "");
    assert_eq!(empty.up_down_cd, 0);
}

#[test]
fn direction_code_is_read_from_integers_and_strings() {
    let code = |v: Json| stop_record(&object(vec![("updowncd", v)])).up_down_cd;
    assert_eq!(code(Json::Int(1)), 1);
    assert_eq!(code(s("1")), 1);
    assert_eq!(code(s("0")), 0);
    assert_eq!(code(s("up")), 0);
    assert_eq!(code(Json::Null), 0);
    assert_eq!(code(Json::Decimal(1_000_000)), 0);
    assert_eq!(Direction::from_code(code(s("1"))), Direction::Up);
    assert_eq!(Direction::from_code(code(s("x"))), Direction::Down);
}

#[test]
fn a_latitude_that_does_not_fit_counts_as_zero() {
    let record = stop_record(&object(vec![("gpslati", Json::Int(i64::MAX))]));
    assert_eq!(record.gps_lat, 0);
}

#[test]
fn a_single_stop_as_bare_object_gives_one_stop() {
    let route = RouteSummary { route_id: "WJB10".to_string(), route_no: "10".to_string() };
    let p = payload(stop_item("WJB251000001", 1));
    let records = list_stops(&p);
    assert_eq!(records.len(), 1);
    let stops = sequence_stops(&records);
    assert_eq!(stops.len(), 1);
    assert_eq!(stops[0].node_id, "WJB251000001");
    let done = processor().process_single_route(&route, Some(&p)).unwrap();
    assert_eq!(done.raw_stops.len(), 1);
    assert_eq!(done.file_name, "10_WJB10.json");
    assert_eq!(done.data.route_no, "10");
    assert_eq!(done.data.stops_map.len(), 1);
}

#[test]
fn a_route_without_number_or_id_is_passed_over() {
    let p = payload(stop_item("WJB251000001", 1));
    let unknown = RouteSummary { route_id: "WJB10".to_string(), route_no: "UNKNOWN".to_string() };
    assert_eq!(processor().process_single_route(&unknown, Some(&p)), None);
    let nameless = RouteSummary { route_id: String::new(), route_no: "10".to_string() };
    assert_eq!(processor().process_single_route(&nameless, Some(&p)), None);
}

#[test]
fn raw_stops_carry_the_code_of_their_direction() {
    let route = RouteSummary { route_id: "WJB10".to_string(), route_no: "10".to_string() };
    let item = |id: &str, ord: i64, code: i64| {
        object(vec![("nodeid", s(id)), ("nodeord", Json::Int(ord)), ("updowncd", Json::Int(code))])
    };
    let p = payload(Json::Array(vec![item("a", 1, 0), item("b", 2, 5), item("c", 3, 1)]));
    let done = processor().process_single_route(&route, Some(&p)).unwrap();
    let codes: Vec<i64> = done.raw_stops.iter().map(|r| r.up_down_cd).collect();
    assert_eq!(codes, vec![0, 0, 1]);
}

#[test]
fn a_stop_number_with_a_fraction_is_written_as_its_numeral() {
    let code = |v: Json| stop_record(&object(vec![("nodeno", v)])).node_no;
    assert_eq!(code(Json::Int(1001)), "1001");
    assert_eq!(code(Json::Decimal(1_001_000_000)), "1001");
    assert_eq!(code(Json::Decimal(1_001_500_000)), "1001.5");
    assert_eq!(code(s("A-12")), "A-12");
    assert_eq!(code(Json::Null), "");
}

#[test]
fn a_route_without_payload_or_stops_is_passed_over() {
    let route = RouteSummary { route_id: "WJB10".to_string(), route_no: "10".to_string() };
    assert_eq!(processor().process_single_route(&route, None), None);
    assert_eq!(processor().process_single_route(&route, Some(&payload(Json::Null))), None);
    let nameless = payload(Json::Array(vec![stop_item("", 1), stop_item("", 2)]));
    assert_eq!(processor().process_single_route(&route, Some(&nameless)), None);
}

#[test]
fn route_summary_needs_a_number_and_an_id() {
    let ok = object(vec![("routeid", s("WJB1")), ("routeno", Json::Int(34))]);
    assert_eq!(
        route_summary(&ok),
        Some(RouteSummary { route_id: "WJB1".to_string(), route_no: "34".to_string() })
    );
    let text = object(vec![("routeid", s("WJB2")), ("routeno", s("34-1"))]);
    assert_eq!(route_summary(&text).unwrap().route_no, "34-1");
    assert_eq!(route_summary(&object(vec![("routeid", s("WJB1"))])), None);
    assert_eq!(route_summary(&object(vec![("routeno", Json::Int(34))])), None);
    assert_eq!(
        route_summary(&object(vec![("routeid", s("")), ("routeno", Json::Int(34))])),
        None
    );
    assert_eq!(
        route_summary(&object(vec![("routeid", s("WJB1")), ("routeno", Json::Decimal(34_000_000))])),
        Some(RouteSummary { route_id: "WJB1".to_string(), route_no: "34".to_string() })
    );
    assert_eq!(
        route_summary(&object(vec![("routeid", s("WJB1")), ("routeno", Json::Decimal(34_500_000))]))
            .unwrap()
            .route_no,
        "34.5"
    );
    assert_eq!(
        route_summary(&object(vec![("routeid", s("WJB1")), ("routeno", Json::Bool(true))])),
        None
    );
    assert_eq!(
        route_summary(&object(vec![("routeid", s("WJB1")), ("routeno", s("UNKNOWN"))])),
        None
    );
    assert_eq!(
        route_summary(&object(vec![("routeid", Json::Int(1)), ("routeno", s("34"))])),
        None
    );
}

#[test]
fn list_routes_keeps_the_order_and_drops_invalid_routes() {
    let p = payload(Json::Array(vec![
        object(vec![("routeid", s("B")), ("routeno", Json::Int(2))]),
        object(vec![("routeid", s("X")), ("routeno", Json::Null)]),
        object(vec![("routeid", s("A")), ("routeno", s("1"))]),
    ]));
    let routes = list_routes(&p);
    assert_eq!(
        routes,
        vec![
            RouteSummary { route_id: "B".to_string(), route_no: "2".to_string() },
            RouteSummary { route_id: "A".to_string(), route_no: "1".to_string() },
        ]
    );
}

#[test]
fn select_routes_filters_by_number_before_dispatch() {
    let routes = vec![
        RouteSummary { route_id: "A1".to_string(), route_no: "5".to_string() },
        RouteSummary { route_id: "B".to_string(), route_no: "50".to_string() },
        RouteSummary { route_id: "A2".to_string(), route_no: "5".to_string() },
    ];
    assert_eq!(select_routes(&routes, None), routes);
    let five = select_routes(&routes, Some("5"));
    assert_eq!(five.len(), 2);
    assert_eq!(five[0].route_id, "A1");
    assert_eq!(five[1].route_id, "A2");
    assert_eq!(select_routes(&routes, Some("7")), vec![]);
}

#[test]
fn json_get_finds_the_first_member() {
    let o = object(vec![("a", Json::Int(1)), ("b", Json::Int(2)), ("a", Json::Int(3))]);
    assert_eq!(o.get("a"), Some(&Json::Int(1)));
    assert_eq!(o.get("b"), Some(&Json::Int(2)));
    assert_eq!(o.get("c"), None);
    assert_eq!(Json::Int(1).get("a"), None);
    assert_eq!(Json::Int(9).as_micro(), Some(9_000_000));
    assert_eq!(Json::Decimal(9).as_micro(), Some(9));
    assert_eq!(Json::Int(i64::MAX).as_micro(), None);
    assert_eq!(s("x").as_micro(), None);
    assert_eq!(s("x").as_str(), Some("x"));
    assert_eq!(Json::Decimal(1).as_i64(), None);
}
