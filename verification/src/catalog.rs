//! Reading the catalog's payloads: the list of routes and the stops of a route.
//!
//! The catalog wraps its results in `response.body.items.item`, which is an
//! array for several results, a bare object for one, and missing or of
//! another kind for none.  Fields change their JSON type from route to route;
//! each is brought to one canonical type here.

use vstd::prelude::*;
use crate::json::Json;
use crate::stop::{RawStop, RawStopView, raw_views};
use crate::text::{
    decimal, decimal_text, millionths, millionths_text, parse_integer, same_text,
    spec_parse_integer,
};

verus! {

/// What the catalog holds at `response.body.items.item`.
pub open spec fn item_slot(payload: Json) -> Option<Json> {
    match payload.spec_get("response"@) {
        Some(response) => match response.spec_get("body"@) {
            Some(body) => match body.spec_get("items"@) {
                Some(items) => items.spec_get("item"@),
                None => None,
            },
            None => None,
        },
        None => None,
    }
}

/// The results of a payload: the elements of an array, a bare object as the
/// one result, and no result otherwise.
pub open spec fn spec_items(payload: Json) -> Seq<Json> {
    match item_slot(payload) {
        Some(Json::Array(items)) => items@,
        Some(Json::Object(members)) => seq![Json::Object(members)],
        _ => Seq::empty(),
    }
}

/// The results of a catalog payload, whatever shape it wrapped them in.
pub fn extract_items<'a>(payload: &'a Json) -> (items: Vec<&'a Json>)
    ensures
        items@.len() == spec_items(*payload).len(),
        forall|i: int| 0 <= i < items@.len() ==> *items@[i] == spec_items(*payload)[i],
{
    let mut out: Vec<&'a Json> = Vec::new();
    let response = match payload.get("response") {
        Some(v) => v,
        None => return out,
    };
    let body = match response.get("body") {
        Some(v) => v,
        None => return out,
    };
    let wrapper = match body.get("items") {
        Some(v) => v,
        None => return out,
    };
    let slot = match wrapper.get("item") {
        Some(v) => v,
        None => return out,
    };
    match slot {
        Json::Array(items) => {
            let mut i: usize = 0;
            while i < items.len()
                invariant
                    i <= items.len(),
                    out@.len() == i,
                    forall|k: int| 0 <= k < i ==> *out@[k] == items@[k],
                decreases items.len() - i,
            {
                out.push(&items[i]);
                i += 1;
            }
        },
        Json::Object(_) => {
            out.push(slot);
        },
        _ => {},
    }
    out
}

/// The text that stands for a missing or unreadable route number.
pub open spec fn unknown() -> Seq<char> {
    "UNKNOWN"@
}

/// The canonical text of a field that the catalog writes as a string or as a
/// number: the string itself, the numeral of the number, and the text for
/// unknown otherwise.  A whole number has one numeral, whether the catalog
/// wrote it as an integer or with a fraction.
pub open spec fn spec_flexible_string(v: Json) -> Seq<char> {
    match v {
        Json::Str(s) => s@,
        Json::Int(n) => decimal(n as int),
        Json::Decimal(m) => millionths(m as int),
        _ => unknown(),
    }
}

/// The canonical text of a field that the catalog writes as a string or as a
/// number.
pub fn parse_flexible_string(v: &Json) -> (s: String)
    ensures
        s@ == spec_flexible_string(*v),
{
    match v {
        Json::Str(s) => s.clone(),
        Json::Int(n) => decimal_text(*n),
        Json::Decimal(m) => millionths_text(*m),
        _ => String::from_str("UNKNOWN"),
    }
}

/// The text of member `key`: the string it holds, or the empty text.
pub open spec fn spec_text_field(item: Json, key: Seq<char>) -> Seq<char> {
    match item.spec_get(key) {
        Some(Json::Str(s)) => s@,
        _ => Seq::empty(),
    }
}

/// The integer of member `key`: the integer it holds, or zero.
pub open spec fn spec_integer_field(item: Json, key: Seq<char>) -> int {
    match item.spec_get(key) {
        Some(Json::Int(n)) => n as int,
        _ => 0,
    }
}

/// The stop number of member `key`: the numeral of a number, the text of a
/// string, or the empty text.
pub open spec fn spec_number_field(item: Json, key: Seq<char>) -> Seq<char> {
    match item.spec_get(key) {
        Some(Json::Int(n)) => decimal(n as int),
        Some(Json::Decimal(m)) => millionths(m as int),
        Some(Json::Str(s)) => s@,
        _ => Seq::empty(),
    }
}

/// The number of member `key` in millionths, or zero where it holds no number
/// or one that does not fit.
pub open spec fn spec_micro_field(item: Json, key: Seq<char>) -> int {
    match item.spec_get(key) {
        Some(v) => match v.spec_micro() {
            Some(m) => m as int,
            None => 0,
        },
        None => 0,
    }
}

/// The directional code of member `key`: an integer, or a string that writes
/// one, or zero.
pub open spec fn spec_code_field(item: Json, key: Seq<char>) -> int {
    match item.spec_get(key) {
        Some(Json::Int(n)) => n as int,
        Some(Json::Str(s)) => match spec_parse_integer(s@) {
            Some(n) => n as int,
            None => 0,
        },
        _ => 0,
    }
}

/// The stop record that a result of the catalog describes.
pub open spec fn spec_stop_record(item: Json) -> RawStopView {
    RawStopView {
        node_id: spec_text_field(item, "nodeid"@),
        node_nm: spec_text_field(item, "nodenm"@),
        node_ord: spec_integer_field(item, "nodeord"@),
        node_no: spec_number_field(item, "nodeno"@),
        gps_lat: spec_micro_field(item, "gpslati"@),
        gps_long: spec_micro_field(item, "gpslong"@),
        up_down_cd: spec_code_field(item, "updowncd"@),
    }
}

fn text_field(item: &Json, key: &str) -> (s: String)
    ensures
        s@ == spec_text_field(*item, key@),
{
    match item.get(key) {
        Some(Json::Str(s)) => s.clone(),
        _ => String::new(),
    }
}

fn integer_field(item: &Json, key: &str) -> (n: i64)
    ensures
        n == spec_integer_field(*item, key@),
{
    match item.get(key) {
        Some(Json::Int(n)) => *n,
        _ => 0,
    }
}

fn number_field(item: &Json, key: &str) -> (s: String)
    ensures
        s@ == spec_number_field(*item, key@),
{
    match item.get(key) {
        Some(Json::Int(n)) => decimal_text(*n),
        Some(Json::Decimal(m)) => millionths_text(*m),
        Some(Json::Str(s)) => s.clone(),
        _ => String::new(),
    }
}

fn micro_field(item: &Json, key: &str) -> (m: i64)
    ensures
        m == spec_micro_field(*item, key@),
{
    match item.get(key) {
        Some(v) => match v.as_micro() {
            Some(m) => m,
            None => 0,
        },
        None => 0,
    }
}

fn code_field(item: &Json, key: &str) -> (n: i64)
    ensures
        n == spec_code_field(*item, key@),
{
    match item.get(key) {
        Some(Json::Int(n)) => *n,
        Some(Json::Str(s)) => match parse_integer(s.as_str()) {
            Some(n) => n,
            None => 0,
        },
        _ => 0,
    }
}

/// Reads one result of the catalog as a stop record.  A field that is
/// missing or of another kind gets its default: the empty text or zero.
pub fn stop_record(item: &Json) -> (record: RawStop)
    ensures
        record@ == spec_stop_record(*item),
{
    RawStop {
        node_id: text_field(item, "nodeid"),
        node_nm: text_field(item, "nodenm"),
        node_ord: integer_field(item, "nodeord"),
        node_no: number_field(item, "nodeno"),
        gps_lat: micro_field(item, "gpslati"),
        gps_long: micro_field(item, "gpslong"),
        up_down_cd: code_field(item, "updowncd"),
    }
}

/// The stop records that a payload describes, one for each result and in
/// their order.
pub open spec fn spec_stop_records(payload: Json) -> Seq<RawStopView> {
    spec_items(payload).map_values(|item: Json| spec_stop_record(item))
}

/// The stop records of a payload, one for each result and in their order.
pub fn list_stops(payload: &Json) -> (records: Vec<RawStop>)
    ensures
        raw_views(records@) == spec_stop_records(*payload),
{
    let items = extract_items(payload);
    let mut records: Vec<RawStop> = Vec::new();
    let mut i: usize = 0;
    while i < items.len()
        invariant
            i <= items.len(),
            records@.len() == i,
            items@.len() == spec_items(*payload).len(),
            forall|k: int| 0 <= k < items@.len() ==> *items@[k] == spec_items(*payload)[k],
            forall|k: int|
                0 <= k < i ==> (#[trigger] records@[k])@ == spec_stop_record(spec_items(*payload)[k]),
        decreases items.len() - i,
    {
        records.push(stop_record(items[i]));
        i += 1;
    }
    proof {
        assert(raw_views(records@) =~= spec_stop_records(*payload));
    }
    records
}

/// A route as the catalog lists it.
#[derive(Debug, PartialEq, Eq)]
pub struct RouteSummary {
    pub route_id: String,
    /// The line number in its canonical text.
    pub route_no: String,
}

/// What a route summary holds, with its texts as character sequences.
pub ghost struct RouteSummaryView {
    pub route_id: Seq<char>,
    pub route_no: Seq<char>,
}

impl View for RouteSummary {
    type V = RouteSummaryView;

    open spec fn view(&self) -> RouteSummaryView {
        RouteSummaryView { route_id: self.route_id@, route_no: self.route_no@ }
    }
}

impl Clone for RouteSummary {
    fn clone(&self) -> (r: Self)
        ensures
            r == *self,
    {
        RouteSummary { route_id: self.route_id.clone(), route_no: self.route_no.clone() }
    }
}

/// The views of a sequence of route summaries, in the same order.
pub open spec fn summary_views(routes: Seq<RouteSummary>) -> Seq<RouteSummaryView> {
    routes.map_values(|r: RouteSummary| r@)
}

/// The route that a result of the catalog names, valid or not.
pub open spec fn spec_summary(item: Json) -> RouteSummaryView {
    RouteSummaryView {
        route_id: spec_text_field(item, "routeid"@),
        route_no: match item.spec_get("routeno"@) {
            Some(v) => spec_flexible_string(v),
            None => unknown(),
        },
    }
}

/// A route can be processed where its number is known and its id is not
/// empty.
pub open spec fn processable(route: RouteSummaryView) -> bool {
    route.route_no != unknown() && route.route_id.len() > 0
}

/// The routes of a payload that can be processed, in the payload's order.
pub open spec fn spec_routes(payload: Json) -> Seq<RouteSummaryView> {
    spec_items(payload).map_values(|item: Json| spec_summary(item)).filter(
        |r: RouteSummaryView| processable(r),
    )
}

/// Reads one result of the catalog as a route; nothing where its number
/// cannot be determined or its id is missing.
pub fn route_summary(item: &Json) -> (route: Option<RouteSummary>)
    ensures
        match route {
            Some(r) => r@ == spec_summary(*item) && processable(r@),
            None => !processable(spec_summary(*item)),
        },
{
    let route_id = text_field(item, "routeid");
    let route_no = match item.get("routeno") {
        Some(v) => parse_flexible_string(v),
        None => String::from_str("UNKNOWN"),
    };
    if same_text(route_no.as_str(), "UNKNOWN") || route_id.as_str().unicode_len() == 0 {
        None
    } else {
        Some(RouteSummary { route_id, route_no })
    }
}

/// The routes of a payload that can be processed, in the payload's order.
pub fn list_routes(payload: &Json) -> (routes: Vec<RouteSummary>)
    ensures
        summary_views(routes@) == spec_routes(*payload),
{
    let items = extract_items(payload);
    let mut routes: Vec<RouteSummary> = Vec::new();
    let mut i: usize = 0;
    let ghost all = spec_items(*payload).map_values(|item: Json| spec_summary(item));
    let ghost keep = |r: RouteSummaryView| processable(r);
    proof {
        assert(all.take(0).filter(keep) =~= Seq::<RouteSummaryView>::empty()) by {
            all.take(0).lemma_filter_len(keep);
        }
        assert(summary_views(routes@) =~= Seq::<RouteSummaryView>::empty());
    }
    while i < items.len()
        invariant
            i <= items.len(),
            items@.len() == spec_items(*payload).len(),
            forall|k: int| 0 <= k < items@.len() ==> *items@[k] == spec_items(*payload)[k],
            all == spec_items(*payload).map_values(|item: Json| spec_summary(item)),
            keep == |r: RouteSummaryView| processable(r),
            summary_views(routes@) == all.take(i as int).filter(keep),
        decreases items.len() - i,
    {
        proof {
            assert(all.take(i + 1) =~= all.take(i as int).push(all[i as int]));
            all.take(i as int).lemma_filter_push(all[i as int], keep);
        }
        let ghost before = summary_views(routes@);
        match route_summary(items[i]) {
            Some(route) => {
                routes.push(route);
                proof {
                    assert(summary_views(routes@) =~= before.push(route@));
                }
            },
            None => {},
        }
        i += 1;
    }
    proof {
        assert(all.take(items.len() as int) =~= all);
    }
    routes
}

/// The routes that a run targets: all of them without a filter, and with one
/// those whose number is the filter's.
pub open spec fn spec_targets(routes: Seq<RouteSummaryView>, filter: Option<Seq<char>>) -> Seq<
    RouteSummaryView,
> {
    match filter {
        Some(number) => routes.filter(|r: RouteSummaryView| r.route_no == number),
        None => routes,
    }
}

/// Picks the routes that a run targets, before any of them is dispatched.
pub fn select_routes(routes: &Vec<RouteSummary>, filter: Option<&str>) -> (targets: Vec<
    RouteSummary,
>)
    ensures
        summary_views(targets@) == spec_targets(
            summary_views(routes@),
            match filter {
                Some(number) => Some(number@),
                None => None,
            },
        ),
{
    let mut targets: Vec<RouteSummary> = Vec::new();
    let mut i: usize = 0;
    let ghost all = summary_views(routes@);
    match filter {
        None => {
            while i < routes.len()
                invariant
                    i <= routes.len(),
                    all == summary_views(routes@),
                    summary_views(targets@) == all.take(i as int),
                decreases routes.len() - i,
            {
                let ghost before = summary_views(targets@);
                targets.push(routes[i].clone());
                proof {
                    assert(summary_views(targets@) =~= before.push(routes[i as int]@));
                    assert(all.take(i + 1) =~= all.take(i as int).push(all[i as int]));
                }
                i += 1;
            }
            proof {
                assert(all.take(routes.len() as int) =~= all);
            }
        },
        Some(number) => {
            let ghost keep = |r: RouteSummaryView| r.route_no == number@;
            proof {
                assert(all.take(0).filter(keep) =~= Seq::<RouteSummaryView>::empty()) by {
                    all.take(0).lemma_filter_len(keep);
                }
                assert(summary_views(targets@) =~= Seq::<RouteSummaryView>::empty());
            }
            while i < routes.len()
                invariant
                    i <= routes.len(),
                    all == summary_views(routes@),
                    keep == |r: RouteSummaryView| r.route_no == number@,
                    summary_views(targets@) == all.take(i as int).filter(keep),
                decreases routes.len() - i,
            {
                proof {
                    assert(all.take(i + 1) =~= all.take(i as int).push(all[i as int]));
                    all.take(i as int).lemma_filter_push(all[i as int], keep);
                }
                let ghost before = summary_views(targets@);
                if same_text(routes[i].route_no.as_str(), number) {
                    targets.push(routes[i].clone());
                    proof {
                        assert(summary_views(targets@) =~= before.push(routes[i as int]@));
                    }
                }
                i += 1;
            }
            proof {
                assert(all.take(routes.len() as int) =~= all);
            }
        },
    }
    targets
}

} // verus!
