//! What a run writes: the names of its files and the documents in them.

use vstd::prelude::*;
use crate::index::{
    CatalogView, RouteCatalog, RouteDetails, RouteIndex, RouteProcessData, SequenceEntry,
    SequenceEntryView, Station, StationView, all_agreeing, lemma_fold_all_any_order, spec_fold_all,
};
use crate::json::{Json, JsonView, array_of, member_of, member_views, object_of, text, value_views};
use crate::request::{contains, replace, spec_contains, spec_replace};
use crate::snapping::{Segment, SegmentView, segment_views};
use crate::textmap::TextMap;
use crate::stop::Coord;
use crate::text::chars_of;

verus! {

/// The name of the raw stop file of a route: its number, an underscore, its
/// id, and the ending of a JSON file.
pub open spec fn spec_raw_file_name(route_no: Seq<char>, route_id: Seq<char>) -> Seq<char> {
    route_no + seq!['_'] + route_id + ".json"@
}

/// The name of the raw stop file of a route.
pub fn raw_file_name(route_no: &str, route_id: &str) -> (name: String)
    ensures
        name@ == spec_raw_file_name(route_no@, route_id@),
{
    proof {
        reveal_strlit("_");
        assert("_"@ =~= seq!['_']);
    }
    let mut name = String::from_str(route_no);
    name.append("_");
    name.append(route_id);
    name.append(".json");
    name
}

/// `i` is the place of the first underscore of `name`.
pub open spec fn first_underscore(name: Seq<char>, i: int) -> bool {
    &&& 0 <= i < name.len()
    &&& name[i] == '_'
    &&& forall|j: int| 0 <= j < i ==> name[j] != '_'
}

/// What follows the first underscore of `name`; all of `name` where it has
/// none.
pub open spec fn after_underscore(name: Seq<char>) -> Seq<char> {
    if exists|i: int| first_underscore(name, i) {
        name.skip((choose|i: int| first_underscore(name, i)) + 1)
    } else {
        name
    }
}

/// The name of the snapped path that belongs to a raw stop file: what
/// follows the route number and its underscore, with the ending of a GeoJSON
/// file in place of that of a JSON file.
pub open spec fn spec_snapped_file_name(raw_name: Seq<char>) -> Seq<char> {
    spec_replace(after_underscore(raw_name), ".json"@, ".geojson"@)
}

/// The name of the snapped path that belongs to a raw stop file.
pub fn snapped_file_name(raw_name: &str) -> (name: String)
    ensures
        name@ == spec_snapped_file_name(raw_name@),
{
    let chars = chars_of(raw_name);
    let mut i: usize = 0;
    while i < chars.len() && chars[i] != '_'
        invariant
            i <= chars.len(),
            forall|j: int| 0 <= j < i ==> chars[j] != '_',
        decreases chars.len() - i,
    {
        i += 1;
    }
    let rest = if i < chars.len() {
        proof {
            assert(first_underscore(raw_name@, i as int));
            let k = choose|k: int| first_underscore(raw_name@, k);
            assert(k == i) by {
                if k < i {
                    assert(chars[k] != '_');
                } else if i < k {
                    assert(raw_name@[i as int] != '_');
                }
            }
        }
        raw_name.substring_char(i + 1, chars.len())
    } else {
        proof {
            assert forall|k: int| !first_underscore(raw_name@, k) by {
                if first_underscore(raw_name@, k) {
                    assert(chars[k] != '_');
                }
            }
        }
        raw_name
    };
    replace(rest, ".json", ".geojson")
}

/// A file holds the raw stops of a route where its name ends in `.json`
/// behind at least one other character.
pub open spec fn spec_is_raw_stop_file(name: Seq<char>) -> bool {
    name.len() > 5 && name.subrange(name.len() - 5, name.len() as int) == ".json"@
}

/// Whether a file of the raw directory is snapped in a run: it holds raw
/// stops, and with a filter its name holds the filter's text.
pub open spec fn spec_selected(name: Seq<char>, filter: Option<Seq<char>>) -> bool {
    &&& spec_is_raw_stop_file(name)
    &&& match filter {
        Some(text) => spec_contains(name, text),
        None => true,
    }
}

/// Whether a file holds the raw stops of a route.
pub fn is_raw_stop_file(name: &str) -> (r: bool)
    ensures
        r == spec_is_raw_stop_file(name@),
{
    let chars = chars_of(name);
    let n = chars.len();
    proof {
        reveal_strlit(".json");
    }
    if n <= 5 {
        return false;
    }
    let ending = chars[n - 5] == '.' && chars[n - 4] == 'j' && chars[n - 3] == 's' && chars[n - 2]
        == 'o' && chars[n - 1] == 'n';
    proof {
        let tail = name@.subrange(n - 5, n as int);
        if ending {
            assert(tail =~= ".json"@);
        } else {
            assert(tail[0] == chars[n - 5] && tail[1] == chars[n - 4] && tail[2] == chars[n - 3]
                && tail[3] == chars[n - 2] && tail[4] == chars[n - 1]);
        }
    }
    ending
}

/// Whether a file of the raw directory is snapped in a run.
pub fn selected(name: &str, filter: Option<&str>) -> (r: bool)
    ensures
        r == spec_selected(
            name@,
            match filter {
                Some(text) => Some(text@),
                None => None,
            },
        ),
{
    if !is_raw_stop_file(name) {
        return false;
    }
    match filter {
        Some(text) => contains(name, text),
        None => true,
    }
}

/// A position in a document: the array of its longitude and latitude.
pub open spec fn spec_point_doc(c: Coord) -> JsonView {
    JsonView::Array(seq![JsonView::Decimal(c.lon as int), JsonView::Decimal(c.lat as int)])
}

/// A line in a document: the array of its positions.
pub open spec fn spec_line_doc(line: Seq<Coord>) -> JsonView {
    JsonView::Array(line.map_values(|c: Coord| spec_point_doc(c)))
}

/// A segment in a document: a feature whose geometry is the segment's line
/// and whose properties are its tags.
pub open spec fn spec_feature(segment: SegmentView) -> JsonView {
    JsonView::Object(
        seq![
            ("type"@, JsonView::Str("Feature"@)),
            (
                "properties"@,
                JsonView::Object(
                    seq![
                        ("direction"@, JsonView::Int(segment.direction.spec_code())),
                        ("is_turning_point"@, JsonView::Bool(segment.contains_turning_point)),
                        ("start_node_ord"@, JsonView::Int(segment.start_order)),
                    ],
                ),
            ),
            (
                "geometry"@,
                JsonView::Object(
                    seq![
                        ("type"@, JsonView::Str("LineString"@)),
                        ("coordinates"@, spec_line_doc(segment.coordinates)),
                    ],
                ),
            ),
        ],
    )
}

/// The document of a snapped path: the collection of its segments'
/// features, in the order of the path.
pub open spec fn spec_feature_collection(path: Seq<SegmentView>) -> JsonView {
    JsonView::Object(
        seq![
            ("type"@, JsonView::Str("FeatureCollection"@)),
            ("features"@, JsonView::Array(path.map_values(|s: SegmentView| spec_feature(s)))),
        ],
    )
}

fn point_doc(c: Coord) -> (doc: Json)
    ensures
        doc@ == spec_point_doc(c),
{
    let items = vec![Json::Decimal(c.lon), Json::Decimal(c.lat)];
    proof {
        assert(value_views(items@) =~= seq![
            JsonView::Decimal(c.lon as int),
            JsonView::Decimal(c.lat as int),
        ]);
    }
    array_of(items)
}

fn line_doc(line: &Vec<Coord>) -> (doc: Json)
    ensures
        doc@ == spec_line_doc(line@),
{
    let mut items: Vec<Json> = Vec::new();
    let mut i: usize = 0;
    while i < line.len()
        invariant
            i <= line.len(),
            items@.len() == i,
            forall|k: int| 0 <= k < i ==> (#[trigger] items@[k])@ == spec_point_doc(line@[k]),
        decreases line.len() - i,
    {
        items.push(point_doc(line[i]));
        i += 1;
    }
    proof {
        assert(value_views(items@) =~= line@.map_values(|c: Coord| spec_point_doc(c)));
    }
    array_of(items)
}

fn feature(segment: &Segment) -> (doc: Json)
    ensures
        doc@ == spec_feature(segment@),
{
    let tags = vec![
        member_of("direction", Json::Int(segment.direction.code())),
        member_of("is_turning_point", Json::Bool(segment.contains_turning_point)),
        member_of("start_node_ord", Json::Int(segment.start_order)),
    ];
    proof {
        assert(member_views(tags@) =~= seq![
            ("direction"@, JsonView::Int(segment@.direction.spec_code())),
            ("is_turning_point"@, JsonView::Bool(segment@.contains_turning_point)),
            ("start_node_ord"@, JsonView::Int(segment@.start_order)),
        ]);
    }
    let properties = object_of(tags);
    let shape = vec![
        member_of("type", text("LineString")),
        member_of("coordinates", line_doc(&segment.coordinates)),
    ];
    proof {
        assert(member_views(shape@) =~= seq![
            ("type"@, JsonView::Str("LineString"@)),
            ("coordinates"@, spec_line_doc(segment@.coordinates)),
        ]);
    }
    let geometry = object_of(shape);
    let members = vec![
        member_of("type", text("Feature")),
        member_of("properties", properties),
        member_of("geometry", geometry),
    ];
    proof {
        assert(member_views(members@) =~= seq![
            ("type"@, JsonView::Str("Feature"@)),
            ("properties"@, properties@),
            ("geometry"@, geometry@),
        ]);
    }
    object_of(members)
}

/// Writes the document of a snapped path.
pub fn feature_collection(path: &Vec<Segment>) -> (doc: Json)
    ensures
        doc@ == spec_feature_collection(segment_views(path@)),
{
    let mut features: Vec<Json> = Vec::new();
    let mut i: usize = 0;
    while i < path.len()
        invariant
            i <= path.len(),
            features@.len() == i,
            forall|k: int| 0 <= k < i ==> (#[trigger] features@[k])@ == spec_feature(path@[k]@),
        decreases path.len() - i,
    {
        features.push(feature(&path[i]));
        i += 1;
    }
    proof {
        assert(value_views(features@) =~= segment_views(path@).map_values(
            |s: SegmentView| spec_feature(s),
        ));
    }
    let list = array_of(features);
    let members = vec![member_of("type", text("FeatureCollection")), member_of("features", list)];
    proof {
        assert(member_views(members@) =~= seq![
            ("type"@, JsonView::Str("FeatureCollection"@)),
            ("features"@, list@),
        ]);
    }
    object_of(members)
}

/// One stop of a route's sequence in a document.
pub open spec fn spec_entry_doc(entry: SequenceEntryView) -> JsonView {
    JsonView::Object(
        seq![
            ("nodeid"@, JsonView::Str(entry.node_id)),
            ("nodeord"@, JsonView::Int(entry.order)),
            ("updowncd"@, JsonView::Int(entry.direction.spec_code())),
        ],
    )
}

/// The details of a route in a document: its number and its sequence.
pub open spec fn spec_details_doc(details: RouteDetails) -> JsonView {
    JsonView::Object(
        seq![
            ("routeno"@, JsonView::Str(details.route_no@)),
            (
                "sequence"@,
                JsonView::Array(
                    details.sequence@.map_values(|e: SequenceEntry| spec_entry_doc(e@)),
                ),
            ),
        ],
    )
}

/// A station in a document.
pub open spec fn spec_station_doc(station: StationView) -> JsonView {
    JsonView::Object(
        seq![
            ("nodenm"@, JsonView::Str(station.name)),
            ("nodeno"@, JsonView::Str(station.code)),
            ("gpslati"@, JsonView::Decimal(station.latitude)),
            ("gpslong"@, JsonView::Decimal(station.longitude)),
        ],
    )
}

/// The route index in a document: under each route number, in ascending
/// order, the array of its route ids, in ascending order.
pub open spec fn spec_numbers_doc(index: RouteIndex) -> JsonView {
    JsonView::Object(
        Seq::new(
            index.numbers().len(),
            |i: int|
                (index.numbers()[i], JsonView::Array(
                    index.ids(i).map_values(|id: Seq<char>| JsonView::Str(id)),
                )),
        ),
    )
}

/// The details of all routes in a document, under their ids in ascending
/// order.
pub open spec fn spec_all_details_doc(details: TextMap<RouteDetails>) -> JsonView {
    JsonView::Object(
        Seq::new(
            details.keys().len(),
            |i: int| (details.keys()[i], spec_details_doc(details.values()[i])),
        ),
    )
}

/// All stations in a document, under their node ids in ascending order.
pub open spec fn spec_stations_doc(stations: TextMap<Station>) -> JsonView {
    JsonView::Object(
        Seq::new(
            stations.keys().len(),
            |i: int| (stations.keys()[i], spec_station_doc(stations.values()[i]@)),
        ),
    )
}

/// The document of the station and route index.
pub open spec fn spec_route_map(
    last_updated: Seq<char>,
    numbers: RouteIndex,
    details: TextMap<RouteDetails>,
    stations: TextMap<Station>,
) -> JsonView {
    JsonView::Object(
        seq![
            ("lastUpdated"@, JsonView::Str(last_updated)),
            ("route_numbers"@, spec_numbers_doc(numbers)),
            ("route_details"@, spec_all_details_doc(details)),
            ("stations"@, spec_stations_doc(stations)),
        ],
    )
}

fn entry_doc(entry: &SequenceEntry) -> (doc: Json)
    ensures
        doc@ == spec_entry_doc(entry@),
{
    let members = vec![
        member_of("nodeid", text(entry.node_id.as_str())),
        member_of("nodeord", Json::Int(entry.order)),
        member_of("updowncd", Json::Int(entry.direction.code())),
    ];
    proof {
        assert(member_views(members@) =~= seq![
            ("nodeid"@, JsonView::Str(entry@.node_id)),
            ("nodeord"@, JsonView::Int(entry@.order)),
            ("updowncd"@, JsonView::Int(entry@.direction.spec_code())),
        ]);
    }
    object_of(members)
}

fn details_doc(details: &RouteDetails) -> (doc: Json)
    ensures
        doc@ == spec_details_doc(*details),
{
    let mut entries: Vec<Json> = Vec::new();
    let mut i: usize = 0;
    while i < details.sequence.len()
        invariant
            i <= details.sequence.len(),
            entries@.len() == i,
            forall|k: int|
                0 <= k < i ==> (#[trigger] entries@[k])@ == spec_entry_doc(details.sequence@[k]@),
        decreases details.sequence.len() - i,
    {
        entries.push(entry_doc(&details.sequence[i]));
        i += 1;
    }
    proof {
        assert(value_views(entries@) =~= details.sequence@.map_values(
            |e: SequenceEntry| spec_entry_doc(e@),
        ));
    }
    let list = array_of(entries);
    let members = vec![
        member_of("routeno", text(details.route_no.as_str())),
        member_of("sequence", list),
    ];
    proof {
        assert(member_views(members@) =~= seq![
            ("routeno"@, JsonView::Str(details.route_no@)),
            ("sequence"@, list@),
        ]);
    }
    object_of(members)
}

fn station_doc(station: &Station) -> (doc: Json)
    ensures
        doc@ == spec_station_doc(station@),
{
    let members = vec![
        member_of("nodenm", text(station.name.as_str())),
        member_of("nodeno", text(station.code.as_str())),
        member_of("gpslati", Json::Decimal(station.latitude)),
        member_of("gpslong", Json::Decimal(station.longitude)),
    ];
    proof {
        assert(member_views(members@) =~= seq![
            ("nodenm"@, JsonView::Str(station@.name)),
            ("nodeno"@, JsonView::Str(station@.code)),
            ("gpslati"@, JsonView::Decimal(station@.latitude)),
            ("gpslong"@, JsonView::Decimal(station@.longitude)),
        ]);
    }
    object_of(members)
}

fn numbers_doc(index: &RouteIndex) -> (doc: Json)
    requires
        index.wf(),
    ensures
        doc@ == spec_numbers_doc(*index),
{
    let mut members: Vec<(String, Json)> = Vec::new();
    let n = index.len();
    let mut i: usize = 0;
    while i < n
        invariant
            i <= n,
            n == index.numbers().len(),
            index.wf(),
            members@.len() == i,
            forall|k: int|
                0 <= k < i ==> {
                    &&& (#[trigger] members@[k]).0@ == index.numbers()[k]
                    &&& members@[k].1@ == JsonView::Array(
                        index.ids(k).map_values(|id: Seq<char>| JsonView::Str(id)),
                    )
                },
        decreases n - i,
    {
        let ids = index.ids_at(i);
        let mut items: Vec<Json> = Vec::new();
        let mut k: usize = 0;
        while k < ids.len()
            invariant
                k <= ids.len(),
                items@.len() == k,
                forall|j: int| 0 <= j < k ==> (#[trigger] items@[j])@ == JsonView::Str(ids@[j]@),
            decreases ids.len() - k,
        {
            items.push(text(ids[k].as_str()));
            k += 1;
        }
        proof {
            assert(value_views(items@) =~= index.ids(i as int).map_values(
                |id: Seq<char>| JsonView::Str(id),
            ));
        }
        members.push(member_of(index.number_at(i), array_of(items)));
        i += 1;
    }
    proof {
        assert(member_views(members@) =~= Seq::new(
            index.numbers().len(),
            |i: int|
                (index.numbers()[i], JsonView::Array(
                    index.ids(i).map_values(|id: Seq<char>| JsonView::Str(id)),
                )),
        ));
    }
    object_of(members)
}

fn all_details_doc(details: &TextMap<RouteDetails>) -> (doc: Json)
    ensures
        doc@ == spec_all_details_doc(*details),
{
    let mut members: Vec<(String, Json)> = Vec::new();
    let n = details.len();
    let mut i: usize = 0;
    while i < n
        invariant
            i <= n,
            n == details.keys().len(),
            members@.len() == i,
            forall|k: int|
                0 <= k < i ==> {
                    &&& (#[trigger] members@[k]).0@ == details.keys()[k]
                    &&& members@[k].1@ == spec_details_doc(details.values()[k])
                },
        decreases n - i,
    {
        members.push(member_of(details.key_at(i), details_doc(details.value_at(i))));
        i += 1;
    }
    proof {
        assert(member_views(members@) =~= Seq::new(
            details.keys().len(),
            |i: int| (details.keys()[i], spec_details_doc(details.values()[i])),
        ));
    }
    object_of(members)
}

fn stations_doc(stations: &TextMap<Station>) -> (doc: Json)
    ensures
        doc@ == spec_stations_doc(*stations),
{
    let mut members: Vec<(String, Json)> = Vec::new();
    let n = stations.len();
    let mut i: usize = 0;
    while i < n
        invariant
            i <= n,
            n == stations.keys().len(),
            members@.len() == i,
            forall|k: int|
                0 <= k < i ==> {
                    &&& (#[trigger] members@[k]).0@ == stations.keys()[k]
                    &&& members@[k].1@ == spec_station_doc(stations.values()[k]@)
                },
        decreases n - i,
    {
        members.push(member_of(stations.key_at(i), station_doc(stations.value_at(i))));
        i += 1;
    }
    proof {
        assert(member_views(members@) =~= Seq::new(
            stations.keys().len(),
            |i: int| (stations.keys()[i], spec_station_doc(stations.values()[i]@)),
        ));
    }
    object_of(members)
}

/// Writes the document of the station and route index.  Every part is laid
/// out by ascending keys, so the document depends on what the index holds
/// and on the time given, and on nothing else.
pub fn route_map_document(
    last_updated: &str,
    numbers: &RouteIndex,
    details: &TextMap<RouteDetails>,
    stations: &TextMap<Station>,
) -> (doc: Json)
    requires
        numbers.wf(),
    ensures
        doc@ == spec_route_map(last_updated@, *numbers, *details, *stations),
{
    let a = numbers_doc(numbers);
    let b = all_details_doc(details);
    let c = stations_doc(stations);
    let members = vec![
        member_of("lastUpdated", text(last_updated)),
        member_of("route_numbers", a),
        member_of("route_details", b),
        member_of("stations", c),
    ];
    proof {
        assert(member_views(members@) =~= seq![
            ("lastUpdated"@, JsonView::Str(last_updated@)),
            ("route_numbers"@, a@),
            ("route_details"@, b@),
            ("stations"@, c@),
        ]);
    }
    object_of(members)
}

/// What the index holds decides its document: two well-formed indexes that
/// hold the same give the same document for the same time.
pub proof fn lemma_document_decided(
    last_updated: Seq<char>,
    numbers: RouteIndex,
    details: TextMap<RouteDetails>,
    stations: TextMap<Station>,
    other_numbers: RouteIndex,
    other_details: TextMap<RouteDetails>,
    other_stations: TextMap<Station>,
)
    requires
        numbers.wf(),
        details.wf(),
        stations.wf(),
        other_numbers.wf(),
        other_details.wf(),
        other_stations.wf(),
        numbers@ == other_numbers@,
        details@ == other_details@,
        stations@ == other_stations@,
    ensures
        spec_route_map(last_updated, numbers, details, stations) == spec_route_map(
            last_updated,
            other_numbers,
            other_details,
            other_stations,
        ),
{
    numbers.lemma_layout_decided(&other_numbers);
    details.lemma_layout_decided(&other_details);
    stations.lemma_layout_decided(&other_stations);
    assert(spec_numbers_doc(numbers)->Object_0 =~= spec_numbers_doc(other_numbers)->Object_0);
    assert(spec_all_details_doc(details)->Object_0 =~= spec_all_details_doc(
        other_details,
    )->Object_0);
    assert(spec_stations_doc(stations)->Object_0 =~= spec_stations_doc(other_stations)->Object_0);
}

/// The document of a catalog for the given time.
pub open spec fn spec_catalog_document(last_updated: Seq<char>, catalog: RouteCatalog) -> JsonView {
    spec_route_map(
        last_updated,
        catalog.spec_route_numbers(),
        catalog.spec_route_details(),
        catalog.spec_stations(),
    )
}

/// Writes the document of a catalog for the given time.
pub fn catalog_document(last_updated: &str, catalog: &RouteCatalog) -> (doc: Json)
    requires
        catalog.wf(),
    ensures
        doc@ == spec_catalog_document(last_updated@, *catalog),
{
    route_map_document(
        last_updated,
        catalog.route_numbers(),
        catalog.route_details(),
        catalog.stations(),
    )
}

/// Two runs that start from the same index and fold in the same results, in
/// whatever order these arrive, write the same document for the same time,
/// where every two of the results agree on the stations they share.
pub proof fn lemma_runs_give_one_document(
    last_updated: Seq<char>,
    start: CatalogView,
    first: RouteCatalog,
    first_results: Seq<RouteProcessData>,
    second: RouteCatalog,
    second_results: Seq<RouteProcessData>,
)
    requires
        first.wf(),
        second.wf(),
        first@ == spec_fold_all(start, first_results),
        second@ == spec_fold_all(start, second_results),
        first_results.to_multiset() == second_results.to_multiset(),
        all_agreeing(first_results),
    ensures
        spec_catalog_document(last_updated, first) == spec_catalog_document(last_updated, second),
{
    lemma_fold_all_any_order(start, first_results, second_results);
    first.lemma_parts();
    second.lemma_parts();
    lemma_document_decided(
        last_updated,
        first.spec_route_numbers(),
        first.spec_route_details(),
        first.spec_stations(),
        second.spec_route_numbers(),
        second.spec_route_details(),
        second.spec_stations(),
    );
}

/// `Local::now` and `DateTime::format` of chrono: the local date and time of
/// the moment of the call, as year, month and day, then hour, minute and
/// second.  Nothing is claimed of the text.
#[verifier::external_body]
fn local_time() -> (now: String) {
    chrono::Local::now().format("%Y-%m-%d %H:%M:%S").to_string()
}

/// Writes the document of the station and route index as of now.
pub fn route_map_now(
    numbers: &RouteIndex,
    details: &TextMap<RouteDetails>,
    stations: &TextMap<Station>,
) -> (doc: Json)
    requires
        numbers.wf(),
    ensures
        exists|now: Seq<char>| doc@ == spec_route_map(now, *numbers, *details, *stations),
{
    let now = local_time();
    route_map_document(now.as_str(), numbers, details, stations)
}

} // verus!
