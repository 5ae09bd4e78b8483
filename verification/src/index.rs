//! The station and route index that a run gathers from its routes.
//!
//! Each route is worked on by itself and hands back one result.  A single
//! consumer folds the results into the index as they arrive.  What the index
//! holds in the end does not depend on the order of arrival, as long as two
//! routes that share a station describe it alike, and what it holds decides
//! how it is laid out.

use vstd::prelude::*;
use crate::sequencer::RouteRecord;
use crate::stop::{Direction, Stop, StopView, stop_views};
use crate::textmap::{TextMap, TextSet};

verus! {

/// What the index keeps of a station.
#[derive(Debug, PartialEq, Eq)]
pub struct Station {
    pub name: String,
    pub code: String,
    /// Latitude in millionths of a degree.
    pub latitude: i64,
    /// Longitude in millionths of a degree.
    pub longitude: i64,
}

/// What a station record holds, with its texts as character sequences.
pub ghost struct StationView {
    pub name: Seq<char>,
    pub code: Seq<char>,
    pub latitude: int,
    pub longitude: int,
}

impl View for Station {
    type V = StationView;

    open spec fn view(&self) -> StationView {
        StationView {
            name: self.name@,
            code: self.code@,
            latitude: self.latitude as int,
            longitude: self.longitude as int,
        }
    }
}

/// One stop in the summary of a route's sequence.
#[derive(Debug, PartialEq, Eq)]
pub struct SequenceEntry {
    pub node_id: String,
    pub order: i64,
    pub direction: Direction,
}

/// What a sequence entry holds, with its text as a character sequence.
pub ghost struct SequenceEntryView {
    pub node_id: Seq<char>,
    pub order: int,
    pub direction: Direction,
}

impl View for SequenceEntry {
    type V = SequenceEntryView;

    open spec fn view(&self) -> SequenceEntryView {
        SequenceEntryView {
            node_id: self.node_id@,
            order: self.order as int,
            direction: self.direction,
        }
    }
}

/// What the index keeps of a route: its number and the summary of its stops
/// in their order.
#[derive(Debug, PartialEq, Eq)]
pub struct RouteDetails {
    pub route_no: String,
    pub sequence: Vec<SequenceEntry>,
}

/// The result of working on one route: what it adds to the index.
#[derive(Debug, PartialEq, Eq)]
pub struct RouteProcessData {
    pub route_id: String,
    pub route_no: String,
    pub details: RouteDetails,
    /// The station record of every stop, under the stop's node id and in the
    /// order of the stops.
    pub stops_map: Vec<(String, Station)>,
}

impl StopView {
    /// The entry of the stop in the summary of its route.
    pub open spec fn entry(self) -> SequenceEntryView {
        SequenceEntryView { node_id: self.node_id, order: self.order, direction: self.direction }
    }

    /// The station record of the stop.
    pub open spec fn station(self) -> StationView {
        StationView {
            name: self.name,
            code: self.code,
            latitude: self.latitude,
            longitude: self.longitude,
        }
    }
}

/// Gathers what a route adds to the index: its summary and the station
/// record of each of its stops, in one pass over the stops.
pub fn route_data(record: &RouteRecord) -> (data: RouteProcessData)
    ensures
        data.route_id@ == record.route_id@,
        data.route_no@ == record.route_no@,
        data.details.route_no@ == record.route_no@,
        data.details.sequence@.len() == record.stops@.len(),
        data.stops_map@.len() == record.stops@.len(),
        forall|i: int|
            0 <= i < record.stops@.len() ==> (#[trigger] data.details.sequence@[i])@
                == record.stops@[i]@.entry(),
        forall|i: int|
            0 <= i < record.stops@.len() ==> {
                &&& (#[trigger] data.stops_map@[i]).0@ == record.stops@[i]@.node_id
                &&& data.stops_map@[i].1@ == record.stops@[i]@.station()
            },
{
    let mut sequence: Vec<SequenceEntry> = Vec::new();
    let mut stops_map: Vec<(String, Station)> = Vec::new();
    let mut i: usize = 0;
    while i < record.stops.len()
        invariant
            i <= record.stops.len(),
            sequence@.len() == i,
            stops_map@.len() == i,
            forall|k: int|
                0 <= k < i ==> (#[trigger] sequence@[k])@ == record.stops@[k]@.entry(),
            forall|k: int|
                0 <= k < i ==> {
                    &&& (#[trigger] stops_map@[k]).0@ == record.stops@[k]@.node_id
                    &&& stops_map@[k].1@ == record.stops@[k]@.station()
                },
        decreases record.stops.len() - i,
    {
        let stop = &record.stops[i];
        sequence.push(
            SequenceEntry {
                node_id: stop.node_id.clone(),
                order: stop.order,
                direction: stop.direction,
            },
        );
        stops_map.push(
            (
                stop.node_id.clone(),
                Station {
                    name: stop.name.clone(),
                    code: stop.code.clone(),
                    latitude: stop.latitude,
                    longitude: stop.longitude,
                },
            ),
        );
        i += 1;
    }
    RouteProcessData {
        route_id: record.route_id.clone(),
        route_no: record.route_no.clone(),
        details: RouteDetails { route_no: record.route_no.clone(), sequence },
        stops_map,
    }
}

/// The route index after route `id` was seen under number `no`.
pub open spec fn spec_add(
    index: Map<Seq<char>, Set<Seq<char>>>,
    no: Seq<char>,
    id: Seq<char>,
) -> Map<Seq<char>, Set<Seq<char>>> {
    if index.dom().contains(no) {
        index.insert(no, index[no].insert(id))
    } else {
        index.insert(no, Set::<Seq<char>>::empty().insert(id))
    }
}

/// Seeing two routes in either order gives the same route index.
pub proof fn lemma_add_commutes(
    index: Map<Seq<char>, Set<Seq<char>>>,
    no1: Seq<char>,
    id1: Seq<char>,
    no2: Seq<char>,
    id2: Seq<char>,
)
    ensures
        spec_add(spec_add(index, no1, id1), no2, id2) == spec_add(
            spec_add(index, no2, id2),
            no1,
            id1,
        ),
{
    let left = spec_add(spec_add(index, no1, id1), no2, id2);
    let right = spec_add(spec_add(index, no2, id2), no1, id1);
    if no1 == no2 {
        assert(left[no1] =~= right[no1]);
    }
    assert(left =~= right);
}

/// Seeing a route a second time changes nothing.
pub proof fn lemma_add_idempotent(index: Map<Seq<char>, Set<Seq<char>>>, no: Seq<char>, id: Seq<char>)
    ensures
        spec_add(spec_add(index, no, id), no, id) == spec_add(index, no, id),
{
    let once = spec_add(index, no, id);
    assert(once[no].insert(id) =~= once[no]);
    assert(spec_add(once, no, id) =~= once);
}

/// The route ids seen under each route number.
#[derive(Debug)]
pub struct RouteIndex {
    buckets: TextMap<TextSet>,
}

impl View for RouteIndex {
    type V = Map<Seq<char>, Set<Seq<char>>>;

    /// The set of route ids under each route number.
    closed spec fn view(&self) -> Map<Seq<char>, Set<Seq<char>>> {
        Map::new(|no: Seq<char>| self.buckets@.dom().contains(no), |no: Seq<char>| self.buckets@[no]@)
    }
}

impl RouteIndex {
    /// The route numbers in the order in which the index is laid out.
    pub closed spec fn numbers(&self) -> Seq<Seq<char>> {
        self.buckets.keys()
    }

    /// The route ids under the number at place `i`, in the order in which
    /// they are laid out.
    pub closed spec fn ids(&self, i: int) -> Seq<Seq<char>> {
        self.buckets.values()[i].items()
    }

    /// Numbers and ids ascend strictly, so none occurs twice.
    pub closed spec fn wf(&self) -> bool {
        &&& self.buckets.wf()
        &&& forall|i: int| 0 <= i < self.buckets.values().len() ==> (#[trigger] self.buckets.values()[i]).wf()
    }

    /// The index is laid out by ascending numbers, the ids under each number
    /// ascend, and the layout holds what the view holds.
    pub proof fn lemma_layout(&self, i: int)
        requires
            self.wf(),
            0 <= i < self.numbers().len(),
        ensures
            crate::textmap::strictly_ascending(self.numbers()),
            crate::textmap::strictly_ascending(self.ids(i)),
            self@.dom().contains(self.numbers()[i]),
            forall|id: Seq<char>| self@[self.numbers()[i]].contains(id) <==> self.ids(i).contains(id),
            forall|no: Seq<char>| self@.dom().contains(no) <==> self.numbers().contains(no),
    {
        self.buckets.lemma_place(i);
        self.buckets.values()[i].lemma_layout();
    }

    /// What a well-formed index holds decides its layout.
    pub proof fn lemma_layout_decided(&self, other: &Self)
        requires
            self.wf(),
            other.wf(),
            self@ == other@,
        ensures
            self.numbers() == other.numbers(),
            forall|i: int| 0 <= i < self.numbers().len() ==> self.ids(i) == other.ids(i),
    {
        assert forall|k: Seq<char>| #[trigger]
            self.numbers().contains(k) <==> other.numbers().contains(k) by {
            assert(self@.dom().contains(k) == self.buckets@.dom().contains(k));
            assert(other@.dom().contains(k) == other.buckets@.dom().contains(k));
        }
        crate::textmap::lemma_ascending_decided(self.numbers(), other.numbers());
        assert forall|i: int| 0 <= i < self.numbers().len() implies self.ids(i) == other.ids(
            i,
        ) by {
            self.buckets.lemma_place(i);
            other.buckets.lemma_place(i);
            let k = self.numbers()[i];
            assert(self@[k] == self.buckets.values()[i]@);
            assert(other@[k] == other.buckets.values()[i]@);
            self.buckets.values()[i].lemma_layout_decided(&other.buckets.values()[i]);
        }
    }

    /// The empty index: it holds no route number, and its layout is empty.
    pub fn new() -> (index: Self)
        ensures
            index.wf(),
            index@ == Map::<Seq<char>, Set<Seq<char>>>::empty(),
            index.numbers().len() == 0,
    {
        let index = RouteIndex { buckets: TextMap::new() };
        proof {
            assert(index@ =~= Map::<Seq<char>, Set<Seq<char>>>::empty());
        }
        index
    }

    /// The number of route numbers.
    pub fn len(&self) -> (n: usize)
        ensures
            n == self.numbers().len(),
    {
        self.buckets.len()
    }

    /// The route number at place `i` of the layout.
    pub fn number_at(&self, i: usize) -> (no: &str)
        requires
            i < self.numbers().len(),
        ensures
            no@ == self.numbers()[i as int],
    {
        self.buckets.key_at(i)
    }

    /// The route ids under the number at place `i`, in their layout.
    pub fn ids_at(&self, i: usize) -> (ids: Vec<String>)
        requires
            self.wf(),
            i < self.numbers().len(),
        ensures
            ids@.len() == self.ids(i as int).len(),
            forall|k: int| 0 <= k < ids@.len() ==> (#[trigger] ids@[k])@ == self.ids(i as int)[k],
    {
        let bucket = self.buckets.value_at(i);
        let mut ids: Vec<String> = Vec::new();
        let n = bucket.len();
        let mut k: usize = 0;
        while k < n
            invariant
                k <= n,
                n == bucket.items().len(),
                ids@.len() == k,
                forall|j: int| 0 <= j < k ==> (#[trigger] ids@[j])@ == bucket.items()[j],
            decreases n - k,
        {
            ids.push(String::from_str(bucket.item_at(k)));
            k += 1;
        }
        ids
    }

    /// Whether route `id` was seen under number `no`.
    pub fn contains(&self, no: &str, id: &str) -> (r: bool)
        requires
            self.wf(),
        ensures
            r == (self@.dom().contains(no@) && self@[no@].contains(id@)),
    {
        match self.buckets.get(no) {
            Some(bucket) => {
                proof {
                    self.lemma_bucket(no@);
                }
                bucket.contains(id)
            },
            None => false,
        }
    }

    proof fn lemma_bucket(&self, no: Seq<char>)
        requires
            self.wf(),
            self.buckets@.dom().contains(no),
        ensures
            self.buckets@[no].wf(),
    {
        let i = self.buckets.keys().index_of(no);
        self.buckets.lemma_place(i);
    }

    /// Records that route `id` runs under number `no`.
    pub fn add(&mut self, no: String, id: String)
        requires
            old(self).wf(),
        ensures
            final(self).wf(),
            final(self)@ == spec_add(old(self)@, no@, id@),
    {
        let mut bucket = match self.buckets.get(no.as_str()) {
            Some(found) => {
                proof {
                    self.lemma_bucket(no@);
                }
                found.copy()
            },
            None => TextSet::new(),
        };
        bucket.insert(id);
        let ghost before = *self;
        self.buckets.insert(no, bucket);
        proof {
            assert forall|i: int| 0 <= i < self.buckets.values().len() implies (
            #[trigger] self.buckets.values()[i]).wf() by {
                self.buckets.lemma_place(i);
                let k = self.buckets.keys()[i];
                if k != no@ {
                    before.lemma_bucket(k);
                }
            }
            assert(self@ =~= spec_add(before@, no@, id@));
        }
    }
}

impl Station {
    /// A record of the same station.
    pub fn copy(&self) -> (r: Station)
        ensures
            r == *self,
    {
        Station {
            name: self.name.clone(),
            code: self.code.clone(),
            latitude: self.latitude,
            longitude: self.longitude,
        }
    }
}

/// The station index after the given records were written to it one after
/// the other: of two records under one node id the later one stays.
pub open spec fn spec_put_all(
    stations: Map<Seq<char>, Station>,
    records: Seq<(String, Station)>,
) -> Map<Seq<char>, Station>
    decreases records.len(),
{
    if records.len() == 0 {
        stations
    } else {
        spec_put_all(stations, records.drop_last()).insert(records.last().0@, records.last().1)
    }
}

/// What `spec_put_all` leaves under a node id: the last of the records
/// written under it, or what stood there before where none was.
pub proof fn lemma_put_all(
    stations: Map<Seq<char>, Station>,
    records: Seq<(String, Station)>,
    id: Seq<char>,
)
    ensures
        (forall|i: int| 0 <= i < records.len() ==> (#[trigger] records[i]).0@ != id) ==> {
            &&& spec_put_all(stations, records).dom().contains(id) == stations.dom().contains(id)
            &&& spec_put_all(stations, records)[id] == stations[id]
        },
        forall|i: int|
            0 <= i < records.len() && (#[trigger] records[i]).0@ == id && (forall|j: int|
                i < j < records.len() ==> (#[trigger] records[j]).0@ != id) ==> {
                &&& spec_put_all(stations, records).dom().contains(id)
                &&& spec_put_all(stations, records)[id] == records[i].1
            },
    decreases records.len(),
{
    if records.len() > 0 {
        let front = records.drop_last();
        lemma_put_all(stations, front, id);
        assert forall|i: int|
            0 <= i < records.len() && (#[trigger] records[i]).0@ == id && (forall|j: int|
                i < j < records.len() ==> (#[trigger] records[j]).0@ != id) implies {
            &&& spec_put_all(stations, records).dom().contains(id)
            &&& spec_put_all(stations, records)[id] == records[i].1
        } by {
            if i < records.len() - 1 {
                assert(records[records.len() - 1].0@ != id);
                assert(front[i] == records[i]);
                assert forall|j: int| i < j < front.len() implies (#[trigger] front[j]).0@ != id by {
                    assert(front[j] == records[j]);
                }
            }
        }
        if forall|i: int| 0 <= i < records.len() ==> (#[trigger] records[i]).0@ != id {
            assert(records[records.len() - 1].0@ != id);
            assert forall|i: int| 0 <= i < front.len() implies (#[trigger] front[i]).0@ != id by {
                assert(front[i] == records[i]);
            }
        }
    }
}

/// What a run has gathered, as maps.
pub ghost struct CatalogView {
    /// The route ids under each route number.
    pub numbers: Map<Seq<char>, Set<Seq<char>>>,
    /// The details of each route under its id.
    pub details: Map<Seq<char>, RouteDetails>,
    /// The record of each station under its node id.
    pub stations: Map<Seq<char>, Station>,
}

/// The index after the result of one route was folded in.
pub open spec fn spec_fold(catalog: CatalogView, data: RouteProcessData) -> CatalogView {
    CatalogView {
        numbers: spec_add(catalog.numbers, data.route_no@, data.route_id@),
        details: catalog.details.insert(data.route_id@, data.details),
        stations: spec_put_all(catalog.stations, data.stops_map@),
    }
}

/// The index after the results of several routes were folded in, in the
/// order given.
pub open spec fn spec_fold_all(catalog: CatalogView, results: Seq<RouteProcessData>) -> CatalogView
    decreases results.len(),
{
    if results.len() == 0 {
        catalog
    } else {
        spec_fold(spec_fold_all(catalog, results.drop_last()), results.last())
    }
}

/// Two results describe alike every station that both of them hold, and
/// belong to different routes.
pub open spec fn agreeing(a: RouteProcessData, b: RouteProcessData) -> bool {
    &&& a.route_id@ != b.route_id@
    &&& forall|i: int, j: int|
        0 <= i < a.stops_map@.len() && 0 <= j < b.stops_map@.len() && (#[trigger] a.stops_map@[i]).0@
            == (#[trigger] b.stops_map@[j]).0@ ==> a.stops_map@[i].1 == b.stops_map@[j].1
}

proof fn lemma_last_record(records: Seq<(String, Station)>, id: Seq<char>, upto: int) -> (at: int)
    requires
        0 < upto <= records.len(),
        exists|i: int| 0 <= i < upto && (#[trigger] records[i]).0@ == id,
    ensures
        0 <= at < upto,
        records[at].0@ == id,
        forall|j: int| at < j < upto ==> (#[trigger] records[j]).0@ != id,
    decreases upto,
{
    if records[upto - 1].0@ == id {
        upto - 1
    } else {
        let i = choose|i: int| 0 <= i < upto && (#[trigger] records[i]).0@ == id;
        assert(i < upto - 1);
        lemma_last_record(records, id, upto - 1)
    }
}

/// The order in which the results of two routes arrive does not change what
/// the index holds, where the two agree on the stations they share.
pub proof fn lemma_fold_commutes(catalog: CatalogView, a: RouteProcessData, b: RouteProcessData)
    requires
        agreeing(a, b),
    ensures
        spec_fold(spec_fold(catalog, a), b) == spec_fold(spec_fold(catalog, b), a),
{
    let ab = spec_fold(spec_fold(catalog, a), b);
    let ba = spec_fold(spec_fold(catalog, b), a);
    lemma_add_commutes(catalog.numbers, a.route_no@, a.route_id@, b.route_no@, b.route_id@);
    assert(ab.details =~= ba.details);
    let ra = a.stops_map@;
    let rb = b.stops_map@;
    let sa = spec_put_all(catalog.stations, ra);
    let sb = spec_put_all(catalog.stations, rb);
    assert forall|id: Seq<char>|
        (#[trigger] ab.stations.dom().contains(id)) == ba.stations.dom().contains(id) && (
        ab.stations.dom().contains(id) ==> ab.stations[id] == ba.stations[id]) by {
        lemma_put_all(catalog.stations, ra, id);
        lemma_put_all(catalog.stations, rb, id);
        lemma_put_all(sa, rb, id);
        lemma_put_all(sb, ra, id);
        let in_a = exists|i: int| 0 <= i < ra.len() && (#[trigger] ra[i]).0@ == id;
        let in_b = exists|i: int| 0 <= i < rb.len() && (#[trigger] rb[i]).0@ == id;
        if in_a {
            let i = lemma_last_record(ra, id, ra.len() as int);
            assert(sa[id] == ra[i].1 && sa.dom().contains(id));
            assert(ba.stations[id] == ra[i].1 && ba.stations.dom().contains(id));
            if in_b {
                let j = lemma_last_record(rb, id, rb.len() as int);
                assert(ab.stations[id] == rb[j].1 && ab.stations.dom().contains(id));
                assert(ra[i].1 == rb[j].1);
            }
        } else if in_b {
            let j = lemma_last_record(rb, id, rb.len() as int);
            assert(sb[id] == rb[j].1 && sb.dom().contains(id));
            assert(ab.stations[id] == rb[j].1 && ab.stations.dom().contains(id));
        }
    }
    assert(ab.stations =~= ba.stations);
}

/// Two results that arrive one after the other may change places, whatever
/// arrived before and arrives after them: where the two agree on the
/// stations they share, the index in the end is the same.
pub proof fn lemma_fold_all_swap(
    catalog: CatalogView,
    before: Seq<RouteProcessData>,
    a: RouteProcessData,
    b: RouteProcessData,
    after: Seq<RouteProcessData>,
)
    requires
        agreeing(a, b),
    ensures
        spec_fold_all(catalog, before.push(a).push(b) + after) == spec_fold_all(
            catalog,
            before.push(b).push(a) + after,
        ),
    decreases after.len(),
{
    let ab = before.push(a).push(b);
    let ba = before.push(b).push(a);
    if after.len() == 0 {
        assert(ab + after =~= ab);
        assert(ba + after =~= ba);
        assert(ab.drop_last() =~= before.push(a));
        assert(ba.drop_last() =~= before.push(b));
        assert(before.push(a).drop_last() =~= before);
        assert(before.push(b).drop_last() =~= before);
        let start = spec_fold_all(catalog, before);
        assert(spec_fold_all(catalog, before.push(a)) == spec_fold(start, a));
        assert(spec_fold_all(catalog, before.push(b)) == spec_fold(start, b));
        assert(spec_fold_all(catalog, ab) == spec_fold(spec_fold(start, a), b));
        assert(spec_fold_all(catalog, ba) == spec_fold(spec_fold(start, b), a));
        lemma_fold_commutes(start, a, b);
    } else {
        lemma_fold_all_swap(catalog, before, a, b, after.drop_last());
        assert((ab + after).drop_last() =~= ab + after.drop_last());
        assert((ba + after).drop_last() =~= ba + after.drop_last());
        assert((ab + after).last() == after.last());
        assert((ba + after).last() == after.last());
    }
}

/// Every two of the results belong to different routes and describe alike
/// every station that both of them hold.
pub open spec fn all_agreeing(results: Seq<RouteProcessData>) -> bool {
    forall|i: int, j: int|
        0 <= i < results.len() && 0 <= j < results.len() && i != j ==> agreeing(
            #[trigger] results[i],
            #[trigger] results[j],
        )
}

/// A result may arrive last instead of at its place.
proof fn lemma_move_to_end(catalog: CatalogView, results: Seq<RouteProcessData>, i: int)
    requires
        all_agreeing(results),
        0 <= i < results.len(),
    ensures
        spec_fold_all(catalog, results) == spec_fold_all(
            catalog,
            results.remove(i).push(results[i]),
        ),
    decreases results.len() - i,
{
    let x = results[i];
    if i == results.len() - 1 {
        assert(results.remove(i).push(x) =~= results);
    } else {
        let y = results[i + 1];
        let before = results.take(i);
        let after = results.skip(i + 2);
        let swapped = before.push(y).push(x) + after;
        assert(results =~= before.push(x).push(y) + after);
        lemma_fold_all_swap(catalog, before, x, y, after);
        assert forall|p: int, q: int|
            0 <= p < swapped.len() && 0 <= q < swapped.len() && p != q implies agreeing(
            #[trigger] swapped[p],
            #[trigger] swapped[q],
        ) by {
            let from = |k: int|
                if k == i {
                    i + 1
                } else if k == i + 1 {
                    i
                } else {
                    k
                };
            assert(swapped[p] == results[from(p)]);
            assert(swapped[q] == results[from(q)]);
        }
        lemma_move_to_end(catalog, swapped, i + 1);
        assert(swapped.remove(i + 1) =~= results.remove(i));
    }
}

/// What the index holds does not depend on the order in which the results
/// of a run arrive: the same results in any two orders give the same index,
/// where every two of them agree on the stations they share.
pub proof fn lemma_fold_all_any_order(
    catalog: CatalogView,
    first: Seq<RouteProcessData>,
    second: Seq<RouteProcessData>,
)
    requires
        first.to_multiset() == second.to_multiset(),
        all_agreeing(first),
    ensures
        spec_fold_all(catalog, first) == spec_fold_all(catalog, second),
    decreases second.len(),
{
    vstd::seq_lib::to_multiset_len(first);
    vstd::seq_lib::to_multiset_len(second);
    if second.len() == 0 {
        assert(first =~= second);
    } else {
        let x = second.last();
        let rest = second.drop_last();
        assert(second =~= rest.push(x));
        vstd::seq_lib::to_multiset_build(rest, x);
        vstd::seq_lib::to_multiset_contains(first, x);
        assert(second.to_multiset().count(x) > 0);
        let i = first.index_of(x);
        assert(0 <= i < first.len() && first[i] == x);
        lemma_move_to_end(catalog, first, i);
        let others = first.remove(i);
        vstd::seq_lib::to_multiset_remove(first, i);
        assert(others.to_multiset() =~= rest.to_multiset());
        assert forall|p: int, q: int|
            0 <= p < others.len() && 0 <= q < others.len() && p != q implies agreeing(
            #[trigger] others[p],
            #[trigger] others[q],
        ) by {
            let from = |k: int|
                if k < i {
                    k
                } else {
                    k + 1
                };
            assert(others[p] == first[from(p)]);
            assert(others[q] == first[from(q)]);
        }
        lemma_fold_all_any_order(catalog, others, rest);
        assert(others.push(x).drop_last() =~= others);
    }
}

/// The station and route index of a run.
#[derive(Debug)]
pub struct RouteCatalog {
    numbers: RouteIndex,
    details: TextMap<RouteDetails>,
    stations: TextMap<Station>,
}

impl View for RouteCatalog {
    type V = CatalogView;

    closed spec fn view(&self) -> CatalogView {
        CatalogView { numbers: self.numbers@, details: self.details@, stations: self.stations@ }
    }
}

impl RouteCatalog {
    /// Every part of the index is laid out by ascending keys.
    pub closed spec fn wf(&self) -> bool {
        &&& self.numbers.wf()
        &&& self.details.wf()
        &&& self.stations.wf()
    }

    /// The route ids under each route number, as the catalog lays them out.
    pub closed spec fn spec_route_numbers(&self) -> RouteIndex {
        self.numbers
    }

    /// The details of each route, as the catalog lays them out.
    pub closed spec fn spec_route_details(&self) -> TextMap<RouteDetails> {
        self.details
    }

    /// The record of each station, as the catalog lays them out.
    pub closed spec fn spec_stations(&self) -> TextMap<Station> {
        self.stations
    }

    /// The parts of a well-formed catalog are well-formed, and they hold
    /// what the catalog holds.
    pub proof fn lemma_parts(&self)
        requires
            self.wf(),
        ensures
            self.spec_route_numbers().wf(),
            self.spec_route_details().wf(),
            self.spec_stations().wf(),
            self.spec_route_numbers()@ == self@.numbers,
            self.spec_route_details()@ == self@.details,
            self.spec_stations()@ == self@.stations,
    {
    }

    /// The index of a run that has seen no route yet.
    pub fn new() -> (catalog: Self)
        ensures
            catalog.wf(),
            catalog@ == (CatalogView {
                numbers: Map::empty(),
                details: Map::empty(),
                stations: Map::empty(),
            }),
    {
        RouteCatalog { numbers: RouteIndex::new(), details: TextMap::new(), stations: TextMap::new() }
    }

    /// Folds the result of one route into the index.  The route joins the
    /// ids under its number, its details are written under its id, and each
    /// of its station records is written under its node id, over a record
    /// that stood there before.
    pub fn fold(&mut self, data: RouteProcessData)
        requires
            old(self).wf(),
        ensures
            final(self).wf(),
            final(self)@ == spec_fold(old(self)@, data),
    {
        let ghost before = self.stations@;
        let ghost records = data.stops_map@;
        let mut i: usize = 0;
        while i < data.stops_map.len()
            invariant
                i <= data.stops_map.len(),
                records == data.stops_map@,
                self.stations.wf(),
                self.numbers == old(self).numbers,
                self.details == old(self).details,
                self.stations@ == spec_put_all(before, records.take(i as int)),
            decreases data.stops_map.len() - i,
        {
            proof {
                assert(records.take(i + 1).drop_last() =~= records.take(i as int));
            }
            self.stations.insert(data.stops_map[i].0.clone(), data.stops_map[i].1.copy());
            i += 1;
        }
        proof {
            assert(records.take(records.len() as int) =~= records);
        }
        self.numbers.add(data.route_no.clone(), data.route_id.clone());
        self.details.insert(data.route_id, data.details);
    }

    /// The route ids under each route number.
    pub fn route_numbers(&self) -> (index: &RouteIndex)
        requires
            self.wf(),
        ensures
            index.wf(),
            index@ == self@.numbers,
            *index == self.spec_route_numbers(),
    {
        &self.numbers
    }

    /// The details of each route under its id.
    pub fn route_details(&self) -> (details: &TextMap<RouteDetails>)
        requires
            self.wf(),
        ensures
            details.wf(),
            details@ == self@.details,
            *details == self.spec_route_details(),
    {
        &self.details
    }

    /// The record of each station under its node id.
    pub fn stations(&self) -> (stations: &TextMap<Station>)
        requires
            self.wf(),
        ensures
            stations.wf(),
            stations@ == self@.stations,
            *stations == self.spec_stations(),
    {
        &self.stations
    }
}

} // verus!
