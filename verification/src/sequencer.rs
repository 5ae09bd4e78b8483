//! Ordering the stops of one route.
//!
//! Records without a node id are dropped, the rest are typed and put in
//! ascending `order`.  Stops that share an `order` keep the relative position
//! in which the catalog delivered them.

use vstd::prelude::*;
use crate::stop::{RawStop, RawStopView, Stop, StopView, raw_views, stop_views};

verus! {

/// `order` never decreases along the sequence.
pub open spec fn ascending(stops: Seq<StopView>) -> bool {
    forall|i: int, j: int| 0 <= i <= j < stops.len() ==> stops[i].order <= stops[j].order
}

/// The stops whose `order` is `k`, in the sequence's own order.
pub open spec fn with_order(stops: Seq<StopView>, k: int) -> Seq<StopView> {
    stops.filter(|s: StopView| s.order == k)
}

/// `sorted` holds the stops of `given` in ascending `order`, and the stops of
/// each single `order` stand in it as they stand in `given`.
pub open spec fn stable_sort_of(sorted: Seq<StopView>, given: Seq<StopView>) -> bool {
    &&& sorted.len() == given.len()
    &&& ascending(sorted)
    &&& forall|k: int| #[trigger] with_order(sorted, k) == with_order(given, k)
}

/// The records that carry a node id, as stops.
pub open spec fn usable(records: Seq<RawStopView>) -> Seq<StopView> {
    records.filter(|r: RawStopView| r.node_id.len() > 0).map_values(|r: RawStopView| r.typed())
}

proof fn lemma_none_with_order(stops: Seq<StopView>, k: int)
    requires
        forall|i: int| 0 <= i < stops.len() ==> stops[i].order != k,
    ensures
        with_order(stops, k) == Seq::<StopView>::empty(),
{
    let pred = |s: StopView| s.order == k;
    assert(stops.all(|x: StopView| !pred(x)));
    stops.lemma_all_neg_filter_empty(pred);
    assert(stops.filter(pred) =~= Seq::<StopView>::empty());
}

/// Putting `x` behind the last stop whose `order` is not above its own keeps
/// a stable sort stable.
proof fn lemma_insert_keeps_sort(sorted: Seq<StopView>, given: Seq<StopView>, at: int, x: StopView)
    requires
        stable_sort_of(sorted, given),
        0 <= at <= sorted.len(),
        forall|i: int| 0 <= i < at ==> sorted[i].order <= x.order,
        forall|i: int| at <= i < sorted.len() ==> sorted[i].order > x.order,
    ensures
        stable_sort_of(sorted.insert(at, x), given.push(x)),
{
    let out = sorted.insert(at, x);
    let head = sorted.subrange(0, at);
    let tail = sorted.subrange(at, sorted.len() as int);
    assert(sorted =~= head + tail);
    assert(out =~= head.push(x) + tail);
    assert forall|i: int, j: int| 0 <= i <= j < out.len() implies out[i].order <= out[j].order by {
        if i < at && j > at {
            assert(out[i] == sorted[i] && out[j] == sorted[j - 1]);
        } else if i < at && j < at {
            assert(out[i] == sorted[i] && out[j] == sorted[j]);
        } else if i > at {
            assert(out[i] == sorted[i - 1] && out[j] == sorted[j - 1]);
        }
    }
    assert forall|k: int| #[trigger] with_order(out, k) == with_order(given.push(x), k) by {
        let pred = |s: StopView| s.order == k;
        Seq::filter_distributes_over_add(head, tail, pred);
        Seq::filter_distributes_over_add(head.push(x), tail, pred);
        head.lemma_filter_push(x, pred);
        given.lemma_filter_push(x, pred);
        assert(with_order(sorted, k) == with_order(given, k));
        if x.order == k {
            lemma_none_with_order(tail, k);
            assert(head.filter(pred) + Seq::<StopView>::empty() =~= head.filter(pred));
            assert(head.filter(pred).push(x) + Seq::<StopView>::empty() =~= head.filter(pred).push(x));
        }
    }
}

proof fn lemma_same_groups_same_sequence(a: Seq<StopView>, b: Seq<StopView>)
    requires
        a.len() == b.len(),
        ascending(a),
        ascending(b),
        forall|k: int| #[trigger] with_order(a, k) == with_order(b, k),
    ensures
        a == b,
    decreases a.len(),
{
    if a.len() == 0 {
        assert(a =~= b);
    } else {
        let x = a.last();
        let y = b.last();
        let front_a = a.drop_last();
        let front_b = b.drop_last();
        assert(a =~= front_a.push(x));
        assert(b =~= front_b.push(y));
        let at_x = |s: StopView| s.order == x.order;
        let at_y = |s: StopView| s.order == y.order;
        front_a.lemma_filter_push(x, at_x);
        front_b.lemma_filter_push(y, at_x);
        front_a.lemma_filter_push(x, at_y);
        front_b.lemma_filter_push(y, at_y);
        assert(with_order(a, x.order) == with_order(b, x.order));
        assert(with_order(a, y.order) == with_order(b, y.order));
        // Each sequence holds the last stop of the other, so the two last
        // stops have the same `order`, and each is the last of its group.
        assert(x.order == y.order) by {
            let group_x = with_order(b, x.order);
            assert(group_x.len() > 0);
            b.lemma_filter_contains_rev(at_x, group_x[0]);
            let i = b.index_of(group_x[0]);
            b.lemma_filter_pred(at_x, 0);
            assert(b[i].order <= y.order);
            let group_y = with_order(a, y.order);
            assert(group_y.len() > 0);
            a.lemma_filter_contains_rev(at_y, group_y[0]);
            let j = a.index_of(group_y[0]);
            a.lemma_filter_pred(at_y, 0);
            assert(a[j].order <= x.order);
        }
        assert(with_order(a, x.order).last() == x);
        assert(with_order(b, x.order).last() == y);
        assert forall|k: int| #[trigger] with_order(front_a, k) == with_order(front_b, k) by {
            let at_k = |s: StopView| s.order == k;
            front_a.lemma_filter_push(x, at_k);
            front_b.lemma_filter_push(y, at_k);
            assert(with_order(a, k) == with_order(b, k));
            if k == x.order {
                assert(front_a.filter(at_k) =~= with_order(a, k).drop_last());
                assert(front_b.filter(at_k) =~= with_order(b, k).drop_last());
            }
        }
        assert forall|i: int, j: int| 0 <= i <= j < front_a.len() implies front_a[i].order
            <= front_a[j].order by {
            assert(a[i].order <= a[j].order);
        }
        assert forall|i: int, j: int| 0 <= i <= j < front_b.len() implies front_b[i].order
            <= front_b[j].order by {
            assert(b[i].order <= b[j].order);
        }
        lemma_same_groups_same_sequence(front_a, front_b);
    }
}

/// There is one stable sort of a sequence only.
pub proof fn lemma_stable_sort_unique(a: Seq<StopView>, b: Seq<StopView>, given: Seq<StopView>)
    requires
        stable_sort_of(a, given),
        stable_sort_of(b, given),
    ensures
        a == b,
{
    assert forall|k: int| #[trigger] with_order(a, k) == with_order(b, k) by {
        assert(with_order(a, k) == with_order(given, k));
        assert(with_order(b, k) == with_order(given, k));
    }
    lemma_same_groups_same_sequence(a, b);
}

/// Puts the stops in ascending `order`; stops of one `order` keep their
/// relative position.
pub fn sort_by_order(stops: &mut Vec<Stop>)
    ensures
        stable_sort_of(stop_views(final(stops)@), stop_views(old(stops)@)),
{
    let n = stops.len();
    let mut i: usize = 0;
    proof {
        assert(stop_views(stops@).subrange(0, 0) =~= Seq::<StopView>::empty());
        assert forall|k: int| #[trigger] with_order(Seq::<StopView>::empty(), k)
            == Seq::<StopView>::empty() by {
            lemma_none_with_order(Seq::<StopView>::empty(), k);
        }
    }
    while i < n
        invariant
            i <= n,
            stops.len() == n,
            old(stops).len() == n,
            stable_sort_of(
                stop_views(stops@).subrange(0, i as int),
                stop_views(old(stops)@).subrange(0, i as int),
            ),
            stop_views(stops@).subrange(i as int, n as int) == stop_views(old(stops)@).subrange(
                i as int,
                n as int,
            ),
        decreases n - i,
    {
        let key = stops[i].order;
        let mut at: usize = i;
        while at > 0 && stops[at - 1].order > key
            invariant
                at <= i < n,
                stops.len() == n,
                key == stops[i as int].order,
                forall|a: int| at <= a < i ==> stops[a].order > key,
            decreases at,
        {
            at -= 1;
        }
        let ghost before = stop_views(stops@);
        let ghost given = stop_views(old(stops)@);
        let moved = stops.remove(i);
        stops.insert(at, moved);
        proof {
            let after = stop_views(stops@);
            let x = before[i as int];
            let sorted = before.subrange(0, i as int);
            assert(before.subrange(i as int, n as int)[0] == given.subrange(i as int, n as int)[0]);
            assert(x == given[i as int]);
            assert(after.subrange(0, i + 1) =~= sorted.insert(at as int, x));
            assert(given.subrange(0, i + 1) =~= given.subrange(0, i as int).push(x));
            assert forall|a: int| 0 <= a < at implies sorted[a].order <= x.order by {
                if at > 0 {
                    assert(sorted[a].order <= sorted[at - 1].order);
                }
            }
            lemma_insert_keeps_sort(sorted, given.subrange(0, i as int), at as int, x);
            assert forall|a: int| i + 1 <= a < n implies after[a] == given[a] by {
                assert(before.subrange(i as int, n as int)[a - i] == given.subrange(
                    i as int,
                    n as int,
                )[a - i]);
            }
            assert(after.subrange(i + 1, n as int) =~= given.subrange(i + 1, n as int));
        }
        i += 1;
    }
    proof {
        assert(stop_views(stops@).subrange(0, n as int) =~= stop_views(stops@));
        assert(stop_views(old(stops)@).subrange(0, n as int) =~= stop_views(old(stops)@));
    }
}

/// The ordered stops of one route.
#[derive(Debug, PartialEq, Eq)]
pub struct RouteRecord {
    pub route_id: String,
    /// The line number shown to riders; branch variants share it.
    pub route_no: String,
    pub stops: Vec<Stop>,
}

/// Types the records that carry a node id and puts them in ascending `order`.
pub fn sequence_stops(records: &Vec<RawStop>) -> (stops: Vec<Stop>)
    ensures
        stable_sort_of(stop_views(stops@), usable(raw_views(records@))),
{
    let mut stops: Vec<Stop> = Vec::new();
    let n = records.len();
    let mut i: usize = 0;
    let ghost keep = |r: RawStopView| r.node_id.len() > 0;
    let ghost typed = |r: RawStopView| r.typed();
    proof {
        assert(raw_views(records@).subrange(0, 0) =~= Seq::<RawStopView>::empty());
        Seq::<RawStopView>::empty().lemma_filter_len(keep);
        assert(stop_views(stops@) =~= usable(raw_views(records@).subrange(0, 0)));
    }
    while i < n
        invariant
            i <= n,
            n == records.len(),
            keep == |r: RawStopView| r.node_id.len() > 0,
            typed == |r: RawStopView| r.typed(),
            stop_views(stops@) == usable(raw_views(records@).subrange(0, i as int)),
        decreases n - i,
    {
        let ghost seen = raw_views(records@).subrange(0, i as int);
        proof {
            assert(raw_views(records@).subrange(0, i + 1) =~= seen.push(records[i as int]@));
            seen.lemma_filter_push(records[i as int]@, keep);
        }
        if records[i].node_id.as_str().unicode_len() > 0 {
            let stop = Stop::from_raw(records[i].clone());
            let ghost kept = stop_views(stops@);
            stops.push(stop);
            proof {
                seen.filter(keep).lemma_push_map_commute(typed, records[i as int]@);
                assert(stop_views(stops@) =~= kept.push(stop@));
            }
        }
        i += 1;
    }
    proof {
        assert(raw_views(records@).subrange(0, n as int) =~= raw_views(records@));
    }
    sort_by_order(&mut stops);
    stops
}

/// The record of a route, or nothing where no stop record carries a node id.
pub fn sequence_route(route_id: String, route_no: String, records: &Vec<RawStop>) -> (record: Option<
    RouteRecord,
>)
    ensures
        record is None <==> usable(raw_views(records@)).len() == 0,
        record matches Some(r) ==> {
            &&& r.route_id == route_id
            &&& r.route_no == route_no
            &&& stable_sort_of(stop_views(r.stops@), usable(raw_views(records@)))
        },
{
    let stops = sequence_stops(records);
    if stops.len() == 0 {
        None
    } else {
        Some(RouteRecord { route_id, route_no, stops })
    }
}

} // verus!
