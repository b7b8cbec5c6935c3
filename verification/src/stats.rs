//! Windowed statistics over person timelines.
//!
//! Each person's timeline is replayed through a two-state machine
//! (`active` / `dropped`) bounded by an inclusive time window. The
//! elapsed time between two consecutive in-window contact events is
//! recorded when it exceeds a minimum qualifying gap, into one list for
//! the whole population and one list per area. Means are reported as a
//! sum/count pair so that "no data" stays distinct from a mean of zero;
//! the caller does the division.

use vstd::prelude::*;
use crate::timeline::{Person, TimelineEntry, TimelineEventKind};

verus! {

/// Minimum qualifying gap between two consecutive contacts, in
/// milliseconds: a gap of twelve hours or less is treated as same-day
/// or duplicate-logging noise.
pub const MIN_TIME: u64 = 12 * 60 * 60 * 1000;

/// Per-person replay state: whether the person is currently dropped,
/// and the time of the most recent in-window contact event, if any.
#[derive(Debug, Clone, Copy)]
pub struct ReplayState {
    pub dropped: bool,
    pub pivot: Option<u64>,
}

/// Replay starts active, with no pivot.
pub open spec fn initial_state() -> ReplayState {
    ReplayState { dropped: false, pivot: None }
}

/// One state-machine transition: the state after seeing `e`, and the
/// qualifying interval this entry records, if any.
///
/// A contact event is inert while dropped or outside the window; an
/// in-window event always becomes the new pivot and records the gap to
/// the previous pivot exactly when that gap exceeds `MIN_TIME`. A drop
/// suppresses later events, a reset reactivates and clears the pivot,
/// and sacrament entries have no effect.
pub open spec fn spec_step(s: ReplayState, e: TimelineEntry, start: u64, end: u64) -> (
    ReplayState,
    Option<u64>,
) {
    match e.kind {
        TimelineEventKind::Event => {
            if s.dropped {
                (s, None)
            } else if e.time < start || e.time > end {
                (s, None)
            } else {
                let rec = match s.pivot {
                    Some(p) => if e.time - p > MIN_TIME {
                        Some((e.time - p) as u64)
                    } else {
                        None
                    },
                    None => None,
                };
                (ReplayState { dropped: false, pivot: Some(e.time) }, rec)
            }
        },
        TimelineEventKind::Drop => (ReplayState { dropped: true, pivot: s.pivot }, None),
        TimelineEventKind::Reset => (ReplayState { dropped: false, pivot: None }, None),
        TimelineEventKind::Sacrament => (s, None),
    }
}

/// The qualifying intervals recorded while replaying `t` from state
/// `s`, in timeline order.
pub open spec fn spec_replay_deltas(s: ReplayState, t: Seq<TimelineEntry>, start: u64, end: u64) -> Seq<u64>
    decreases t.len(),
{
    if t.len() == 0 {
        Seq::empty()
    } else {
        let sr = spec_step(s, t[0], start, end);
        let rest = spec_replay_deltas(sr.0, t.drop_first(), start, end);
        match sr.1 {
            Some(d) => seq![d] + rest,
            None => rest,
        }
    }
}

/// The qualifying intervals one person contributes within the window.
pub open spec fn spec_person_deltas(p: Person, start: u64, end: u64) -> Seq<u64> {
    spec_replay_deltas(initial_state(), p.timeline@, start, end)
}

/// All qualifying intervals of a population, in input order.
pub open spec fn spec_all_deltas(people: Seq<Person>, start: u64, end: u64) -> Seq<u64>
    decreases people.len(),
{
    if people.len() == 0 {
        Seq::empty()
    } else {
        spec_all_deltas(people.drop_last(), start, end) + spec_person_deltas(
            people.last(),
            start,
            end,
        )
    }
}

/// The qualifying intervals contributed to one area, in input order.
pub open spec fn spec_area_deltas(people: Seq<Person>, area: Seq<char>, start: u64, end: u64) -> Seq<u64>
    decreases people.len(),
{
    if people.len() == 0 {
        Seq::empty()
    } else {
        spec_area_deltas(people.drop_last(), area, start, end) + (if people.last().area@ == area {
            spec_person_deltas(people.last(), start, end)
        } else {
            Seq::empty()
        })
    }
}

/// One state-machine transition over one timeline entry.
pub fn step(s: ReplayState, e: &TimelineEntry, start: u64, end: u64) -> (r: (
    ReplayState,
    Option<u64>,
))
    ensures
        r == spec_step(s, *e, start, end),
{
    match e.kind {
        TimelineEventKind::Event => {
            if s.dropped {
                (s, None)
            } else if e.time < start || e.time > end {
                (s, None)
            } else {
                let rec: Option<u64> = match s.pivot {
                    Some(p) => if e.time > p && e.time - p > MIN_TIME {
                        Some(e.time - p)
                    } else {
                        None
                    },
                    None => None,
                };
                (ReplayState { dropped: false, pivot: Some(e.time) }, rec)
            }
        },
        TimelineEventKind::Drop => (ReplayState { dropped: true, pivot: s.pivot }, None),
        TimelineEventKind::Reset => (ReplayState { dropped: false, pivot: None }, None),
        TimelineEventKind::Sacrament => (s, None),
    }
}

/// Replays one timeline from the initial state and returns the
/// qualifying intervals it records, in timeline order.
pub fn replay_person(timeline: &Vec<TimelineEntry>, start: u64, end: u64) -> (deltas: Vec<u64>)
    ensures
        deltas@ == spec_replay_deltas(initial_state(), timeline@, start, end),
{
    let mut s = ReplayState { dropped: false, pivot: None };
    let mut deltas: Vec<u64> = Vec::new();
    let n = timeline.len();
    proof {
        assert(timeline@.skip(0) =~= timeline@);
    }
    for i in 0..n
        invariant
            n == timeline.len(),
            deltas@ + spec_replay_deltas(s, timeline@.skip(i as int), start, end)
                == spec_replay_deltas(initial_state(), timeline@, start, end),
    {
        proof {
            assert(timeline@.skip(i as int)[0] == timeline@[i as int]);
            assert(timeline@.skip(i as int).drop_first() =~= timeline@.skip(i + 1));
        }
        let ghost tail = spec_replay_deltas(s, timeline@.skip(i as int), start, end);
        let (s2, rec) = step(s, &timeline[i], start, end);
        let ghost tail2 = spec_replay_deltas(s2, timeline@.skip(i + 1), start, end);
        s = s2;
        match rec {
            Some(d) => {
                proof {
                    assert(tail =~= seq![d] + tail2);
                    assert(deltas@.push(d) + tail2 =~= deltas@ + tail);
                }
                deltas.push(d);
            },
            None => {
                proof {
                    assert(tail == tail2);
                }
            },
        }
    }
    proof {
        assert(timeline@.skip(n as int) =~= Seq::<TimelineEntry>::empty());
        assert(deltas@ + Seq::<u64>::empty() =~= deltas@);
    }
    deltas
}

/// The qualifying intervals observed within one area.
#[derive(Debug, Clone)]
pub struct AreaIntervals {
    pub area: String,
    pub intervals: Vec<u64>,
}

/// The qualifying intervals of a whole population: one flat list, and
/// one list per area that contributed at least one interval.
#[derive(Debug, Clone)]
pub struct IntervalStats {
    pub all: Vec<u64>,
    pub areas: Vec<AreaIntervals>,
}

/// Index of the entry recording intervals for `name`, if one exists.
fn find_area(areas: &Vec<AreaIntervals>, name: &String) -> (r: Option<usize>)
    ensures
        match r {
            Some(k) => k < areas@.len() && areas@[k as int].area@ == name@,
            None => forall|k: int| 0 <= k < areas@.len() ==> areas@[k].area@ != name@,
        },
{
    let n = areas.len();
    for j in 0..n
        invariant
            n == areas.len(),
            forall|k: int| 0 <= k < j ==> areas@[k].area@ != name@,
    {
        if areas[j].area == *name {
            return Some(j);
        }
    }
    None
}

/// Appends every element of `src` to `dst`, in order.
fn append_all(dst: &mut Vec<u64>, src: &Vec<u64>)
    ensures
        final(dst)@ == old(dst)@ + src@,
{
    let n = src.len();
    proof {
        assert(dst@ + src@.take(0) =~= dst@);
    }
    for j in 0..n
        invariant
            n == src.len(),
            dst@ == old(dst)@ + src@.take(j as int),
    {
        dst.push(src[j]);
        proof {
            assert(src@.take(j + 1) =~= src@.take(j as int).push(src@[j as int]));
            assert(old(dst)@ + src@.take(j + 1) =~= (old(dst)@ + src@.take(j as int)).push(
                src@[j as int],
            ));
        }
    }
    proof {
        assert(src@.take(n as int) =~= src@);
    }
}

/// How one more person changes the per-area interval list.
proof fn lemma_area_deltas_snoc(people: Seq<Person>, i: int, area: Seq<char>, start: u64, end: u64)
    requires
        0 <= i < people.len(),
    ensures
        people[i].area@ == area ==> spec_area_deltas(people.take(i + 1), area, start, end)
            == spec_area_deltas(people.take(i), area, start, end) + spec_person_deltas(
            people[i],
            start,
            end,
        ),
        people[i].area@ != area ==> spec_area_deltas(people.take(i + 1), area, start, end)
            == spec_area_deltas(people.take(i), area, start, end),
{
    assert(people.take(i + 1).drop_last() =~= people.take(i));
    assert(people.take(i + 1).last() == people[i]);
    if people[i].area@ != area {
        assert(spec_area_deltas(people.take(i), area, start, end) + Seq::<u64>::empty()
            =~= spec_area_deltas(people.take(i), area, start, end));
    }
}

/// How one more person changes the flat interval list.
proof fn lemma_all_deltas_snoc(people: Seq<Person>, i: int, start: u64, end: u64)
    requires
        0 <= i < people.len(),
    ensures
        spec_all_deltas(people.take(i + 1), start, end) == spec_all_deltas(
            people.take(i),
            start,
            end,
        ) + spec_person_deltas(people[i], start, end),
{
    assert(people.take(i + 1).drop_last() =~= people.take(i));
    assert(people.take(i + 1).last() == people[i]);
}

/// Any area interval comes from some person of that area: if an area's
/// interval list over a prefix of the population is non-empty, a person
/// in that prefix with that area contributed a non-empty delta list.
proof fn lemma_area_deltas_from_person(people: Seq<Person>, m: int, a: Seq<char>, start: u64, end: u64)
    requires
        0 <= m <= people.len(),
        spec_area_deltas(people.take(m), a, start, end).len() > 0,
    ensures
        exists|j: int|
            0 <= j < m && (#[trigger] spec_person_deltas(people[j], start, end)).len() > 0
                && people[j].area@ == a,
    decreases m,
{
    assert(m > 0);
    assert(people.take(m).drop_last() =~= people.take(m - 1));
    assert(people.take(m).last() == people[m - 1]);
    if people[m - 1].area@ == a && spec_person_deltas(people[m - 1], start, end).len() > 0 {
        assert(0 <= m - 1 < m && spec_person_deltas(people[m - 1], start, end).len() > 0
            && people[m - 1].area@ == a);
    } else {
        lemma_area_deltas_from_person(people, m - 1, a, start, end);
        let j = choose|j: int|
            0 <= j < m - 1 && (#[trigger] spec_person_deltas(people[j], start, end)).len() > 0
                && people[j].area@ == a;
        assert(0 <= j < m && spec_person_deltas(people[j], start, end).len() > 0
            && people[j].area@ == a);
    }
}

/// Replays every person's timeline over the inclusive window
/// `[start, end]` and collects every qualifying interval: once into one
/// flat list, and once into the list of the person's area. An area
/// appears exactly when it contributed at least one interval.
pub fn collect_intervals(people: &Vec<Person>, start: u64, end: u64) -> (r: IntervalStats)
    requires
        start <= end,
    ensures
        r.all@ == spec_all_deltas(people@, start, end),
        forall|k1: int, k2: int|
            0 <= k1 < k2 < r.areas@.len() ==> r.areas@[k1].area@ != r.areas@[k2].area@,
        forall|k: int|
            0 <= k < r.areas@.len() ==> #[trigger] r.areas@[k].intervals@ == spec_area_deltas(
                people@,
                r.areas@[k].area@,
                start,
                end,
            ) && r.areas@[k].intervals@.len() > 0,
        forall|a: Seq<char>| #![trigger spec_area_deltas(people@, a, start, end)]
            spec_area_deltas(people@, a, start, end).len() > 0 ==> exists|k: int|
                0 <= k < r.areas@.len() && #[trigger] r.areas@[k].area@ == a,
{
    let mut all: Vec<u64> = Vec::new();
    let mut areas: Vec<AreaIntervals> = Vec::new();
    let ghost mut where_of: Map<Seq<char>, int> = Map::empty();
    let n = people.len();
    proof {
        assert(people@.take(0) =~= Seq::<Person>::empty());
    }
    for i in 0..n
        invariant
            n == people.len(),
            all@ == spec_all_deltas(people@.take(i as int), start, end),
            forall|k1: int, k2: int|
                0 <= k1 < k2 < areas@.len() ==> areas@[k1].area@ != areas@[k2].area@,
            forall|k: int|
                0 <= k < areas@.len() ==> #[trigger] areas@[k].intervals@ == spec_area_deltas(
                    people@.take(i as int),
                    areas@[k].area@,
                    start,
                    end,
                ) && areas@[k].intervals@.len() > 0,
            forall|j: int|
                0 <= j < i && (#[trigger] spec_person_deltas(people@[j], start, end)).len() > 0
                    ==> where_of.contains_key(people@[j].area@) && 0 <= where_of[people@[j].area@]
                    < areas@.len() && areas@[where_of[people@[j].area@]].area@ == people@[j].area@,
    {
        let ghost cur = people@[i as int];
        let ghost pds = spec_person_deltas(cur, start, end);
        let ds = replay_person(&people[i].timeline, start, end);
        proof {
            assert(pds == ds@);
            lemma_all_deltas_snoc(people@, i as int, start, end);
        }
        append_all(&mut all, &ds);
        let ghost prev_areas = areas@;
        if ds.len() > 0 {
            match find_area(&areas, &people[i].area) {
                Some(k) => {
                    let ghost k0 = k as int;
                    let mut entry = areas.remove(k);
                    append_all(&mut entry.intervals, &ds);
                    let ghost ne = entry;
                    areas.insert(k, entry);
                    proof {
                        where_of = where_of.insert(cur.area@, k0);
                        assert(areas@ =~= prev_areas.update(k0, ne));
                        assert(ne.area@ == cur.area@);
                        assert(ne.intervals@ == prev_areas[k0].intervals@ + pds);
                        assert forall|k2: int|
                            0 <= k2 < areas@.len() implies #[trigger] areas@[k2].area@
                            == prev_areas[k2].area@ by {}
                        assert forall|k2: int|
                            0 <= k2 < areas@.len() implies #[trigger] areas@[k2].intervals@
                            == spec_area_deltas(people@.take(i + 1), areas@[k2].area@, start, end)
                            && areas@[k2].intervals@.len() > 0 by {
                            lemma_area_deltas_snoc(people@, i as int, areas@[k2].area@, start, end);
                            if k2 != k0 {
                                assert(areas@[k2] == prev_areas[k2]);
                                assert(prev_areas[k2].area@ != cur.area@);
                            }
                        }
                        assert forall|j: int|
                            0 <= j < i + 1 && (#[trigger] spec_person_deltas(
                                people@[j],
                                start,
                                end,
                            )).len() > 0 implies where_of.contains_key(people@[j].area@) && 0
                            <= where_of[people@[j].area@] < areas@.len()
                            && areas@[where_of[people@[j].area@]].area@ == people@[j].area@ by {
                            if people@[j].area@ == cur.area@ {
                                assert(where_of[people@[j].area@] == k0);
                                assert(areas@[k0].area@ == cur.area@);
                            }
                        }
                    }
                },
                None => {
                    let area_name = people[i].area.clone();
                    areas.push(AreaIntervals { area: area_name, intervals: ds });
                    proof {
                        let ghost last = prev_areas.len() as int;
                        assert(areas@[last].area@ == cur.area@);
                        assert(areas@[last].intervals@ == pds);
                        if spec_area_deltas(people@.take(i as int), cur.area@, start, end).len()
                            > 0 {
                            lemma_area_deltas_from_person(people@, i as int, cur.area@, start, end);
                            let jw = choose|j: int|
                                0 <= j < i && (#[trigger] spec_person_deltas(
                                    people@[j],
                                    start,
                                    end,
                                )).len() > 0 && people@[j].area@ == cur.area@;
                            let ghost w = where_of[people@[jw].area@];
                            assert(prev_areas[w].area@ == cur.area@);
                            assert(false);
                        }
                        assert(spec_area_deltas(people@.take(i as int), cur.area@, start, end)
                            =~= Seq::<u64>::empty());
                        where_of = where_of.insert(cur.area@, last);
                        assert forall|k2: int|
                            0 <= k2 < areas@.len() implies #[trigger] areas@[k2].intervals@
                            == spec_area_deltas(people@.take(i + 1), areas@[k2].area@, start, end)
                            && areas@[k2].intervals@.len() > 0 by {
                            lemma_area_deltas_snoc(people@, i as int, areas@[k2].area@, start, end);
                            if k2 != last {
                                assert(areas@[k2] == prev_areas[k2]);
                                assert(prev_areas[k2].area@ != cur.area@);
                            } else {
                                assert(Seq::<u64>::empty() + pds =~= pds);
                            }
                        }
                        assert forall|j: int|
                            0 <= j < i + 1 && (#[trigger] spec_person_deltas(
                                people@[j],
                                start,
                                end,
                            )).len() > 0 implies where_of.contains_key(people@[j].area@) && 0
                            <= where_of[people@[j].area@] < areas@.len()
                            && areas@[where_of[people@[j].area@]].area@ == people@[j].area@ by {
                            if people@[j].area@ == cur.area@ {
                                assert(where_of[people@[j].area@] == last);
                                assert(areas@[last].area@ == cur.area@);
                            } else {
                                if j < i {
                                    assert(0 <= where_of[people@[j].area@] < prev_areas.len());
                                    assert(areas@[where_of[people@[j].area@]]
                                        == prev_areas[where_of[people@[j].area@]]);
                                }
                            }
                        }
                    }
                },
            }
        } else {
            proof {
                assert(areas@ == prev_areas);
                assert forall|k2: int|
                    0 <= k2 < areas@.len() implies #[trigger] areas@[k2].intervals@
                    == spec_area_deltas(people@.take(i + 1), areas@[k2].area@, start, end)
                    && areas@[k2].intervals@.len() > 0 by {
                    lemma_area_deltas_snoc(people@, i as int, areas@[k2].area@, start, end);
                    if areas@[k2].area@ == cur.area@ {
                        assert(spec_area_deltas(people@.take(i as int), cur.area@, start, end) + pds
                            =~= spec_area_deltas(people@.take(i as int), cur.area@, start, end));
                    }
                }
            }
        }
    }
    let r = IntervalStats { all, areas };
    proof {
        assert(people@.take(n as int) =~= people@);
        assert forall|a: Seq<char>| #![trigger spec_area_deltas(people@, a, start, end)]
            spec_area_deltas(people@, a, start, end).len() > 0 implies exists|k: int|
            0 <= k < r.areas@.len() && #[trigger] r.areas@[k].area@ == a by {
            lemma_area_deltas_from_person(people@, n as int, a, start, end);
            let jw = choose|j: int|
                0 <= j < n && (#[trigger] spec_person_deltas(people@[j], start, end)).len() > 0
                    && people@[j].area@ == a;
            assert(r.areas@[where_of[people@[jw].area@]].area@ == a);
        }
    }
    r
}

/// Mathematical sum of a list of intervals.
pub open spec fn spec_sum(s: Seq<u64>) -> int
    decreases s.len(),
{
    if s.len() == 0 {
        0
    } else {
        spec_sum(s.drop_last()) + s.last()
    }
}

/// Sums a list of intervals; the sum of fewer than 2^64 values each
/// below 2^64 always fits in a u128.
pub fn sum_intervals(v: &Vec<u64>) -> (s: u128)
    ensures
        s == spec_sum(v@),
{
    let mut s: u128 = 0;
    let n = v.len();
    proof {
        assert(v@.take(0) =~= Seq::<u64>::empty());
    }
    for i in 0..n
        invariant
            n == v.len(),
            s == spec_sum(v@.take(i as int)),
            s <= i * 0xffff_ffff_ffff_ffffu64,
    {
        proof {
            assert(v@.take(i + 1).drop_last() =~= v@.take(i as int));
            assert(v@.take(i + 1).last() == v@[i as int]);
            assert(i * 0xffff_ffff_ffff_ffffu64 <= 0xffff_ffff_ffff_ffffu64
                * 0xffff_ffff_ffff_ffffu64) by (nonlinear_arith)
                requires
                    0 <= i <= 0xffff_ffff_ffff_ffffu64,
            ;
        }
        s = s + v[i] as u128;
    }
    proof {
        assert(v@.take(n as int) =~= v@);
    }
    s
}

/// The mean of a list of intervals as an exact sum/count pair, or
/// `None` when there is no data; a population with no qualifying
/// intervals is never reported as a mean of zero.
pub fn interval_mean_parts(v: &Vec<u64>) -> (r: Option<(u128, usize)>)
    ensures
        r is Some <==> v@.len() > 0,
        r is Some ==> (r->0).0 == spec_sum(v@) && (r->0).1 == v@.len(),
{
    if v.len() == 0 {
        None
    } else {
        Some((sum_intervals(v), v.len()))
    }
}

/// Two consecutive in-window contact events record an interval exactly
/// when their gap strictly exceeds the minimum qualifying gap: a gap of
/// exactly `MIN_TIME` records nothing, one of `MIN_TIME + 1` records
/// the gap.
pub proof fn lemma_min_gap_strict(e1: TimelineEntry, e2: TimelineEntry, start: u64, end: u64)
    requires
        e1.kind is Event,
        e2.kind is Event,
        start <= e1.time <= end,
        start <= e2.time <= end,
        e1.time <= e2.time,
    ensures
        e2.time - e1.time <= MIN_TIME ==> spec_replay_deltas(
            initial_state(),
            seq![e1, e2],
            start,
            end,
        ) == Seq::<u64>::empty(),
        e2.time - e1.time > MIN_TIME ==> spec_replay_deltas(
            initial_state(),
            seq![e1, e2],
            start,
            end,
        ) == seq![(e2.time - e1.time) as u64],
{
    let t = seq![e1, e2];
    let s1 = spec_step(initial_state(), e1, start, end).0;
    assert(spec_step(initial_state(), e1, start, end).1 is None);
    assert(t.drop_first() =~= seq![e2]);
    assert(spec_replay_deltas(initial_state(), t, start, end) == spec_replay_deltas(
        s1,
        seq![e2],
        start,
        end,
    ));
    let sr2 = spec_step(s1, e2, start, end);
    assert(seq![e2].drop_first() =~= Seq::<TimelineEntry>::empty());
    assert(spec_replay_deltas(sr2.0, Seq::<TimelineEntry>::empty(), start, end)
        == Seq::<u64>::empty());
    if e2.time - e1.time > MIN_TIME {
        assert(sr2.1 == Some((e2.time - e1.time) as u64));
        assert(seq![(e2.time - e1.time) as u64] + Seq::<u64>::empty() =~= seq![(e2.time
            - e1.time) as u64]);
    } else {
        assert(sr2.1 is None);
    }
}

/// A contact event seen while dropped is inert: it changes no state and
/// records no interval, so it can never become a pivot, not even after
/// a later reset.
pub proof fn lemma_dropped_event_inert(s: ReplayState, e: TimelineEntry, start: u64, end: u64)
    requires
        s.dropped,
        e.kind is Event,
    ensures
        spec_step(s, e, start, end) == (s, None::<u64>),
{
}

/// A reset clears the pivot, so the first contact event after a reset
/// never forms an interval with any earlier event: it records nothing
/// and only installs itself as the new pivot.
pub proof fn lemma_reset_clears_pivot(s: ReplayState, r: TimelineEntry, e: TimelineEntry, start: u64, end: u64)
    requires
        r.kind is Reset,
        e.kind is Event,
    ensures
        spec_step(s, r, start, end).0.pivot is None,
        spec_step(spec_step(s, r, start, end).0, e, start, end).1 is None,
{
}

/// A contact event outside the inclusive window is inert: it neither
/// becomes the pivot nor records an interval.
pub proof fn lemma_out_of_window_inert(s: ReplayState, e: TimelineEntry, start: u64, end: u64)
    requires
        e.kind is Event,
        e.time < start || e.time > end,
    ensures
        spec_step(s, e, start, end) == (s, None::<u64>),
{
}

} // verus!
