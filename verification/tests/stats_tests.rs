use areabook::stats::{collect_intervals, interval_mean_parts, replay_person, MIN_TIME};
use areabook::timeline::{Person, TimelineEntry, TimelineEventKind};

fn entry(time: u64, kind: TimelineEventKind) -> TimelineEntry {
    TimelineEntry {
        time,
        details: String::new(),
        kind,
    }
}

fn person(area: &str, timeline: Vec<TimelineEntry>) -> Person {
    Person {
        name: "Test Person".to_string(),
        language: None,
        area: area.to_string(),
        timeline,
    }
}

#[test]
fn one_qualifying_interval_recorded() {
    // Events at t=0 and t=50,000,000 within [0, 100,000,000]: the gap
    // 50,000,000 exceeds 43,200,000, so exactly one interval is kept.
    let p = person(
        "Alpha",
        vec![
            entry(0, TimelineEventKind::Event),
            entry(50_000_000, TimelineEventKind::Event),
        ],
    );
    let stats = collect_intervals(&vec![p], 0, 100_000_000);
    assert_eq!(stats.all, vec![50_000_000]);
    assert_eq!(stats.areas.len(), 1);
    assert_eq!(stats.areas[0].area, "Alpha");
    assert_eq!(stats.areas[0].intervals, vec![50_000_000]);
}

#[test]
fn short_gap_advances_pivot_without_interval() {
    // Events at t=0 and t=10,000,000: gap below the threshold, so no
    // interval, though the pivot still advances.
    let p = person(
        "Alpha",
        vec![
            entry(0, TimelineEventKind::Event),
            entry(10_000_000, TimelineEventKind::Event),
        ],
    );
    let stats = collect_intervals(&vec![p], 0, 100_000_000);
    assert!(stats.all.is_empty());
    assert!(stats.areas.is_empty());

    // The advanced pivot is observable: a third event 43,200,001 ms
    // after the second records an interval measured from the second.
    let p2 = person(
        "Alpha",
        vec![
            entry(0, TimelineEventKind::Event),
            entry(10_000_000, TimelineEventKind::Event),
            entry(10_000_000 + MIN_TIME + 1, TimelineEventKind::Event),
        ],
    );
    let stats2 = collect_intervals(&vec![p2], 0, 100_000_000);
    assert_eq!(stats2.all, vec![MIN_TIME + 1]);
}

#[test]
fn drop_then_reset_records_nothing() {
    // Events at t=0, Drop at 5,000,000, event at 60,000,000 (ignored:
    // dropped), Reset at 61,000,000 (clears the pivot), event at
    // 120,000,000: no interval anywhere.
    let p = person(
        "Alpha",
        vec![
            entry(0, TimelineEventKind::Event),
            entry(5_000_000, TimelineEventKind::Drop),
            entry(60_000_000, TimelineEventKind::Event),
            entry(61_000_000, TimelineEventKind::Reset),
            entry(120_000_000, TimelineEventKind::Event),
        ],
    );
    let stats = collect_intervals(&vec![p], 0, 200_000_000);
    assert!(stats.all.is_empty());
    assert!(stats.areas.is_empty());
}

#[test]
fn exact_minimum_gap_does_not_qualify() {
    // A gap of exactly 43,200,000 ms records nothing; one more
    // millisecond records the gap.
    let deltas = replay_person(
        &vec![
            entry(0, TimelineEventKind::Event),
            entry(MIN_TIME, TimelineEventKind::Event),
        ],
        0,
        100_000_000,
    );
    assert!(deltas.is_empty());

    let deltas = replay_person(
        &vec![
            entry(0, TimelineEventKind::Event),
            entry(MIN_TIME + 1, TimelineEventKind::Event),
        ],
        0,
        100_000_000,
    );
    assert_eq!(deltas, vec![MIN_TIME + 1]);
}

#[test]
fn dropped_event_never_contributes() {
    // An event seen while dropped stays inert even after the next
    // reset: it never becomes a pivot.
    let deltas = replay_person(
        &vec![
            entry(1_000, TimelineEventKind::Drop),
            entry(10_000_000, TimelineEventKind::Event),
            entry(20_000_000, TimelineEventKind::Reset),
            entry(120_000_000, TimelineEventKind::Event),
        ],
        0,
        200_000_000,
    );
    assert!(deltas.is_empty());
}

#[test]
fn out_of_window_events_are_inert() {
    // An event before the window neither pivots nor records; the
    // following in-window events behave as if it never happened.
    let deltas = replay_person(
        &vec![
            entry(50, TimelineEventKind::Event),
            entry(100_000_000, TimelineEventKind::Event),
            entry(200_000_000, TimelineEventKind::Event),
        ],
        100_000_000,
        300_000_000,
    );
    assert_eq!(deltas, vec![100_000_000]);

    // An event after the window is just as inert.
    let deltas = replay_person(
        &vec![
            entry(100_000_000, TimelineEventKind::Event),
            entry(400_000_000, TimelineEventKind::Event),
        ],
        100_000_000,
        300_000_000,
    );
    assert!(deltas.is_empty());
}

#[test]
fn intervals_are_grouped_by_area() {
    let a = person(
        "Alpha",
        vec![
            entry(0, TimelineEventKind::Event),
            entry(50_000_000, TimelineEventKind::Event),
        ],
    );
    let b = person(
        "Beta",
        vec![
            entry(0, TimelineEventKind::Event),
            entry(60_000_000, TimelineEventKind::Event),
        ],
    );
    let a2 = person(
        "Alpha",
        vec![
            entry(0, TimelineEventKind::Event),
            entry(70_000_000, TimelineEventKind::Event),
        ],
    );
    let stats = collect_intervals(&vec![a, b, a2], 0, 100_000_000);
    assert_eq!(stats.all, vec![50_000_000, 60_000_000, 70_000_000]);
    assert_eq!(stats.areas.len(), 2);
    assert_eq!(stats.areas[0].area, "Alpha");
    assert_eq!(stats.areas[0].intervals, vec![50_000_000, 70_000_000]);
    assert_eq!(stats.areas[1].area, "Beta");
    assert_eq!(stats.areas[1].intervals, vec![60_000_000]);
}

#[test]
fn no_data_is_not_a_zero_mean() {
    // A population with no qualifying interval reports "no data", not
    // a mean of zero.
    assert_eq!(interval_mean_parts(&Vec::new()), None);
    let parts = interval_mean_parts(&vec![50_000_000, 70_000_000]).unwrap();
    assert_eq!(parts.0, 120_000_000u128);
    assert_eq!(parts.1, 2);
}

#[test]
fn huge_intervals_sum_without_overflow() {
    let p = person(
        "Alpha",
        vec![
            entry(0, TimelineEventKind::Event),
            entry(u64::MAX, TimelineEventKind::Event),
        ],
    );
    let stats = collect_intervals(&vec![p.clone(), p], 0, u64::MAX);
    assert_eq!(stats.all, vec![u64::MAX, u64::MAX]);
    let (sum, count) = interval_mean_parts(&stats.all).unwrap();
    assert_eq!(sum, 2 * (u64::MAX as u128));
    assert_eq!(count, 2);
}

#[test]
fn window_bounds_are_inclusive() {
    // Events exactly at the window's start and end both count.
    let deltas = replay_person(
        &vec![
            entry(100_000_000, TimelineEventKind::Event),
            entry(200_000_000, TimelineEventKind::Event),
        ],
        100_000_000,
        200_000_000,
    );
    assert_eq!(deltas, vec![100_000_000]);
}

#[test]
fn sacrament_entries_have_no_effect() {
    let deltas = replay_person(
        &vec![
            entry(0, TimelineEventKind::Event),
            entry(10_000, TimelineEventKind::Sacrament),
            entry(50_000_000, TimelineEventKind::Event),
        ],
        0,
        100_000_000,
    );
    assert_eq!(deltas, vec![50_000_000]);
}
