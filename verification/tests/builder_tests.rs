use areabook::builder::build_people;
use areabook::timeline::{
    BatchError, CommandsResponse, Contact, Drop, Event, PersonEvent, Reset, SacramentAttendance,
    TimelineEventKind,
};

fn contact(id: &str, status: u32, first: Option<&str>, last: Option<&str>) -> Contact {
    Contact {
        id: id.to_string(),
        household_id: "h1".to_string(),
        status,
        created_by: None,
        first_name: first.map(|s| s.to_string()),
        last_name: last.map(|s| s.to_string()),
        gender: None,
        note: None,
        phone_mobile: None,
        phone_work: None,
        phone_mobile_textable: None,
        age_category: None,
        affirmed_interest_expiration_date: 0,
        last_event_date: None,
        last_happened_event_date: None,
        contact_source: 0,
        last_taught_date: None,
        create_date: 0,
        preferred_language_id: Some(3),
        visibility_type_id: 0,
        owner_status: 0,
        pros_area_id: None,
        last_reassigned_date: None,
        found_by_person_id: None,
        membership_creation_date: None,
    }
}

fn event(id: &str, start_time: Option<u64>, report: Option<&str>) -> Event {
    Event {
        id: id.to_string(),
        modified_by: None,
        start_time,
        end_time: None,
        event_type: 1,
        subject: None,
        report: report.map(|s| s.to_string()),
        contact_type_id: None,
        creation_date: None,
        updated_date: None,
        lesson_yn: 0,
        owner_yn: 0,
        member_present_yn: 0,
    }
}

fn link(id: &str, event_id: &str, person_id: &str) -> PersonEvent {
    PersonEvent {
        id: id.to_string(),
        person_id: person_id.to_string(),
        event_id: event_id.to_string(),
    }
}

fn batch(area: &str) -> CommandsResponse {
    CommandsResponse {
        person_events: Vec::new(),
        events: Vec::new(),
        person_drops: Vec::new(),
        person_resets: Vec::new(),
        sacrament_attendance: Vec::new(),
        contacts: Vec::new(),
        pros_area_name: area.to_string(),
    }
}

#[test]
fn member_contacts_produce_no_person() {
    let mut b = batch("Alpha");
    b.contacts.push(contact("p1", 40, Some("Member"), Some("One")));
    b.contacts.push(contact("p2", 10, Some("Tracked"), Some("Two")));
    let people = build_people(&b).unwrap();
    assert_eq!(people.len(), 1);
    assert_eq!(people[0].name, "TrackedTwo");
    assert_eq!(people[0].language, Some(3));
    assert_eq!(people[0].area, "Alpha");
}

#[test]
fn missing_name_parts_become_empty() {
    let mut b = batch("Alpha");
    b.contacts.push(contact("p1", 10, None, Some("Only")));
    let people = build_people(&b).unwrap();
    assert_eq!(people[0].name, "Only");
}

#[test]
fn event_without_start_time_is_discarded() {
    let mut b = batch("Alpha");
    b.contacts.push(contact("p1", 10, Some("A"), None));
    b.events.push(event("e1", None, Some("unplaceable")));
    b.person_events.push(link("l1", "e1", "p1"));
    let people = build_people(&b).unwrap();
    assert_eq!(people.len(), 1);
    assert!(people[0].timeline.is_empty());
}

#[test]
fn timeline_is_sorted_by_time() {
    let mut b = batch("Alpha");
    b.contacts.push(contact("p1", 10, Some("A"), None));
    b.events.push(event("e1", Some(5_000), Some("later")));
    b.events.push(event("e2", Some(1_000), Some("earlier")));
    b.person_events.push(link("l1", "e1", "p1"));
    b.person_events.push(link("l2", "e2", "p1"));
    b.person_drops.push(Drop {
        id: "d1".to_string(),
        person_id: "p1".to_string(),
        drop_date: 3_000,
        note: None,
        created_by: Some("elder".to_string()),
        status: 1,
    });
    b.person_resets.push(Reset {
        id: "r1".to_string(),
        person_id: "p1".to_string(),
        reset_date: 2_000,
        created_by: None,
    });
    let people = build_people(&b).unwrap();
    assert_eq!(people.len(), 1);
    let t = &people[0].timeline;
    assert_eq!(t.len(), 4);
    for w in t.windows(2) {
        assert!(w[0].time <= w[1].time);
    }
    assert_eq!(t[0].time, 1_000);
    assert_eq!(t[0].kind, TimelineEventKind::Event);
    assert_eq!(t[0].details, "earlier");
    assert_eq!(t[1].time, 2_000);
    assert_eq!(t[1].kind, TimelineEventKind::Reset);
    assert_eq!(t[2].time, 3_000);
    assert_eq!(t[2].kind, TimelineEventKind::Drop);
    assert_eq!(t[2].details, "elder");
    assert_eq!(t[3].time, 5_000);
}

#[test]
fn unresolved_references_are_silently_dropped() {
    let mut b = batch("Alpha");
    b.contacts.push(contact("p1", 10, Some("A"), None));
    // Event linked to an unknown person, event with no link at all,
    // drop and reset for unknown persons: all ignored, no failure.
    b.events.push(event("e1", Some(1_000), None));
    b.events.push(event("e2", Some(2_000), None));
    b.person_events.push(link("l1", "e1", "ghost"));
    b.person_drops.push(Drop {
        id: "d1".to_string(),
        person_id: "ghost".to_string(),
        drop_date: 1,
        note: None,
        created_by: None,
        status: 1,
    });
    b.person_resets.push(Reset {
        id: "r1".to_string(),
        person_id: "ghost".to_string(),
        reset_date: 2,
        created_by: None,
    });
    let people = build_people(&b).unwrap();
    assert_eq!(people.len(), 1);
    assert!(people[0].timeline.is_empty());
}

#[test]
fn repeated_contact_id_replaces_earlier_person() {
    let mut b = batch("Alpha");
    b.contacts.push(contact("p1", 10, Some("Old"), None));
    b.contacts.push(contact("p1", 20, Some("New"), None));
    let people = build_people(&b).unwrap();
    assert_eq!(people.len(), 1);
    assert_eq!(people[0].name, "New");
}

#[test]
fn sacrament_record_becomes_reset_entry_in_milliseconds() {
    // A sacrament record resolves through the event-link lookup and is
    // tagged as a reset, mirroring the feed; its date lands at UTC
    // midnight in unix milliseconds, one unit for the whole timeline.
    let mut b = batch("Alpha");
    b.contacts.push(contact("p1", 10, Some("A"), None));
    b.person_events.push(link("l1", "s1", "p1"));
    b.sacrament_attendance.push(SacramentAttendance {
        id: "s1".to_string(),
        person_id: "p1".to_string(),
        date: "2024-01-01".to_string(),
    });
    let people = build_people(&b).unwrap();
    assert_eq!(people.len(), 1);
    assert_eq!(people[0].timeline.len(), 1);
    assert_eq!(people[0].timeline[0].kind, TimelineEventKind::Reset);
    assert_eq!(people[0].timeline[0].time, 1_704_067_200_000);
    assert_eq!(people[0].timeline[0].details, "");
}

#[test]
fn malformed_sacrament_date_fails_the_batch() {
    let mut b = batch("Alpha");
    b.contacts.push(contact("p1", 10, Some("A"), None));
    b.sacrament_attendance.push(SacramentAttendance {
        id: "s1".to_string(),
        person_id: "p1".to_string(),
        date: "not-a-date".to_string(),
    });
    assert!(matches!(
        build_people(&b),
        Err(BatchError::InvalidSacramentDate)
    ));
}

#[test]
fn same_person_id_in_two_areas_stays_separate() {
    // Areas are the aggregation boundary: the same identifier under
    // two area batches yields two independent persons.
    let mut a = batch("Alpha");
    a.contacts.push(contact("p1", 10, Some("A"), None));
    let mut b = batch("Beta");
    b.contacts.push(contact("p1", 10, Some("A"), None));
    let mut people = build_people(&a).unwrap();
    people.append(&mut build_people(&b).unwrap());
    assert_eq!(people.len(), 2);
    assert_eq!(people[0].area, "Alpha");
    assert_eq!(people[1].area, "Beta");
}

#[test]
fn built_batch_feeds_the_stats_engine() {
    // End to end: a batch with two linked events 50,000,000 ms apart
    // yields one person whose replay records exactly that interval
    // under the person's area.
    let mut b = batch("Alpha");
    b.contacts.push(contact("p1", 10, Some("A"), Some("B")));
    b.events.push(event("e1", Some(0), None));
    b.events.push(event("e2", Some(50_000_000), None));
    b.person_events.push(link("l1", "e1", "p1"));
    b.person_events.push(link("l2", "e2", "p1"));
    let people = build_people(&b).unwrap();
    let stats = areabook::stats::collect_intervals(&people, 0, 100_000_000);
    assert_eq!(stats.all, vec![50_000_000]);
    assert_eq!(stats.areas.len(), 1);
    assert_eq!(stats.areas[0].area, "Alpha");
    let (sum, count) = areabook::stats::interval_mean_parts(&stats.areas[0].intervals).unwrap();
    assert_eq!(sum, 50_000_000);
    assert_eq!(count, 1);
}

#[test]
fn duplicate_event_link_takes_the_last() {
    let mut b = batch("Alpha");
    b.contacts.push(contact("p1", 10, Some("A"), None));
    b.contacts.push(contact("p2", 10, Some("B"), None));
    b.events.push(event("e1", Some(1_000), None));
    b.person_events.push(link("l1", "e1", "p1"));
    b.person_events.push(link("l2", "e1", "p2"));
    let people = build_people(&b).unwrap();
    assert_eq!(people.len(), 2);
    assert!(people[0].timeline.is_empty());
    assert_eq!(people[1].timeline.len(), 1);
}
