//! Timeline construction: one area's raw record batch becomes a list
//! of tracked persons, each with a time-ordered timeline.
//!
//! The registry is keyed by person identifier; a later contact record
//! with the same identifier replaces the earlier one. Contact events,
//! drops, resets and sacrament records append entries to the person
//! they resolve to; records whose person cannot be resolved are
//! silently ignored. Sacrament records are tagged as resets, mirroring
//! the feed's observed behavior, and their calendar dates become unix
//! milliseconds (see `crate::date`); a malformed date fails the whole
//! batch.

use vstd::prelude::*;
use crate::date::spec_parse_date_millis;
use crate::date::parse_date_millis;
use crate::timeline::{
    BatchError,
    CommandsResponse,
    Contact,
    Drop,
    Event,
    Person,
    PersonEvent,
    Reset,
    SacramentAttendance,
    TimelineEntry,
    TimelineEventKind,
    sorted_by_time,
};
use vstd::seq_lib::to_multiset_remove;
use vstd::multiset::Multiset;

verus! {

/// Mathematical view of one timeline entry.
#[verifier::ext_equal]
pub struct EntryModel {
    pub time: u64,
    pub details: Seq<char>,
    pub kind: TimelineEventKind,
}

/// Mathematical view of one registry person: identifying fields plus
/// the bag of timeline entries, which the final sort orders by time.
#[verifier::ext_equal]
pub struct PersonModel {
    pub id: Seq<char>,
    pub name: Seq<char>,
    pub language: Option<u16>,
    pub area: Seq<char>,
    pub timeline: Multiset<EntryModel>,
}

pub open spec fn entry_model(e: TimelineEntry) -> EntryModel {
    EntryModel { time: e.time, details: e.details@, kind: e.kind }
}

pub open spec fn opt_str_view(o: Option<String>) -> Seq<char> {
    match o {
        Some(s) => s@,
        None => Seq::empty(),
    }
}

/// A person's display name: first and last name concatenated, with the
/// empty string for a missing part.
pub open spec fn contact_name(c: Contact) -> Seq<char> {
    opt_str_view(c.first_name) + opt_str_view(c.last_name)
}

/// The fresh registry person a contact record creates.
pub open spec fn contact_model(c: Contact, area: Seq<char>) -> PersonModel {
    PersonModel {
        id: c.id@,
        name: contact_name(c),
        language: c.preferred_language_id,
        area: area,
        timeline: Multiset::empty(),
    }
}

/// Index of the registry person with the given identifier, or -1.
pub open spec fn find_model(reg: Seq<PersonModel>, id: Seq<char>) -> int
    decreases reg.len(),
{
    if reg.len() == 0 {
        -1
    } else if reg[0].id == id {
        0
    } else {
        let r = find_model(reg.drop_first(), id);
        if r == -1 {
            -1
        } else {
            r + 1
        }
    }
}

/// The registry after scanning the contact records in order: member
/// records (status 40) are skipped, a repeated identifier replaces the
/// earlier person, any other record appends a fresh person.
pub open spec fn spec_registry(contacts: Seq<Contact>, area: Seq<char>) -> Seq<PersonModel>
    decreases contacts.len(),
{
    if contacts.len() == 0 {
        Seq::empty()
    } else {
        let prev = spec_registry(contacts.drop_last(), area);
        let c = contacts.last();
        if c.status == 40 {
            prev
        } else {
            let k = find_model(prev, c.id@);
            if k == -1 {
                prev.push(contact_model(c, area))
            } else {
                prev.update(k, contact_model(c, area))
            }
        }
    }
}

/// The person an event identifier resolves to, taking the last link
/// when an event identifier is linked more than once.
pub open spec fn spec_link_of(links: Seq<PersonEvent>, event_id: Seq<char>) -> Option<Seq<char>>
    decreases links.len(),
{
    if links.len() == 0 {
        None
    } else if links.last().event_id@ == event_id {
        Some(links.last().person_id@)
    } else {
        spec_link_of(links.drop_last(), event_id)
    }
}

/// Adds one entry to the timeline of the person with the given
/// identifier; a registry without that person is left unchanged.
pub open spec fn spec_add_entry(reg: Seq<PersonModel>, person_id: Seq<char>, e: EntryModel) -> Seq<
    PersonModel,
> {
    let k = find_model(reg, person_id);
    if k == -1 {
        reg
    } else {
        reg.update(
            k,
            PersonModel {
                id: reg[k].id,
                name: reg[k].name,
                language: reg[k].language,
                area: reg[k].area,
                timeline: reg[k].timeline.insert(e),
            },
        )
    }
}

/// The registry after appending every event that has a start time and
/// resolves to a registered person.
pub open spec fn spec_apply_events(
    reg: Seq<PersonModel>,
    events: Seq<Event>,
    links: Seq<PersonEvent>,
) -> Seq<PersonModel>
    decreases events.len(),
{
    if events.len() == 0 {
        reg
    } else {
        let prev = spec_apply_events(reg, events.drop_last(), links);
        let ev = events.last();
        match ev.start_time {
            Some(t) => match spec_link_of(links, ev.id@) {
                Some(pid) => spec_add_entry(
                    prev,
                    pid,
                    EntryModel {
                        time: t,
                        details: opt_str_view(ev.report),
                        kind: TimelineEventKind::Event,
                    },
                ),
                None => prev,
            },
            None => prev,
        }
    }
}

/// The registry after appending every drop record whose person exists.
pub open spec fn spec_apply_drops(reg: Seq<PersonModel>, drops: Seq<Drop>) -> Seq<PersonModel>
    decreases drops.len(),
{
    if drops.len() == 0 {
        reg
    } else {
        let prev = spec_apply_drops(reg, drops.drop_last());
        let d = drops.last();
        spec_add_entry(
            prev,
            d.person_id@,
            EntryModel {
                time: d.drop_date,
                details: opt_str_view(d.created_by),
                kind: TimelineEventKind::Drop,
            },
        )
    }
}

/// The registry after appending every reset record whose person exists.
pub open spec fn spec_apply_resets(reg: Seq<PersonModel>, resets: Seq<Reset>) -> Seq<PersonModel>
    decreases resets.len(),
{
    if resets.len() == 0 {
        reg
    } else {
        let prev = spec_apply_resets(reg, resets.drop_last());
        let rs = resets.last();
        spec_add_entry(
            prev,
            rs.person_id@,
            EntryModel {
                time: rs.reset_date,
                details: opt_str_view(rs.created_by),
                kind: TimelineEventKind::Reset,
            },
        )
    }
}

/// Every sacrament record's calendar date parses as an acceptable
/// `YYYY-MM-DD` day; one bad date fails the whole batch.
pub open spec fn spec_sacraments_ok(sacs: Seq<SacramentAttendance>) -> bool {
    forall|i: int| 0 <= i < sacs.len() ==> (#[trigger] spec_parse_date_millis(sacs[i].date@)) is Some
}

/// The registry after appending every sacrament record that resolves
/// through the event-identifier link lookup; the entry is tagged as a
/// reset with empty details, mirroring the feed's observed behavior.
pub open spec fn spec_apply_sacraments(
    reg: Seq<PersonModel>,
    sacs: Seq<SacramentAttendance>,
    links: Seq<PersonEvent>,
) -> Seq<PersonModel>
    decreases sacs.len(),
{
    if sacs.len() == 0 {
        reg
    } else {
        let prev = spec_apply_sacraments(reg, sacs.drop_last(), links);
        let sc = sacs.last();
        match spec_parse_date_millis(sc.date@) {
            Some(t) => match spec_link_of(links, sc.id@) {
                Some(pid) => spec_add_entry(
                    prev,
                    pid,
                    EntryModel { time: t, details: Seq::empty(), kind: TimelineEventKind::Reset },
                ),
                None => prev,
            },
            None => prev,
        }
    }
}

/// The fully built registry of one batch: the contact registry with all
/// event, drop, reset and sacrament entries appended.
pub open spec fn spec_build(res: CommandsResponse) -> Seq<PersonModel> {
    spec_apply_sacraments(
        spec_apply_resets(
            spec_apply_drops(
                spec_apply_events(
                    spec_registry(res.contacts@, res.pros_area_name@),
                    res.events@,
                    res.person_events@,
                ),
                res.person_drops@,
            ),
            res.person_resets@,
        ),
        res.sacrament_attendance@,
        res.person_events@,
    )
}

/// A registry person as the builder holds it: the identifier it is
/// keyed by, and the person being built.
pub struct PersonRecord {
    pub id: String,
    pub person: Person,
}

pub open spec fn record_model(r: PersonRecord) -> PersonModel {
    PersonModel {
        id: r.id@,
        name: r.person.name@,
        language: r.person.language,
        area: r.person.area@,
        timeline: r.person.timeline@.map_values(|e: TimelineEntry| entry_model(e)).to_multiset(),
    }
}

pub open spec fn reg_models(reg: Seq<PersonRecord>) -> Seq<PersonModel> {
    reg.map_values(|r: PersonRecord| record_model(r))
}

/// Every timeline in the registry is kept sorted while it is built.
pub open spec fn reg_wf(reg: Seq<PersonRecord>) -> bool {
    forall|k: int| 0 <= k < reg.len() ==> sorted_by_time(#[trigger] reg[k].person.timeline@)
}

/// A membership scan that found its identifier at index `k`, with no
/// earlier match, found the first occurrence.
proof fn lemma_find_model_is(reg: Seq<PersonModel>, id: Seq<char>, k: int)
    requires
        0 <= k < reg.len(),
        reg[k].id == id,
        forall|j: int| 0 <= j < k ==> reg[j].id != id,
    ensures
        find_model(reg, id) == k,
    decreases k,
{
    if k == 0 {
    } else {
        assert(reg[0].id != id);
        assert(reg.drop_first()[k - 1] == reg[k]);
        assert forall|j: int| 0 <= j < k - 1 implies reg.drop_first()[j].id != id by {
            assert(reg.drop_first()[j] == reg[j + 1]);
        }
        lemma_find_model_is(reg.drop_first(), id, k - 1);
    }
}

/// A membership scan that matched nowhere found nothing.
proof fn lemma_find_model_none(reg: Seq<PersonModel>, id: Seq<char>)
    requires
        forall|j: int| 0 <= j < reg.len() ==> reg[j].id != id,
    ensures
        find_model(reg, id) == -1,
    decreases reg.len(),
{
    if reg.len() == 0 {
    } else {
        assert forall|j: int| 0 <= j < reg.drop_first().len() implies reg.drop_first()[j].id
            != id by {
            assert(reg.drop_first()[j] == reg[j + 1]);
        }
        lemma_find_model_none(reg.drop_first(), id);
    }
}

/// Index of the registry record keyed by `id`, if one exists.
fn find_record(reg: &Vec<PersonRecord>, id: &String) -> (r: Option<usize>)
    ensures
        match r {
            Some(k) => 0 <= k < reg@.len() && find_model(reg_models(reg@), id@) == k as int,
            None => find_model(reg_models(reg@), id@) == -1,
        },
{
    let n = reg.len();
    for j in 0..n
        invariant
            n == reg.len(),
            forall|k: int| 0 <= k < j ==> reg@[k].id@ != id@,
    {
        if reg[j].id == *id {
            proof {
                assert(reg_models(reg@)[j as int].id == id@);
                assert forall|k: int| 0 <= k < j implies reg_models(reg@)[k].id != id@ by {
                    assert(reg_models(reg@)[k] == record_model(reg@[k]));
                }
                lemma_find_model_is(reg_models(reg@), id@, j as int);
            }
            return Some(j);
        }
    }
    proof {
        assert forall|k: int| 0 <= k < reg_models(reg@).len() implies reg_models(reg@)[k].id
            != id@ by {
            assert(reg_models(reg@)[k] == record_model(reg@[k]));
        }
        lemma_find_model_none(reg_models(reg@), id@);
    }
    None
}

/// Index of the last link for an event identifier, if one exists.
fn find_link(links: &Vec<PersonEvent>, event_id: &String) -> (r: Option<usize>)
    ensures
        match r {
            Some(k) => 0 <= k < links@.len() && spec_link_of(links@, event_id@) == Some(
                links@[k as int].person_id@,
            ),
            None => spec_link_of(links@, event_id@) is None,
        },
{
    let mut j = links.len();
    proof {
        assert(links@.take(links@.len() as int) =~= links@);
    }
    while j > 0
        invariant
            j <= links@.len(),
            spec_link_of(links@.take(j as int), event_id@) == spec_link_of(links@, event_id@),
        decreases j,
    {
        j = j - 1;
        proof {
            assert(links@.take(j + 1).last() == links@[j as int]);
            assert(links@.take(j + 1).drop_last() =~= links@.take(j as int));
        }
        if links[j].event_id == *event_id {
            return Some(j);
        }
    }
    None
}

/// Inserts one entry into a sorted timeline, keeping it sorted; the
/// bag of entries gains exactly this entry.
fn insert_sorted(timeline: &mut Vec<TimelineEntry>, e: TimelineEntry)
    requires
        sorted_by_time(old(timeline)@),
    ensures
        sorted_by_time(final(timeline)@),
        final(timeline)@.map_values(|x: TimelineEntry| entry_model(x)).to_multiset() == old(
            timeline,
        )@.map_values(|x: TimelineEntry| entry_model(x)).to_multiset().insert(entry_model(e)),
{
    let n = timeline.len();
    let mut pos: usize = 0;
    while pos < n && timeline[pos].time <= e.time
        invariant
            n == timeline@.len(),
            pos <= n,
            forall|j: int| 0 <= j < pos ==> timeline@[j].time <= e.time,
            timeline@ == old(timeline)@,
        decreases n - pos,
    {
        pos = pos + 1;
    }
    let ghost before = timeline@;
    timeline.insert(pos, e);
    proof {
        let fm = |x: TimelineEntry| entry_model(x);
        assert forall|i: int, j: int|
            0 <= i <= j < timeline@.len() implies timeline@[i].time <= timeline@[j].time by {
            assert(forall|k: int|
                pos <= k < before.len() ==> before[pos as int].time <= #[trigger] before[k].time);
        }
        assert(timeline@.remove(pos as int) =~= before);
        let mapped = timeline@.map_values(fm);
        assert(mapped.remove(pos as int) =~= before.map_values(fm));
        assert(mapped[pos as int] == entry_model(e));
        to_multiset_remove(mapped, pos as int);
        assert(mapped.to_multiset().remove(entry_model(e)) =~= before.map_values(fm).to_multiset());
        assert(mapped.to_multiset().count(entry_model(e)) > 0) by {
            vstd::seq_lib::to_multiset_contains(mapped, entry_model(e));
            assert(mapped.contains(entry_model(e)));
        }
        assert(mapped.to_multiset() =~= before.map_values(fm).to_multiset().insert(entry_model(e)));
    }
}

/// Appends one entry to the timeline of the person keyed by `pid`,
/// keeping that timeline sorted; a registry without that person is
/// left unchanged.
fn append_entry(reg: &mut Vec<PersonRecord>, pid: &String, e: TimelineEntry)
    requires
        reg_wf(old(reg)@),
    ensures
        reg_wf(final(reg)@),
        reg_models(final(reg)@) == spec_add_entry(reg_models(old(reg)@), pid@, entry_model(e)),
{
    let ghost prev = reg@;
    match find_record(reg, pid) {
        Some(k) => {
            let mut rec = reg.remove(k);
            insert_sorted(&mut rec.person.timeline, e);
            let ghost nr = rec;
            reg.insert(k, rec);
            proof {
                assert(reg@ =~= prev.update(k as int, nr));
                assert(record_model(nr) == PersonModel {
                    id: record_model(prev[k as int]).id,
                    name: record_model(prev[k as int]).name,
                    language: record_model(prev[k as int]).language,
                    area: record_model(prev[k as int]).area,
                    timeline: record_model(prev[k as int]).timeline.insert(entry_model(e)),
                });
                assert(reg_models(reg@) =~~= spec_add_entry(reg_models(prev), pid@, entry_model(e)));
            }
        },
        None => {
            proof {
                assert(reg_models(reg@) == spec_add_entry(reg_models(prev), pid@, entry_model(e)));
            }
        },
    }
}

/// A person's display name: first and last name concatenated, with the
/// empty string substituted for a missing part.
fn contact_display_name(c: &Contact) -> (r: String)
    ensures
        r@ == contact_name(*c),
{
    let mut name: String = match &c.first_name {
        Some(s) => s.clone(),
        None => String::new(),
    };
    match &c.last_name {
        Some(s) => name.append(s.as_str()),
        None => (),
    }
    proof {
        assert(name@ =~= contact_name(*c));
    }
    name
}

/// The string carried by an optional field, or the empty string.
fn opt_str_or_empty(o: &Option<String>) -> (r: String)
    ensures
        r@ == opt_str_view(*o),
{
    match o {
        Some(s) => s.clone(),
        None => String::new(),
    }
}

/// Builds one area's person list from its raw record batch.
///
/// On success every person mirrors the mathematical registry of the
/// batch: same identifying fields, and a timeline sorted by time whose
/// entries are exactly the registry person's bag of entries. The one
/// failure is a sacrament record whose date does not parse, which
/// fails the whole batch.
pub fn build_people(res: &CommandsResponse) -> (r: Result<Vec<Person>, BatchError>)
    ensures
        match r {
            Ok(people) => spec_sacraments_ok(res.sacrament_attendance@) && people@.len()
                == spec_build(*res).len() && forall|i: int|
                0 <= i < people@.len() ==> (#[trigger] people@[i]).name@ == spec_build(*res)[i].name
                    && people@[i].language == spec_build(*res)[i].language && people@[i].area@
                    == spec_build(*res)[i].area && sorted_by_time(people@[i].timeline@)
                    && people@[i].timeline@.map_values(|e: TimelineEntry| entry_model(e)).to_multiset()
                    == spec_build(*res)[i].timeline,
            Err(e) => !spec_sacraments_ok(res.sacrament_attendance@) && e
                == BatchError::InvalidSacramentDate,
        },
{
    let mut reg: Vec<PersonRecord> = Vec::new();

    let nc = res.contacts.len();
    proof {
        assert(res.contacts@.take(0) =~= Seq::<Contact>::empty());
        assert(reg_models(reg@) =~= spec_registry(res.contacts@.take(0), res.pros_area_name@));
    }
    for i in 0..nc
        invariant
            nc == res.contacts.len(),
            reg_wf(reg@),
            reg_models(reg@) == spec_registry(res.contacts@.take(i as int), res.pros_area_name@),
    {
        proof {
            assert(res.contacts@.take(i + 1).drop_last() =~= res.contacts@.take(i as int));
            assert(res.contacts@.take(i + 1).last() == res.contacts@[i as int]);
        }
        let c = &res.contacts[i];
        if c.status != 40 {
            let name = contact_display_name(c);
            let record = PersonRecord {
                id: c.id.clone(),
                person: Person {
                    name,
                    language: c.preferred_language_id,
                    area: res.pros_area_name.clone(),
                    timeline: Vec::new(),
                },
            };
            let ghost prev = reg@;
            let ghost rm = record_model(record);
            proof {
                assert(rm =~= contact_model(res.contacts@[i as int], res.pros_area_name@)) by {
                    assert(record.person.timeline@.map_values(
                        |e: TimelineEntry| entry_model(e),
                    ) =~= Seq::<EntryModel>::empty());
                    assert(Seq::<EntryModel>::empty().to_multiset() =~= Multiset::<
                        EntryModel,
                    >::empty()) by {
                        Seq::<EntryModel>::empty().to_multiset_ensures();
                    }
                }
            }
            match find_record(&reg, &c.id) {
                Some(k) => {
                    let _ = reg.remove(k);
                    reg.insert(k, record);
                    proof {
                        assert(reg@ =~= prev.update(k as int, reg@[k as int]));
                        assert(record_model(reg@[k as int]) == rm);
                        assert(reg_models(reg@) =~~= reg_models(prev).update(k as int, rm));
                    }
                },
                None => {
                    reg.push(record);
                    proof {
                        assert(reg@.drop_last() =~= prev);
                        assert(record_model(reg@.last()) == rm);
                        assert(reg_models(reg@) =~~= reg_models(prev).push(rm));
                    }
                },
            }
        }
    }
    proof {
        assert(res.contacts@.take(nc as int) =~= res.contacts@);
    }

    let ghost reg0 = reg_models(reg@);
    let ne = res.events.len();
    proof {
        assert(res.events@.take(0) =~= Seq::<Event>::empty());
    }
    for i in 0..ne
        invariant
            ne == res.events.len(),
            reg_wf(reg@),
            reg_models(reg@) == spec_apply_events(reg0, res.events@.take(i as int), res.person_events@),
    {
        proof {
            assert(res.events@.take(i + 1).drop_last() =~= res.events@.take(i as int));
            assert(res.events@.take(i + 1).last() == res.events@[i as int]);
        }
        let has_start = res.events[i].start_time.is_some();
        if has_start {
            let t = match res.events[i].start_time {
                Some(t) => t,
                None => 0,
            };
            match find_link(&res.person_events, &res.events[i].id) {
                Some(k) => {
                    let details = opt_str_or_empty(&res.events[i].report);
                    let entry = TimelineEntry { time: t, details, kind: TimelineEventKind::Event };
                    let pid = &res.person_events[k].person_id;
                    append_entry(&mut reg, pid, entry);
                },
                None => (),
            }
        }
    }
    proof {
        assert(res.events@.take(ne as int) =~= res.events@);
    }

    let ghost reg1 = reg_models(reg@);
    let nd = res.person_drops.len();
    proof {
        assert(res.person_drops@.take(0) =~= Seq::<Drop>::empty());
    }
    for i in 0..nd
        invariant
            nd == res.person_drops.len(),
            reg_wf(reg@),
            reg_models(reg@) == spec_apply_drops(reg1, res.person_drops@.take(i as int)),
    {
        proof {
            assert(res.person_drops@.take(i + 1).drop_last() =~= res.person_drops@.take(i as int));
            assert(res.person_drops@.take(i + 1).last() == res.person_drops@[i as int]);
        }
        let details = opt_str_or_empty(&res.person_drops[i].created_by);
        let entry = TimelineEntry {
            time: res.person_drops[i].drop_date,
            details,
            kind: TimelineEventKind::Drop,
        };
        append_entry(&mut reg, &res.person_drops[i].person_id, entry);
    }
    proof {
        assert(res.person_drops@.take(nd as int) =~= res.person_drops@);
    }

    let ghost reg2 = reg_models(reg@);
    let nr = res.person_resets.len();
    proof {
        assert(res.person_resets@.take(0) =~= Seq::<Reset>::empty());
    }
    for i in 0..nr
        invariant
            nr == res.person_resets.len(),
            reg_wf(reg@),
            reg_models(reg@) == spec_apply_resets(reg2, res.person_resets@.take(i as int)),
    {
        proof {
            assert(res.person_resets@.take(i + 1).drop_last() =~= res.person_resets@.take(
                i as int,
            ));
            assert(res.person_resets@.take(i + 1).last() == res.person_resets@[i as int]);
        }
        let details = opt_str_or_empty(&res.person_resets[i].created_by);
        let entry = TimelineEntry {
            time: res.person_resets[i].reset_date,
            details,
            kind: TimelineEventKind::Reset,
        };
        append_entry(&mut reg, &res.person_resets[i].person_id, entry);
    }
    proof {
        assert(res.person_resets@.take(nr as int) =~= res.person_resets@);
    }

    let ghost reg3 = reg_models(reg@);
    let ns = res.sacrament_attendance.len();
    proof {
        assert(res.sacrament_attendance@.take(0) =~= Seq::<SacramentAttendance>::empty());
    }
    for i in 0..ns
        invariant
            ns == res.sacrament_attendance.len(),
            reg_wf(reg@),
            reg_models(reg@) == spec_apply_sacraments(
                reg3,
                res.sacrament_attendance@.take(i as int),
                res.person_events@,
            ),
            forall|j: int|
                0 <= j < i ==> (#[trigger] spec_parse_date_millis(
                    res.sacrament_attendance@[j].date@,
                )) is Some,
    {
        proof {
            assert(res.sacrament_attendance@.take(i + 1).drop_last()
                =~= res.sacrament_attendance@.take(i as int));
            assert(res.sacrament_attendance@.take(i + 1).last()
                == res.sacrament_attendance@[i as int]);
        }
        let t = match parse_date_millis(res.sacrament_attendance[i].date.as_str()) {
            Some(t) => t,
            None => {
                return Err(BatchError::InvalidSacramentDate);
            },
        };
        match find_link(&res.person_events, &res.sacrament_attendance[i].id) {
            Some(k) => {
                let entry = TimelineEntry {
                    time: t,
                    details: String::new(),
                    kind: TimelineEventKind::Reset,
                };
                let pid = &res.person_events[k].person_id;
                append_entry(&mut reg, pid, entry);
            },
            None => (),
        }
    }
    proof {
        assert(res.sacrament_attendance@.take(ns as int) =~= res.sacrament_attendance@);
        assert(reg_models(reg@) == spec_build(*res));
    }

    let ghost final_models = reg_models(reg@);
    let mut people: Vec<Person> = Vec::new();

    while reg.len() > 0
        invariant
            reg_wf(reg@),
            people@.len() + reg@.len() == final_models.len(),
            forall|k: int|
                0 <= k < reg@.len() ==> record_model(#[trigger] reg@[k]) == final_models[people@.len()
                    + k],
            forall|i: int|
                0 <= i < people@.len() ==> (#[trigger] people@[i]).name@ == final_models[i].name
                    && people@[i].language == final_models[i].language && people@[i].area@
                    == final_models[i].area && sorted_by_time(people@[i].timeline@)
                    && people@[i].timeline@.map_values(|e: TimelineEntry| entry_model(e)).to_multiset()
                    == final_models[i].timeline,
        decreases reg@.len(),
    {
        let rec = reg.remove(0);
        proof {
            assert(record_model(rec) == final_models[people@.len() as int]);
        }
        people.push(rec.person);
    }
    Ok(people)
}

/// Two registry persons that agree on everything but the timeline.
pub open spec fn same_identity(a: PersonModel, b: PersonModel) -> bool {
    a.id == b.id && a.name == b.name && a.language == b.language && a.area == b.area
}

/// A membership scan yields -1 or an index of the registry.
proof fn lemma_find_model_range(reg: Seq<PersonModel>, id: Seq<char>)
    ensures
        -1 <= find_model(reg, id) < reg.len(),
    decreases reg.len(),
{
    if reg.len() == 0 {
    } else {
        lemma_find_model_range(reg.drop_first(), id);
    }
}

/// Appending one entry changes no person's identifying fields.
proof fn lemma_add_entry_identity(reg: Seq<PersonModel>, pid: Seq<char>, e: EntryModel)
    ensures
        spec_add_entry(reg, pid, e).len() == reg.len(),
        forall|k: int|
            0 <= k < reg.len() ==> same_identity(#[trigger] spec_add_entry(reg, pid, e)[k], reg[k]),
{
    lemma_find_model_range(reg, pid);
}

/// Scanning events changes no person's identifying fields.
proof fn lemma_apply_events_identity(
    reg: Seq<PersonModel>,
    events: Seq<Event>,
    links: Seq<PersonEvent>,
)
    ensures
        spec_apply_events(reg, events, links).len() == reg.len(),
        forall|k: int|
            0 <= k < reg.len() ==> same_identity(
                #[trigger] spec_apply_events(reg, events, links)[k],
                reg[k],
            ),
    decreases events.len(),
{
    if events.len() == 0 {
    } else {
        lemma_apply_events_identity(reg, events.drop_last(), links);
        let prev = spec_apply_events(reg, events.drop_last(), links);
        let ev = events.last();
        match ev.start_time {
            Some(t) => match spec_link_of(links, ev.id@) {
                Some(pid) => {
                    lemma_add_entry_identity(
                        prev,
                        pid,
                        EntryModel {
                            time: t,
                            details: opt_str_view(ev.report),
                            kind: TimelineEventKind::Event,
                        },
                    );
                },
                None => {},
            },
            None => {},
        }
    }
}

/// Scanning drop records changes no person's identifying fields.
proof fn lemma_apply_drops_identity(reg: Seq<PersonModel>, drops: Seq<Drop>)
    ensures
        spec_apply_drops(reg, drops).len() == reg.len(),
        forall|k: int|
            0 <= k < reg.len() ==> same_identity(#[trigger] spec_apply_drops(reg, drops)[k], reg[k]),
    decreases drops.len(),
{
    if drops.len() == 0 {
    } else {
        lemma_apply_drops_identity(reg, drops.drop_last());
        let prev = spec_apply_drops(reg, drops.drop_last());
        let d = drops.last();
        lemma_add_entry_identity(
            prev,
            d.person_id@,
            EntryModel {
                time: d.drop_date,
                details: opt_str_view(d.created_by),
                kind: TimelineEventKind::Drop,
            },
        );
    }
}

/// Scanning reset records changes no person's identifying fields.
proof fn lemma_apply_resets_identity(reg: Seq<PersonModel>, resets: Seq<Reset>)
    ensures
        spec_apply_resets(reg, resets).len() == reg.len(),
        forall|k: int|
            0 <= k < reg.len() ==> same_identity(
                #[trigger] spec_apply_resets(reg, resets)[k],
                reg[k],
            ),
    decreases resets.len(),
{
    if resets.len() == 0 {
    } else {
        lemma_apply_resets_identity(reg, resets.drop_last());
        let prev = spec_apply_resets(reg, resets.drop_last());
        let rs = resets.last();
        lemma_add_entry_identity(
            prev,
            rs.person_id@,
            EntryModel {
                time: rs.reset_date,
                details: opt_str_view(rs.created_by),
                kind: TimelineEventKind::Reset,
            },
        );
    }
}

/// Scanning sacrament records changes no person's identifying fields.
proof fn lemma_apply_sacraments_identity(
    reg: Seq<PersonModel>,
    sacs: Seq<SacramentAttendance>,
    links: Seq<PersonEvent>,
)
    ensures
        spec_apply_sacraments(reg, sacs, links).len() == reg.len(),
        forall|k: int|
            0 <= k < reg.len() ==> same_identity(
                #[trigger] spec_apply_sacraments(reg, sacs, links)[k],
                reg[k],
            ),
    decreases sacs.len(),
{
    if sacs.len() == 0 {
    } else {
        lemma_apply_sacraments_identity(reg, sacs.drop_last(), links);
        let prev = spec_apply_sacraments(reg, sacs.drop_last(), links);
        let sc = sacs.last();
        match spec_parse_date_millis(sc.date@) {
            Some(t) => match spec_link_of(links, sc.id@) {
                Some(pid) => {
                    lemma_add_entry_identity(
                        prev,
                        pid,
                        EntryModel {
                            time: t,
                            details: Seq::empty(),
                            kind: TimelineEventKind::Reset,
                        },
                    );
                },
                None => {},
            },
            None => {},
        }
    }
}

/// Every registry person is the fresh person of some non-member
/// contact record.
proof fn lemma_registry_from_non_member(contacts: Seq<Contact>, area: Seq<char>, k: int)
    requires
        0 <= k < spec_registry(contacts, area).len(),
    ensures
        exists|j: int|
            0 <= j < contacts.len() && (#[trigger] contacts[j]).status != 40 && spec_registry(
                contacts,
                area,
            )[k] == contact_model(contacts[j], area),
    decreases contacts.len(),
{
    assert(contacts.len() > 0);
    let prev = spec_registry(contacts.drop_last(), area);
    let c = contacts.last();
    let here = spec_registry(contacts, area);
    lemma_find_model_range(prev, c.id@);
    if c.status != 40 && here[k] == contact_model(c, area) && (find_model(prev, c.id@) == -1 ==> k
        == prev.len()) && (find_model(prev, c.id@) != -1 ==> k == find_model(prev, c.id@)) {
        assert(0 <= contacts.len() - 1 < contacts.len() && contacts[contacts.len() - 1].status != 40
            && here[k] == contact_model(contacts[contacts.len() - 1], area));
    } else {
        assert(0 <= k < prev.len() && here[k] == prev[k]);
        lemma_registry_from_non_member(contacts.drop_last(), area, k);
        let jw = choose|j: int|
            0 <= j < contacts.drop_last().len() && (#[trigger] contacts.drop_last()[j]).status != 40
                && prev[k] == contact_model(contacts.drop_last()[j], area);
        assert(contacts.drop_last()[jw] == contacts[jw]);
        assert(0 <= jw < contacts.len() && contacts[jw].status != 40 && here[k] == contact_model(
            contacts[jw],
            area,
        ));
    }
}

/// A contact/person record with the member status never produces a
/// person: every person of the fully built registry carries the
/// identifying fields of some contact whose status is not 40.
pub proof fn lemma_people_from_non_member_contacts(res: CommandsResponse, k: int)
    requires
        0 <= k < spec_build(res).len(),
    ensures
        exists|j: int|
            0 <= j < res.contacts@.len() && (#[trigger] res.contacts@[j]).status != 40
                && same_identity(
                spec_build(res)[k],
                contact_model(res.contacts@[j], res.pros_area_name@),
            ),
{
    let reg = spec_registry(res.contacts@, res.pros_area_name@);
    let r1 = spec_apply_events(reg, res.events@, res.person_events@);
    let r2 = spec_apply_drops(r1, res.person_drops@);
    let r3 = spec_apply_resets(r2, res.person_resets@);
    lemma_apply_events_identity(reg, res.events@, res.person_events@);
    lemma_apply_drops_identity(r1, res.person_drops@);
    lemma_apply_resets_identity(r2, res.person_resets@);
    lemma_apply_sacraments_identity(r3, res.sacrament_attendance@, res.person_events@);
    lemma_registry_from_non_member(res.contacts@, res.pros_area_name@, k);
    let jw = choose|j: int|
        0 <= j < res.contacts@.len() && (#[trigger] res.contacts@[j]).status != 40 && reg[k]
            == contact_model(res.contacts@[j], res.pros_area_name@);
    assert(same_identity(
        spec_build(res)[k],
        contact_model(res.contacts@[jw], res.pros_area_name@),
    ));
}

/// A contact/person record with the member status never produces a
/// person: scanning one more member record leaves the registry exactly
/// as it was.
pub proof fn lemma_member_contact_inert(contacts: Seq<Contact>, area: Seq<char>, c: Contact)
    requires
        c.status == 40,
    ensures
        spec_registry(contacts.push(c), area) == spec_registry(contacts, area),
{
    assert(contacts.push(c).drop_last() =~= contacts);
    assert(contacts.push(c).last() == c);
}

/// An event with no start time never produces a timeline entry:
/// scanning one more such event leaves the registry exactly as it was.
pub proof fn lemma_event_without_start_inert(
    reg: Seq<PersonModel>,
    events: Seq<Event>,
    links: Seq<PersonEvent>,
    ev: Event,
)
    requires
        ev.start_time is None,
    ensures
        spec_apply_events(reg, events.push(ev), links) == spec_apply_events(reg, events, links),
{
    assert(events.push(ev).drop_last() =~= events);
    assert(events.push(ev).last() == ev);
}

} // verus!
