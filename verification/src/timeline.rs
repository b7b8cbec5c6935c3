//! Data model: raw per-area batch records as delivered by the remote
//! service, and the per-person timeline built from them.

use vstd::prelude::*;

verus! {

/// A proselytizing contact event. Only events with a start time can be
/// placed on a timeline.
#[derive(Debug, Clone)]
pub struct Event {
    pub id: String,
    pub modified_by: Option<String>,
    pub start_time: Option<u64>,
    pub end_time: Option<u64>,
    pub event_type: u32,
    pub subject: Option<String>,
    pub report: Option<String>,
    pub contact_type_id: Option<u32>,
    pub creation_date: Option<u64>,
    pub updated_date: Option<u64>,
    pub lesson_yn: u8,
    pub owner_yn: u8,
    pub member_present_yn: u8,
}

/// Links an event to the person it belongs to.
#[derive(Debug, Clone)]
pub struct PersonEvent {
    pub id: String,
    pub person_id: String,
    pub event_id: String,
}

/// A deactivation marker for a person.
#[derive(Debug, Clone)]
pub struct Drop {
    pub id: String,
    pub person_id: String,
    pub drop_date: u64,
    pub note: Option<String>,
    pub created_by: Option<String>,
    pub status: u8,
}

/// A reactivation marker for a person.
#[derive(Debug, Clone)]
pub struct Reset {
    pub id: String,
    pub person_id: String,
    pub reset_date: u64,
    pub created_by: Option<String>,
}

/// A sacrament-attendance record; `date` is a calendar day written
/// `YYYY-MM-DD`.
#[derive(Debug, Clone)]
pub struct SacramentAttendance {
    pub id: String,
    pub person_id: String,
    pub date: String,
}

/// A contact/person record. Status 40 marks a member, who is not a
/// tracked missionary contact.
#[derive(Debug, Clone)]
pub struct Contact {
    pub id: String,
    pub household_id: String,
    pub status: u32,
    pub created_by: Option<String>,
    pub first_name: Option<String>,
    pub last_name: Option<String>,
    pub gender: Option<String>,
    pub note: Option<String>,
    pub phone_mobile: Option<String>,
    pub phone_work: Option<String>,
    pub phone_mobile_textable: Option<bool>,
    pub age_category: Option<u32>,
    pub affirmed_interest_expiration_date: u64,
    pub last_event_date: Option<u64>,
    pub last_happened_event_date: Option<u64>,
    pub contact_source: u32,
    pub last_taught_date: Option<u64>,
    pub create_date: u64,
    pub preferred_language_id: Option<u16>,
    pub visibility_type_id: u32,
    pub owner_status: u32,
    pub pros_area_id: Option<u32>,
    pub last_reassigned_date: Option<i64>,
    pub found_by_person_id: Option<String>,
    pub membership_creation_date: Option<String>,
}

/// One area's raw record batch.
#[derive(Debug, Clone)]
pub struct CommandsResponse {
    pub person_events: Vec<PersonEvent>,
    pub events: Vec<Event>,
    pub person_drops: Vec<Drop>,
    pub person_resets: Vec<Reset>,
    pub sacrament_attendance: Vec<SacramentAttendance>,
    pub contacts: Vec<Contact>,
    pub pros_area_name: String,
}

/// What kind of timeline entry a record became.
#[derive(Debug, Clone, Copy, PartialEq, Eq, Structural)]
pub enum TimelineEventKind {
    Event,
    Drop,
    Reset,
    Sacrament,
}

/// One entry on a person's timeline; `time` is unix milliseconds.
#[derive(Debug, Clone)]
pub struct TimelineEntry {
    pub time: u64,
    pub details: String,
    pub kind: TimelineEventKind,
}

/// A tracked person with a time-ordered timeline.
#[derive(Debug, Clone)]
pub struct Person {
    pub name: String,
    pub language: Option<u16>,
    pub area: String,
    pub timeline: Vec<TimelineEntry>,
}

/// Why decoding one area's batch failed as a whole.
#[derive(Debug, Clone, Copy, PartialEq, Eq, Structural)]
pub enum BatchError {
    /// The response body was not a valid gzip stream.
    CorruptGzip,
    /// A sacrament-attendance record's date is not a well-formed
    /// `YYYY-MM-DD` day on or after the unix epoch.
    InvalidSacramentDate,
}

/// The timeline is non-decreasing in `time`.
pub open spec fn sorted_by_time(t: Seq<TimelineEntry>) -> bool {
    forall|i: int, j: int| 0 <= i <= j < t.len() ==> t[i].time <= t[j].time
}

} // verus!
