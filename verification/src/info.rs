//! The signed-in missionary's own account details, as decoded from the
//! user-details payload by the surrounding application.

use vstd::prelude::*;

verus! {

/// A calling held by the missionary.
#[derive(Debug, Clone)]
pub struct Calling {
    pub cmis_id: u64,
    pub position_id: u64,
    pub position_name: String,
    pub unit_id: u64,
}

/// Account and assignment details for the signed-in missionary.
#[derive(Debug, Clone)]
pub struct MissionaryInfo {
    pub missionary_id: u64,
    pub returning_member_mission: bool,
    pub lds_account_id: u64,
    pub lds_account_id_of_proxying_user: u64,
    pub cmis_id: u64,
    pub roles: Vec<String>,
    pub first: String,
    pub last: String,
    pub user_name: String,
    pub gender: String,
    pub church_area: String,
    pub callings: Option<Vec<Calling>>,
    pub mission_id: u64,
    pub mission_name: String,
    pub mission_org_number: u64,
    pub zone_id: u64,
    pub zone_name: String,
    pub district_id: u64,
    pub district_name: String,
    pub pros_area_id: u64,
    pub pros_area_name: String,
}

} // verus!
