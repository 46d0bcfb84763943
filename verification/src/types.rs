//! Records of the remote time-tracking service.

use vstd::prelude::*;

verus! {

/// The account on whose behalf entries are synchronised.
#[derive(Debug)]
pub struct User {
    pub id: u64,
    pub name: String,
    pub email: String,
}

/// A customer for whom projects are carried out.
#[derive(Debug)]
pub struct Client {
    pub id: u64,
    pub name: String,
    pub address: Option<String>,
    pub city: Option<String>,
    pub state: Option<String>,
    pub postal_code: Option<String>,
    pub country: Option<String>,
    pub phone: Option<String>,
    pub fax: Option<String>,
    pub email: Option<String>,
    pub website: Option<String>,
    pub image: Option<String>,
    pub fiscal_information: Option<String>,
    pub active: bool,
    pub created_on: String,
    pub updated_on: String,
}

/// A project of a client.
#[derive(Debug)]
pub struct Project {
    pub id: u64,
    pub name: String,
    pub client_id: u64,
    pub active: bool,
}

/// A billable task of a project.
#[derive(Debug)]
pub struct Task {
    pub id: u64,
    pub name: String,
    pub project_id: u64,
    pub complete: bool,
}

/// A time entry as the remote service holds it.
///
/// An entry that was booked by the hour log carries a `date`; one that was
/// timed by hand carries a start and an end time instead.
#[derive(Debug)]
pub struct TimeEntry {
    pub id: u64,
    pub task_id: u64,
    pub user_id: u64,
    pub start_time: Option<String>,
    pub end_time: Option<String>,
    pub description: String,
    pub added_manually: bool,
    pub invoice_item_id: Option<u64>,
    pub billed: bool,
    pub is_bulk: bool,
    pub project_id: u64,
    pub duration: u32,
    pub date: Option<String>,
    pub created_on: String,
    pub updated_on: String,
}

} // verus!
