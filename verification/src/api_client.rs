//! The requests that the remote service is asked with, and the reading of
//! what it answers. Sending is left to the caller.

use vstd::prelude::*;
use vstd::string::StringExecFns;
use crate::date::Date;
use crate::hours::Hours;
use crate::query::ProjectsFilter;
use crate::query::TimeEntryFilter;
use crate::rate_limit::RateLimit;
use crate::text::decimal;
use crate::text::push_decimal;
use crate::types::User;

verus! {

/// The access to the remote service.
#[derive(Debug)]
pub struct ApiClient {
    /// The address under which the service's resources lie.
    pub api_root: String,
    /// The token that authenticates the user.
    pub auth_token: String,
    /// The quota as far as the service has reported it.
    pub rate_limit: RateLimit,
}

/// The kind of a request.
#[derive(Clone, Copy, Debug, PartialEq, Eq, Structural)]
pub enum Method {
    Get,
    Post,
    Delete,
}

/// A time entry to be created on the remote.
#[derive(Debug)]
pub struct NewTimeEntry {
    pub task_id: u64,
    pub date: String,
    /// The duration in seconds.
    pub duration: u64,
    pub description: String,
}

/// A request to the remote service.
#[derive(Debug)]
pub struct Request {
    pub method: Method,
    pub url: String,
    /// The entry to create, for a request that creates one.
    pub body: Option<NewTimeEntry>,
}

/// The address of the resources `relative_url` that meet `query`.
pub open spec fn query_url(api_root: Seq<char>, relative_url: Seq<char>, query: Seq<char>) -> Seq<
    char,
> {
    api_root + "/"@ + relative_url + "?"@ + query
}

/// The address of the resources `relative_url`.
pub open spec fn collection_url(api_root: Seq<char>, relative_url: Seq<char>) -> Seq<char> {
    api_root + "/"@ + relative_url
}

/// The address of the resource `id` among the resources `relative_url`.
pub open spec fn item_url(api_root: Seq<char>, relative_url: Seq<char>, id: u64) -> Seq<char> {
    api_root + "/"@ + relative_url + "/"@ + decimal(id as nat)
}

/// The status with which the remote answers a request of the kind `method` that it has met.
pub open spec fn success_status(method: Method) -> u16 {
    match method {
        Method::Get => 200,
        Method::Post => 201,
        Method::Delete => 200,
    }
}

/// Whether `status` says that the remote has met a request of the kind `method`.
pub fn is_success(method: Method, status: u16) -> (met: bool)
    ensures
        met == (status == success_status(method)),
{
    match method {
        Method::Get => status == 200,
        Method::Post => status == 201,
        Method::Delete => status == 200,
    }
}

/// Takes the one user out of the answer to the question who the user is.
///
/// Fails with the number of users where the answer does not hold exactly one.
pub fn sole_user(users: Vec<User>) -> (result: Result<User, usize>)
    ensures
        match result {
            Ok(user) => users@.len() == 1 && user == users@[0],
            Err(count) => users@.len() != 1 && count == users@.len(),
        },
{
    let mut users = users;
    if users.len() != 1 {
        Err(users.len())
    } else {
        Ok(users.remove(0))
    }
}

impl ApiClient {
    /// The request that lists the resources `relative_url` that meet `query`.
    pub fn get(&self, relative_url: &str, query: &str) -> (request: Request)
        ensures
            request.method == Method::Get,
            request.url@ == query_url(self.api_root@, relative_url@, query@),
            request.body is None,
    {
        let mut url = self.api_root.clone();
        url.append("/");
        url.append(relative_url);
        url.append("?");
        url.append(query);
        Request { method: Method::Get, url, body: None }
    }

    /// The request that creates `body` among the resources `relative_url`.
    pub fn post_new(&self, relative_url: &str, body: NewTimeEntry) -> (request: Request)
        ensures
            request.method == Method::Post,
            request.url@ == collection_url(self.api_root@, relative_url@),
            request.body == Some(body),
    {
        let mut url = self.api_root.clone();
        url.append("/");
        url.append(relative_url);
        Request { method: Method::Post, url, body: Some(body) }
    }

    /// The request that deletes the resource `id` among the resources `relative_url`.
    pub fn delete(&self, relative_url: &str, id: u64) -> (request: Request)
        ensures
            request.method == Method::Delete,
            request.url@ == item_url(self.api_root@, relative_url@, id),
            request.body is None,
    {
        let mut url = self.api_root.clone();
        url.append("/");
        url.append(relative_url);
        url.append("/");
        push_decimal(&mut url, id);
        Request { method: Method::Delete, url, body: None }
    }

    /// The request that asks who the user is.
    pub fn my_user(&self) -> (request: Request)
        ensures
            request.method == Method::Get,
            request.url@ == query_url(self.api_root@, "me"@, ""@),
            request.body is None,
    {
        self.get("me", "")
    }

    /// The request that lists the clients.
    pub fn get_clients(&self) -> (request: Request)
        ensures
            request.method == Method::Get,
            request.url@ == query_url(self.api_root@, "clients"@, ""@),
            request.body is None,
    {
        self.get("clients", "")
    }

    /// The request that lists the time entries that pass `filter`.
    pub fn get_time_entries(&self, filter: &TimeEntryFilter) -> (request: Request)
        ensures
            request.method == Method::Get,
            request.url@ == query_url(self.api_root@, "entries"@, filter.spec_query()),
            request.body is None,
    {
        self.get("entries", filter.build_query().as_str())
    }

    /// The request that books `duration` of work on the task `task_id` for the day `date`.
    pub fn add_entry(&self, task_id: u64, date: Date, duration: Hours, description: &str) -> (request:
        Request)
        ensures
            request.method == Method::Post,
            request.url@ == collection_url(self.api_root@, "entries"@),
            request.body matches Some(entry) && {
                &&& entry.task_id == task_id
                &&& entry.date@ == date.spec_text()
                &&& entry.duration == duration.spec_seconds()
                &&& entry.description@ == description@
            },
    {
        let new_entry = NewTimeEntry {
            task_id,
            date: date.text(),
            duration: duration.seconds(),
            description: description.to_owned(),
        };
        self.post_new("entries", new_entry)
    }

    /// The request that deletes the time entry `entry_id`.
    pub fn delete_entry(&self, entry_id: u64) -> (request: Request)
        ensures
            request.method == Method::Delete,
            request.url@ == item_url(self.api_root@, "entries"@, entry_id),
            request.body is None,
    {
        self.delete("entries", entry_id)
    }

    /// The request that lists the projects that pass `filter`.
    pub fn get_projects_filtered(&self, filter: &ProjectsFilter) -> (request: Request)
        ensures
            request.method == Method::Get,
            request.url@ == query_url(self.api_root@, "projects"@, filter.spec_query()),
            request.body is None,
    {
        self.get("projects", filter.build_query().as_str())
    }

    /// The request that lists every project.
    pub fn get_projects(&self) -> (request: Request)
        ensures
            request.method == Method::Get,
            request.url@ == query_url(
                self.api_root@,
                "projects"@,
                (ProjectsFilter { active: None }).spec_query(),
            ),
            request.body is None,
    {
        self.get_projects_filtered(&ProjectsFilter::default())
    }

    /// The request that lists the tasks.
    pub fn get_tasks(&self) -> (request: Request)
        ensures
            request.method == Method::Get,
            request.url@ == query_url(self.api_root@, "tasks"@, ""@),
            request.body is None,
    {
        self.get("tasks", "")
    }
}

} // verus!
