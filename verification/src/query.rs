//! Filters on what the remote lists, and the query text that states them.

use vstd::prelude::*;
use vstd::string::StringExecFns;
use vstd::utf8::encode_utf8;
use crate::date::Period;
use crate::text::decimal;
use crate::text::push_decimal;

verus! {

/// Whether the byte stands for itself in percent-encoded text: an ASCII
/// letter or digit, a hyphen, a full stop, an underscore or a tilde.
pub open spec fn is_unreserved(byte: u8) -> bool {
    ||| 0x30 <= byte <= 0x39
    ||| 0x41 <= byte <= 0x5a
    ||| 0x61 <= byte <= 0x7a
    ||| byte == 0x2d
    ||| byte == 0x2e
    ||| byte == 0x5f
    ||| byte == 0x7e
}

/// The upper-case hexadecimal digit for `nibble`, a number below sixteen.
pub open spec fn hex_digit(nibble: int) -> char {
    if nibble < 10 {
        (0x30 + nibble) as char
    } else {
        (0x41 + nibble - 10) as char
    }
}

/// One byte in percent-encoded text: itself where it is unreserved, else a
/// percent sign and its two hexadecimal digits.
pub open spec fn escaped_byte(byte: u8) -> Seq<char> {
    if is_unreserved(byte) {
        seq![byte as char]
    } else {
        seq!['%', hex_digit(byte as int / 16), hex_digit(byte as int % 16)]
    }
}

/// The bytes in percent-encoded text, one after the other.
pub open spec fn escaped(bytes: Seq<u8>) -> Seq<char>
    decreases bytes.len(),
{
    if bytes.len() == 0 {
        Seq::empty()
    } else {
        escaped(bytes.drop_last()) + escaped_byte(bytes.last())
    }
}

/// The percent-encoding of the UTF-8 bytes of `text`.
pub open spec fn percent_encoded(text: Seq<char>) -> Seq<char> {
    escaped(encode_utf8(text))
}

/// `urlencoding::encode`: the text with every byte of its UTF-8 encoding
/// percent-encoded, except ASCII letters and digits, `-`, `.`, `_` and `~`.
#[verifier::external_body]
fn url_encode(text: &str) -> (encoded: String)
    ensures
        encoded@ == percent_encoded(text@),
{
    urlencoding::encode(text).into_owned()
}

/// The test that `key` equals `value`, as query text.
pub open spec fn equal_test(key: Seq<char>, value: Seq<char>) -> Seq<char> {
    percent_encoded(key) + "="@ + percent_encoded(value)
}

/// The test that `key` lies in `collection`, as query text.
pub open spec fn in_test(key: Seq<char>, collection: Seq<char>) -> Seq<char> {
    percent_encoded(key) + " in "@ + percent_encoded(collection)
}

/// The query `query` with one more test: the first test opens the query,
/// each later one is joined to it by `and`.
pub open spec fn with_filter(query: Seq<char>, filter: Seq<char>) -> Seq<char> {
    if query.len() == 0 {
        "where="@ + filter
    } else {
        query + " and "@ + filter
    }
}

/// The query `query` with the test that `key` equals `value`, where there is a value.
pub open spec fn with_equal(query: Seq<char>, key: Seq<char>, value: Option<Seq<char>>) -> Seq<
    char,
> {
    match value {
        Some(value) => with_filter(query, equal_test(key, value)),
        None => query,
    }
}

/// The query `query` with the test that `key` lies in `collection`, where there is a collection.
pub open spec fn with_in(query: Seq<char>, key: Seq<char>, collection: Option<Seq<char>>) -> Seq<
    char,
> {
    match collection {
        Some(collection) => with_filter(query, in_test(key, collection)),
        None => query,
    }
}

/// Collects the tests of a query.
#[derive(Debug)]
pub struct FilterBuilder {
    pub filter: String,
}

impl FilterBuilder {
    /// The builder of a query without tests.
    pub fn new() -> (builder: FilterBuilder)
        ensures
            builder.filter@.len() == 0,
    {
        FilterBuilder { filter: String::new() }
    }

    /// Adds the test `filter` to the query.
    pub fn add_filter(&mut self, filter: &str)
        ensures
            final(self).filter@ == with_filter(old(self).filter@, filter@),
    {
        if self.filter.as_str().is_empty() {
            let mut query = "where=".to_owned();
            query.append(filter);
            self.filter = query;
        } else {
            self.filter.append(" and ");
            self.filter.append(filter);
        }
    }

    /// Adds the test that `key` equals `value`, where there is a value.
    pub fn test_equal(&mut self, key: &str, value: Option<String>)
        ensures
            final(self).filter@ == with_equal(
                old(self).filter@,
                key@,
                match value {
                    Some(value) => Some(value@),
                    None => None,
                },
            ),
    {
        if let Some(value) = value {
            let mut test = url_encode(key);
            test.append("=");
            test.append(url_encode(value.as_str()).as_str());
            self.add_filter(test.as_str());
        }
    }

    /// Adds the test that `key` lies in `collection`, where there is a collection.
    pub fn test_in(&mut self, key: &str, collection: Option<String>)
        ensures
            final(self).filter@ == with_in(
                old(self).filter@,
                key@,
                match collection {
                    Some(collection) => Some(collection@),
                    None => None,
                },
            ),
    {
        if let Some(collection) = collection {
            let mut test = url_encode(key);
            test.append(" in ");
            test.append(url_encode(collection.as_str()).as_str());
            self.add_filter(test.as_str());
        }
    }

    /// The query text.
    pub fn finish(self) -> (query: String)
        ensures
            query@ == self.filter@,
    {
        self.filter
    }
}

/// The text of a truth value.
pub open spec fn bool_text(value: bool) -> Seq<char> {
    if value {
        "true"@
    } else {
        "false"@
    }
}

/// The text of an optional truth value.
pub open spec fn optional_bool_text(value: Option<bool>) -> Option<Seq<char>> {
    match value {
        Some(value) => Some(bool_text(value)),
        None => None,
    }
}

/// The decimal numeral of an optional number.
pub open spec fn optional_decimal(value: Option<u64>) -> Option<Seq<char>> {
    match value {
        Some(value) => Some(decimal(value as nat)),
        None => None,
    }
}

fn bool_string(value: Option<bool>) -> (text: Option<String>)
    ensures
        match text {
            Some(text) => optional_bool_text(value) == Some(text@),
            None => value is None,
        },
{
    match value {
        Some(true) => Some("true".to_owned()),
        Some(false) => Some("false".to_owned()),
        None => None,
    }
}

fn decimal_string(value: Option<u64>) -> (text: Option<String>)
    ensures
        match text {
            Some(text) => optional_decimal(value) == Some(text@),
            None => value is None,
        },
{
    match value {
        Some(value) => {
            let mut text = String::new();
            push_decimal(&mut text, value);
            assert(text@ == decimal(value as nat));
            Some(text)
        },
        None => None,
    }
}

/// Which projects to list.
#[derive(Clone, Copy, Debug)]
pub struct ProjectsFilter {
    pub active: Option<bool>,
}

impl ProjectsFilter {
    /// The query text of the filter.
    pub open spec fn spec_query(&self) -> Seq<char> {
        with_equal(Seq::empty(), "active"@, optional_bool_text(self.active))
    }

    /// The query text of the filter.
    pub fn build_query(&self) -> (query: String)
        ensures
            query@ == self.spec_query(),
    {
        let mut builder = FilterBuilder::new();
        assert(builder.filter@ == Seq::<char>::empty());
        builder.test_equal("active", bool_string(self.active));
        builder.finish()
    }
}

impl Default for ProjectsFilter {
    /// The filter that lists every project.
    fn default() -> (filter: ProjectsFilter)
        ensures
            filter.active is None,
    {
        ProjectsFilter { active: None }
    }
}

/// The period as the interval of points in time that the remote filters by:
/// from midnight of the first day to midnight of the day after the last.
pub open spec fn time_interval(period: Period) -> Seq<char> {
    "(\""@ + period.start.spec_text() + "T00:00:00Z\", \""@ + period.end.spec_text()
        + "T00:00:00Z\")"@
}

/// The interval of an optional period.
pub open spec fn optional_time_interval(period: Option<Period>) -> Option<Seq<char>> {
    match period {
        Some(period) => Some(time_interval(period)),
        None => None,
    }
}

/// The period as the interval of points in time that the remote filters by.
pub fn to_time_interval(period: &Period) -> (interval: String)
    ensures
        interval@ == time_interval(*period),
{
    let mut interval = "(\"".to_owned();
    interval.append(period.start.text().as_str());
    interval.append("T00:00:00Z\", \"");
    interval.append(period.end.text().as_str());
    interval.append("T00:00:00Z\")");
    interval
}

/// Which time entries to list.
#[derive(Clone, Copy, Debug)]
pub struct TimeEntryFilter {
    pub user_id: Option<u64>,
    pub task_id: Option<u64>,
    pub project_id: Option<u64>,
    pub client_id: Option<u64>,
    pub period: Option<Period>,
}

impl TimeEntryFilter {
    /// The query text of the filter: one test for each value that is set, in
    /// the order user, task, project, client, period.
    pub open spec fn spec_query(&self) -> Seq<char> {
        with_in(
            with_equal(
                with_equal(
                    with_equal(
                        with_equal(Seq::empty(), "user_id"@, optional_decimal(self.user_id)),
                        "task_id"@,
                        optional_decimal(self.task_id),
                    ),
                    "project_id"@,
                    optional_decimal(self.project_id),
                ),
                "client_id"@,
                optional_decimal(self.client_id),
            ),
            "time_interval"@,
            optional_time_interval(self.period),
        )
    }

    /// The filter that lists every time entry.
    pub fn new() -> (filter: TimeEntryFilter)
        ensures
            filter.user_id is None,
            filter.task_id is None,
            filter.project_id is None,
            filter.client_id is None,
            filter.period is None,
    {
        TimeEntryFilter::default()
    }

    /// The query text of the filter.
    pub fn build_query(&self) -> (query: String)
        ensures
            query@ == self.spec_query(),
    {
        let mut builder = FilterBuilder::new();
        assert(builder.filter@ == Seq::<char>::empty());
        builder.test_equal("user_id", decimal_string(self.user_id));
        builder.test_equal("task_id", decimal_string(self.task_id));
        builder.test_equal("project_id", decimal_string(self.project_id));
        builder.test_equal("client_id", decimal_string(self.client_id));
        let interval = match &self.period {
            Some(period) => Some(to_time_interval(period)),
            None => None,
        };
        builder.test_in("time_interval", interval);
        builder.finish()
    }

    /// The filter narrowed to the entries of the user `val`.
    pub fn user_id(self, val: u64) -> (filter: TimeEntryFilter)
        ensures
            filter == (TimeEntryFilter { user_id: Some(val), ..self }),
    {
        TimeEntryFilter { user_id: Some(val), ..self }
    }

    /// The filter narrowed to the entries of the task `val`.
    pub fn task_id(self, val: u64) -> (filter: TimeEntryFilter)
        ensures
            filter == (TimeEntryFilter { task_id: Some(val), ..self }),
    {
        TimeEntryFilter { task_id: Some(val), ..self }
    }

    /// The filter narrowed to the entries of the project `val`.
    pub fn project_id(self, val: u64) -> (filter: TimeEntryFilter)
        ensures
            filter == (TimeEntryFilter { project_id: Some(val), ..self }),
    {
        TimeEntryFilter { project_id: Some(val), ..self }
    }

    /// The filter narrowed to the entries of the client `val`.
    pub fn client_id(self, val: u64) -> (filter: TimeEntryFilter)
        ensures
            filter == (TimeEntryFilter { client_id: Some(val), ..self }),
    {
        TimeEntryFilter { client_id: Some(val), ..self }
    }

    /// The filter narrowed to the entries of the period `val`.
    pub fn period(self, val: Period) -> (filter: TimeEntryFilter)
        ensures
            filter == (TimeEntryFilter { period: Some(val), ..self }),
    {
        TimeEntryFilter { period: Some(val), ..self }
    }
}

impl Default for TimeEntryFilter {
    /// The filter that lists every time entry.
    fn default() -> (filter: TimeEntryFilter)
        ensures
            filter.user_id is None,
            filter.task_id is None,
            filter.project_id is None,
            filter.client_id is None,
            filter.period is None,
    {
        TimeEntryFilter {
            user_id: None,
            task_id: None,
            project_id: None,
            client_id: None,
            period: None,
        }
    }
}

} // verus!
