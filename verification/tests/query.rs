use uurlog_paymo::date::{Date, Period};
use uurlog_paymo::query::{to_time_interval, FilterBuilder, ProjectsFilter, TimeEntryFilter};

fn january() -> Period {
    Period {
        start: Date { year: 2024, month: 1, day: 1 },
        end: Date { year: 2024, month: 2, day: 1 },
    }
}

#[test]
fn projects_filter_without_values_gives_the_empty_query() {
    assert_eq!(ProjectsFilter::default().build_query(), "");
    assert_eq!(ProjectsFilter { active: None }.build_query(), "");
}

#[test]
fn projects_filter_tests_the_activity() {
    assert_eq!(ProjectsFilter { active: Some(true) }.build_query(), "where=active=true");
    assert_eq!(ProjectsFilter { active: Some(false) }.build_query(), "where=active=false");
}

#[test]
fn time_entry_filter_without_values_gives_the_empty_query() {
    assert_eq!(TimeEntryFilter::new().build_query(), "");
    assert_eq!(TimeEntryFilter::default().build_query(), "");
}

#[test]
fn time_interval_runs_from_midnight_to_midnight() {
    assert_eq!(
        to_time_interval(&january()),
        "(\"2024-01-01T00:00:00Z\", \"2024-02-01T00:00:00Z\")"
    );
}

#[test]
fn time_entry_filter_for_a_user_and_a_period() {
    let filter = TimeEntryFilter::new().user_id(5).period(january());
    assert_eq!(
        filter.build_query(),
        "where=user_id=5 and time_interval in %28%222024-01-01T00%3A00%3A00Z%22%2C%20%222024-02-01T00%3A00%3A00Z%22%29"
    );
}

#[test]
fn time_entry_filter_states_its_tests_in_a_fixed_order() {
    let filter = TimeEntryFilter::new()
        .period(january())
        .client_id(4)
        .project_id(3)
        .task_id(18446744073709551615)
        .user_id(0);
    assert_eq!(
        filter.build_query(),
        "where=user_id=0 and task_id=18446744073709551615 and project_id=3 and client_id=4 and time_interval in %28%222024-01-01T00%3A00%3A00Z%22%2C%20%222024-02-01T00%3A00%3A00Z%22%29"
    );
    assert_eq!(TimeEntryFilter::new().project_id(3).build_query(), "where=project_id=3");
}

#[test]
fn builders_set_one_value_each() {
    let filter = TimeEntryFilter::new().user_id(1).task_id(2).project_id(3).client_id(4);
    assert_eq!(filter.user_id, Some(1));
    assert_eq!(filter.task_id, Some(2));
    assert_eq!(filter.project_id, Some(3));
    assert_eq!(filter.client_id, Some(4));
    assert_eq!(filter.period, None);
    assert_eq!(filter.user_id(9).user_id, Some(9));
    assert_eq!(filter.period(january()).period, Some(january()));
}

#[test]
fn first_test_opens_the_query_and_later_ones_are_joined() {
    let mut builder = FilterBuilder::new();
    builder.add_filter("a=1");
    builder.add_filter("b in (2)");
    builder.add_filter("");
    assert_eq!(builder.finish(), "where=a=1 and b in (2) and ");
    assert_eq!(FilterBuilder::new().finish(), "");
}

#[test]
fn keys_and_values_are_percent_encoded() {
    let mut builder = FilterBuilder::new();
    builder.test_equal("na me", Some("a&b=c/d".to_string()));
    builder.test_equal("skipped", None);
    builder.test_in("k\u{e9}y", Some("(1, 2)".to_string()));
    builder.test_in("skipped", None);
    builder.test_equal("AZaz09-._~", Some("AZaz09-._~".to_string()));
    builder.test_equal("", Some("\u{1f47e}%\u{7f}\u{0}".to_string()));
    assert_eq!(
        builder.finish(),
        "where=na%20me=a%26b%3Dc%2Fd and k%C3%A9y in %281%2C%202%29 and AZaz09-._~=AZaz09-._~ and =%F0%9F%91%BE%25%7F%00"
    );
}
