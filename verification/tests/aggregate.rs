use uurlog_paymo::aggregate::summarize_per_day;
use uurlog_paymo::date::Date;
use uurlog_paymo::entry::{Entry, ResolvedEntry};
use uurlog_paymo::hours::Hours;

fn entry(day: u8, task_id: u64, minutes: u32, description: &str) -> ResolvedEntry {
    ResolvedEntry {
        entry: Entry {
            date: Date { year: 2024, month: 1, day },
            hours: Hours::from_minutes(minutes),
            tags: vec!["tag".to_string()],
            description: description.to_string(),
        },
        task_id,
    }
}

fn shape(entries: &[ResolvedEntry]) -> Vec<(u8, u64, u32)> {
    entries.iter().map(|e| (e.entry.date.day, e.task_id, e.entry.hours.total_minutes())).collect()
}

#[test]
fn entries_of_one_day_and_task_are_merged() {
    let entries = vec![
        entry(1, 7, 30, "morning"),
        entry(1, 7, 45, "afternoon"),
        entry(1, 7, 15, "evening"),
    ];
    let summaries = summarize_per_day(entries, "summary").unwrap();
    assert_eq!(shape(&summaries), vec![(1, 7, 90)]);
    assert_eq!(summaries[0].entry.description, "summary");
    assert!(summaries[0].entry.tags.is_empty());
}

#[test]
fn groups_come_by_day_then_task() {
    let entries = vec![
        entry(2, 9, 10, "a"),
        entry(1, 8, 20, "b"),
        entry(2, 3, 30, "c"),
        entry(1, 8, 40, "d"),
        entry(1, 2, 50, "e"),
        entry(2, 9, 60, "f"),
    ];
    let summaries = summarize_per_day(entries, "day").unwrap();
    assert_eq!(shape(&summaries), vec![(1, 2, 50), (1, 8, 60), (2, 3, 30), (2, 9, 70)]);
    assert!(summaries.iter().all(|s| s.entry.description == "day" && s.entry.tags.is_empty()));
}

#[test]
fn days_of_different_months_and_years_are_kept_apart() {
    let mut a = entry(1, 1, 10, "a");
    a.entry.date = Date { year: 2024, month: 2, day: 1 };
    let mut b = entry(1, 1, 20, "b");
    b.entry.date = Date { year: 2023, month: 12, day: 31 };
    let c = entry(1, 1, 30, "c");
    let summaries = summarize_per_day(vec![a, b, c], "s").unwrap();
    let dates: Vec<(u16, u8, u8, u32)> = summaries
        .iter()
        .map(|s| (s.entry.date.year, s.entry.date.month, s.entry.date.day, s.entry.hours.minutes))
        .collect();
    assert_eq!(dates, vec![(2023, 12, 31, 20), (2024, 1, 1, 30), (2024, 2, 1, 10)]);
}

#[test]
fn single_entries_are_summarised_too() {
    let summaries = summarize_per_day(vec![entry(3, 4, 25, "alone")], "fixed").unwrap();
    assert_eq!(shape(&summaries), vec![(3, 4, 25)]);
    assert_eq!(summaries[0].entry.description, "fixed");
    assert!(summaries[0].entry.tags.is_empty());
}

#[test]
fn nothing_is_summarised_to_nothing() {
    assert!(summarize_per_day(Vec::new(), "fixed").unwrap().is_empty());
}

#[test]
fn a_group_that_holds_too_many_minutes_is_refused() {
    let entries = vec![entry(1, 7, u32::MAX, "a"), entry(1, 8, 5, "b"), entry(1, 7, 1, "c")];
    assert!(summarize_per_day(entries, "s").is_none());
}

#[test]
fn a_group_may_fill_an_entry_to_the_brim() {
    let entries = vec![entry(1, 7, u32::MAX - 1, "a"), entry(2, 7, u32::MAX, "b"), entry(1, 7, 1, "c")];
    let summaries = summarize_per_day(entries, "s").unwrap();
    assert_eq!(shape(&summaries), vec![(1, 7, u32::MAX), (2, 7, u32::MAX)]);
}
