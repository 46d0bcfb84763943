use uurlog_paymo::config::{TaskConfig, TaskTable};
use uurlog_paymo::date::Date;
use uurlog_paymo::entry::{Entry, ResolvedEntry};
use uurlog_paymo::hours::Hours;
use uurlog_paymo::reconcile::reconcile;
use uurlog_paymo::resolve::get_tasks_with_entries;
use uurlog_paymo::types::TimeEntry;

fn local(minutes: u32, tags: &[&str], description: &str) -> Entry {
    Entry {
        date: Date { year: 2024, month: 1, day: 1 },
        hours: Hours::from_minutes(minutes),
        tags: tags.iter().map(|t| t.to_string()).collect(),
        description: description.to_string(),
    }
}

fn wanted(minutes: u32, description: &str, task_id: u64) -> ResolvedEntry {
    ResolvedEntry { entry: local(minutes, &[], description), task_id }
}

fn remote(id: u64, date: Option<&str>, duration: u32, description: &str) -> TimeEntry {
    TimeEntry {
        id,
        task_id: 7,
        user_id: 1,
        start_time: if date.is_none() { Some("2024-01-01T09:00:00Z".to_string()) } else { None },
        end_time: if date.is_none() { Some("2024-01-01T11:00:00Z".to_string()) } else { None },
        description: description.to_string(),
        added_manually: true,
        invoice_item_id: None,
        billed: false,
        is_bulk: date.is_some(),
        project_id: 3,
        duration,
        date: date.map(|d| d.to_string()),
        created_on: "2024-01-01T12:00:00Z".to_string(),
        updated_on: "2024-01-01T12:00:00Z".to_string(),
    }
}

fn keys(entries: &[ResolvedEntry]) -> Vec<(String, u64)> {
    entries.iter().map(|e| (e.entry.description.clone(), e.entry.hours.seconds())).collect()
}

#[test]
fn new_local_entry_is_created() {
    let table = TaskTable { tasks: vec![TaskConfig { name: "proj/a".to_string(), id: 7 }] };
    let entries = vec![local(120, &["proj/a"], "work")];
    let resolved = get_tasks_with_entries(entries, &table).ok().unwrap();
    let plan = reconcile(resolved, &Vec::new());
    assert!(plan.deletes.is_empty());
    assert_eq!(plan.creates.len(), 1);
    assert_eq!(plan.creates[0].task_id, 7);
    assert_eq!(plan.creates[0].entry.hours.total_minutes(), 120);
    assert_eq!(plan.creates[0].entry.hours.seconds(), 7200);
    assert_eq!(plan.creates[0].entry.description, "work");
    assert_eq!(plan.creates[0].entry.date, Date { year: 2024, month: 1, day: 1 });
}

#[test]
fn remote_entry_without_local_twin_is_deleted() {
    let existing = vec![remote(5, Some("2024-01-01"), 7200, "work")];
    let plan = reconcile(Vec::new(), &existing);
    assert!(plan.creates.is_empty());
    assert_eq!(plan.deletes, vec![5]);
}

#[test]
fn twin_entries_need_no_action() {
    let existing = vec![remote(5, Some("2024-01-01"), 7200, "work")];
    let plan = reconcile(vec![wanted(120, "work", 7)], &existing);
    assert!(plan.creates.is_empty());
    assert!(plan.deletes.is_empty());
}

#[test]
fn remote_entry_without_date_is_never_deleted() {
    let existing = vec![
        remote(1, None, 7200, "timed by hand"),
        remote(2, Some("2024-01-01"), 60, "stale"),
        remote(3, None, 60, "stale"),
    ];
    let plan = reconcile(Vec::new(), &existing);
    assert_eq!(plan.deletes, vec![2]);
    assert!(plan.creates.is_empty());
}

#[test]
fn remote_entry_without_date_takes_no_local_entry() {
    let existing = vec![remote(1, None, 7200, "work")];
    let plan = reconcile(vec![wanted(120, "work", 7)], &existing);
    assert!(plan.deletes.is_empty());
    assert_eq!(keys(&plan.creates), vec![("work".to_string(), 7200)]);
}

#[test]
fn match_needs_equal_description_and_exact_duration() {
    let existing = vec![
        remote(1, Some("2024-01-01"), 7200, "Work"),
        remote(2, Some("2024-01-01"), 7199, "work"),
    ];
    let plan = reconcile(vec![wanted(120, "work", 7)], &existing);
    assert_eq!(plan.deletes, vec![1, 2]);
    assert_eq!(keys(&plan.creates), vec![("work".to_string(), 7200)]);
}

#[test]
fn each_local_entry_is_taken_once() {
    let existing = vec![
        remote(1, Some("2024-01-01"), 3600, "work"),
        remote(2, Some("2024-01-01"), 3600, "work"),
        remote(3, Some("2024-01-01"), 3600, "work"),
    ];
    let desired = vec![wanted(60, "work", 7), wanted(60, "work", 8)];
    let plan = reconcile(desired, &existing);
    assert_eq!(plan.deletes, vec![3]);
    assert!(plan.creates.is_empty());
}

#[test]
fn first_free_local_entry_is_the_one_taken() {
    let existing = vec![remote(1, Some("2024-01-01"), 3600, "work")];
    let desired = vec![
        wanted(30, "other", 1),
        wanted(60, "work", 2),
        wanted(60, "work", 3),
    ];
    let plan = reconcile(desired, &existing);
    assert!(plan.deletes.is_empty());
    let left: Vec<u64> = plan.creates.iter().map(|e| e.task_id).collect();
    assert_eq!(left, vec![1, 3]);
}

#[test]
fn creations_keep_the_local_order() {
    let desired = vec![wanted(10, "c", 1), wanted(20, "a", 2), wanted(30, "b", 3)];
    let plan = reconcile(desired, &Vec::new());
    assert_eq!(
        keys(&plan.creates),
        vec![("c".to_string(), 600), ("a".to_string(), 1200), ("b".to_string(), 1800)]
    );
}

#[test]
fn long_durations_are_compared_without_wrapping() {
    // 71582789 minutes are 4294967340 seconds, which is 44 more than a u32 holds.
    let existing = vec![remote(1, Some("2024-01-01"), 44, "work")];
    let plan = reconcile(vec![wanted(71_582_789, "work", 7)], &existing);
    assert_eq!(plan.deletes, vec![1]);
    assert_eq!(keys(&plan.creates), vec![("work".to_string(), 4_294_967_340)]);
}

#[test]
fn kept_and_created_entries_carry_the_keys_of_the_local_entries() {
    let existing = vec![
        remote(1, Some("2024-01-01"), 3600, "a"),
        remote(2, Some("2024-01-01"), 3600, "gone"),
        remote(3, None, 3600, "a"),
        remote(4, Some("2024-01-01"), 1800, "b"),
    ];
    let desired = vec![wanted(60, "a", 1), wanted(60, "a", 1), wanted(30, "b", 2), wanted(5, "c", 3)];
    let mut expected = keys(&desired);
    let plan = reconcile(desired, &existing);
    let mut found: Vec<(String, u64)> = existing
        .iter()
        .filter(|r| r.date.is_some() && !plan.deletes.contains(&r.id))
        .map(|r| (r.description.clone(), r.duration as u64))
        .collect();
    found.extend(keys(&plan.creates));
    found.sort();
    expected.sort();
    assert_eq!(found, expected);
}

#[test]
fn second_run_after_a_sync_plans_nothing() {
    let existing = vec![
        remote(1, Some("2024-01-01"), 3600, "a"),
        remote(2, Some("2024-01-01"), 3600, "gone"),
        remote(3, None, 3600, "by hand"),
    ];
    let desired = || vec![wanted(60, "a", 1), wanted(30, "b", 2), wanted(30, "b", 2)];
    let plan = reconcile(desired(), &existing);
    assert_eq!(plan.deletes, vec![2]);
    assert_eq!(plan.creates.len(), 2);
    let mut after: Vec<TimeEntry> =
        existing.into_iter().filter(|r| !plan.deletes.contains(&r.id)).collect();
    for (n, created) in plan.creates.iter().enumerate() {
        after.push(remote(
            100 + n as u64,
            Some("2024-01-01"),
            created.entry.hours.seconds() as u32,
            &created.entry.description,
        ));
    }
    let again = reconcile(desired(), &after);
    assert!(again.creates.is_empty());
    assert!(again.deletes.is_empty());
}

#[test]
fn empty_inputs_give_the_empty_plan() {
    let plan = reconcile(Vec::new(), &Vec::new());
    assert!(plan.creates.is_empty());
    assert!(plan.deletes.is_empty());
}
