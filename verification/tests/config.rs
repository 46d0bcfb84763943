use uurlog_paymo::config::{Config, GeneralConfig, TaskConfig, TaskTable};

fn config(tasks: &[(&str, u64)]) -> Config {
    Config {
        general: GeneralConfig { token: "token".to_string(), summarize_per_day: None },
        tasks: tasks.iter().map(|(name, id)| TaskConfig { name: name.to_string(), id: *id }).collect(),
    }
}

#[test]
fn tasks_with_distinct_names_make_a_table() {
    let table = config(&[("proj/a", 7), ("proj/b", 8), ("other", 7)]).task_ids().ok().unwrap();
    let found: Vec<(String, u64)> = table.tasks.iter().map(|t| (t.name.clone(), t.id)).collect();
    assert_eq!(
        found,
        vec![("proj/a".to_string(), 7), ("proj/b".to_string(), 8), ("other".to_string(), 7)]
    );
    assert_eq!(table.get(&"proj/b".to_string()), Some(8));
    assert_eq!(table.get(&"other".to_string()), Some(7));
    assert_eq!(table.get(&"proj".to_string()), None);
}

#[test]
fn no_tasks_make_the_empty_table() {
    let table = config(&[]).task_ids().ok().unwrap();
    assert!(table.tasks.is_empty());
    assert_eq!(table.get(&"proj/a".to_string()), None);
}

#[test]
fn a_repeated_name_is_refused() {
    assert_eq!(config(&[("a", 1), ("b", 2), ("a", 3)]).task_ids().err(), Some("a".to_string()));
    assert_eq!(config(&[("a", 1), ("a", 1)]).task_ids().err(), Some("a".to_string()));
}

#[test]
fn the_first_repeat_is_the_one_reported() {
    let result = config(&[("a", 1), ("b", 2), ("c", 3), ("b", 4), ("a", 5)]).task_ids();
    assert_eq!(result.err(), Some("b".to_string()));
}

#[test]
fn insert_adds_new_names_only() {
    let mut table = TaskTable::new();
    assert!(table.insert("a".to_string(), 1));
    assert!(table.insert("b".to_string(), 2));
    assert!(!table.insert("a".to_string(), 3));
    assert_eq!(table.tasks.len(), 2);
    assert_eq!(table.get(&"a".to_string()), Some(1));
    assert_eq!(table.get(&"b".to_string()), Some(2));
}
