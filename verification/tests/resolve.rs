use uurlog_paymo::config::{TaskConfig, TaskTable};
use uurlog_paymo::date::Date;
use uurlog_paymo::entry::Entry;
use uurlog_paymo::hours::Hours;
use uurlog_paymo::resolve::{get_tasks_with_entries, resolve, ResolutionError};

fn table(tasks: &[(&str, u64)]) -> TaskTable {
    TaskTable {
        tasks: tasks.iter().map(|(name, id)| TaskConfig { name: name.to_string(), id: *id }).collect(),
    }
}

fn entry(tags: &[&str], description: &str) -> Entry {
    Entry {
        date: Date { year: 2024, month: 1, day: 1 },
        hours: Hours::from_minutes(60),
        tags: tags.iter().map(|t| t.to_string()).collect(),
        description: description.to_string(),
    }
}

#[test]
fn two_known_tags_are_ambiguous() {
    let table = table(&[("proj/a", 7), ("proj/b", 8)]);
    match resolve(&entry(&["proj/a", "proj/b"], "work"), &table) {
        Err(ResolutionError::Ambiguous { tag_a, tag_b }) => {
            assert_eq!(tag_a, "proj/a");
            assert_eq!(tag_b, "proj/b");
        }
        other => panic!("expected an ambiguous entry, got {:?}", other),
    }
}

#[test]
fn ambiguity_names_the_first_two_known_tags() {
    let table = table(&[("x", 1), ("y", 2), ("z", 3)]);
    match resolve(&entry(&["free", "z", "other", "x", "y"], "work"), &table) {
        Err(ResolutionError::Ambiguous { tag_a, tag_b }) => {
            assert_eq!(tag_a, "z");
            assert_eq!(tag_b, "x");
        }
        other => panic!("expected an ambiguous entry, got {:?}", other),
    }
}

#[test]
fn one_known_tag_gives_its_task() {
    let table = table(&[("proj/a", 7), ("proj/b", 8)]);
    assert!(matches!(resolve(&entry(&["urgent", "proj/b", "home"], "work"), &table), Ok(8)));
}

#[test]
fn no_known_tag_gives_no_task() {
    let table = table(&[("proj/a", 7)]);
    assert!(matches!(resolve(&entry(&["urgent"], "work"), &table), Err(ResolutionError::NoTask)));
    assert!(matches!(resolve(&entry(&[], "work"), &table), Err(ResolutionError::NoTask)));
    assert!(matches!(
        resolve(&entry(&["proj/a"], "work"), &TaskTable::new()),
        Err(ResolutionError::NoTask)
    ));
}

#[test]
fn tags_match_whole_and_exactly() {
    let table = table(&[("proj/a", 7)]);
    assert!(matches!(resolve(&entry(&["proj/A"], "w"), &table), Err(ResolutionError::NoTask)));
    assert!(matches!(resolve(&entry(&["proj/a "], "w"), &table), Err(ResolutionError::NoTask)));
    assert!(matches!(resolve(&entry(&["proj"], "w"), &table), Err(ResolutionError::NoTask)));
}

#[test]
fn resolution_succeeds_exactly_with_one_known_tag() {
    let table = table(&[("a", 1), ("b", 2), ("c", 3)]);
    let cases: Vec<Vec<&str>> = vec![
        vec![],
        vec!["a"],
        vec!["q"],
        vec!["a", "q"],
        vec!["q", "b"],
        vec!["a", "b"],
        vec!["c", "b", "a"],
        vec!["q", "r", "s"],
    ];
    for tags in cases {
        let known = tags.iter().filter(|t| ["a", "b", "c"].contains(*t)).count();
        let result = resolve(&entry(&tags, "w"), &table);
        assert_eq!(result.is_ok(), known == 1);
        assert_eq!(matches!(result, Err(ResolutionError::NoTask)), known == 0);
        assert_eq!(matches!(result, Err(ResolutionError::Ambiguous { .. })), known >= 2);
    }
}

#[test]
fn every_entry_is_attributed_in_order() {
    let table = table(&[("a", 1), ("b", 2)]);
    let entries = vec![entry(&["b"], "first"), entry(&["x", "a"], "second"), entry(&["b"], "third")];
    let resolved = get_tasks_with_entries(entries, &table).ok().unwrap();
    let found: Vec<(String, u64)> =
        resolved.iter().map(|r| (r.entry.description.clone(), r.task_id)).collect();
    assert_eq!(
        found,
        vec![("first".to_string(), 2), ("second".to_string(), 1), ("third".to_string(), 2)]
    );
    assert_eq!(resolved[1].entry.tags, vec!["x".to_string(), "a".to_string()]);
}

#[test]
fn first_entry_at_fault_stops_the_batch() {
    let table = table(&[("a", 1), ("b", 2)]);
    let entries = vec![
        entry(&["a"], "fine"),
        entry(&["none"], "lost"),
        entry(&["a", "b"], "torn"),
    ];
    let failure = get_tasks_with_entries(entries, &table).err().unwrap();
    assert_eq!(failure.entry.description, "lost");
    assert!(matches!(failure.error, ResolutionError::NoTask));

    let entries = vec![entry(&["a", "b"], "torn"), entry(&["none"], "lost")];
    let failure = get_tasks_with_entries(entries, &table).err().unwrap();
    assert_eq!(failure.entry.description, "torn");
    assert!(matches!(failure.error, ResolutionError::Ambiguous { .. }));
}

#[test]
fn no_entries_resolve_to_no_entries() {
    let resolved = get_tasks_with_entries(Vec::new(), &TaskTable::new()).ok().unwrap();
    assert!(resolved.is_empty());
}
