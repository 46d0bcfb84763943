use uurlog_paymo::index::index_by;
use uurlog_paymo::listing::{comes_before, sort_clients};
use uurlog_paymo::task_tree::list_tasks;
use uurlog_paymo::types::{Client, Project, Task};

fn client(id: u64, name: &str) -> Client {
    Client {
        id,
        name: name.to_string(),
        address: None,
        city: None,
        state: None,
        postal_code: None,
        country: None,
        phone: None,
        fax: None,
        email: None,
        website: None,
        image: None,
        fiscal_information: None,
        active: true,
        created_on: "2024-01-01T00:00:00Z".to_string(),
        updated_on: "2024-01-01T00:00:00Z".to_string(),
    }
}

fn project(id: u64, name: &str, client_id: u64) -> Project {
    Project { id, name: name.to_string(), client_id, active: true }
}

fn task(id: u64, name: &str, project_id: u64, complete: bool) -> Task {
    Task { id, name: name.to_string(), project_id, complete }
}

#[test]
fn names_are_ordered_as_strings_are() {
    let names = ["", "a", "A", "ab", "b", "Zebra", "zebra", "é", "e", "ez", "\u{10000}", "\u{ffff}", "a\u{0}", "a b"];
    for a in names {
        for b in names {
            assert_eq!(comes_before(a, b), a < b, "{:?} {:?}", a, b);
        }
    }
}

#[test]
fn clients_are_sorted_by_name() {
    let sorted = sort_clients(vec![client(1, "delta"), client(2, "Alpha"), client(3, "charlie"), client(4, "bravo")]);
    let ids: Vec<u64> = sorted.iter().map(|c| c.id).collect();
    assert_eq!(ids, vec![2, 4, 3, 1]);
}

#[test]
fn clients_of_one_name_keep_their_order() {
    let sorted = sort_clients(vec![
        client(1, "b"),
        client(2, "a"),
        client(3, "b"),
        client(4, "a"),
        client(5, "b"),
        client(6, ""),
    ]);
    let ids: Vec<u64> = sorted.iter().map(|c| c.id).collect();
    assert_eq!(ids, vec![6, 2, 4, 1, 3, 5]);
    assert!(sort_clients(Vec::new()).is_empty());
}

#[test]
fn sorting_agrees_with_the_standard_stable_sort() {
    let names = ["m", "ä", "a", "Z", "m", "", "zz", "a", "ä", "M"];
    let clients: Vec<Client> = names.iter().enumerate().map(|(i, n)| client(i as u64, n)).collect();
    let mut expected: Vec<(String, u64)> = clients.iter().map(|c| (c.name.clone(), c.id)).collect();
    expected.sort_by(|a, b| a.0.cmp(&b.0));
    let sorted: Vec<(String, u64)> = sort_clients(clients).into_iter().map(|c| (c.name, c.id)).collect();
    assert_eq!(sorted, expected);
}

#[test]
fn an_index_gathers_the_items_of_each_key_in_order() {
    let index = index_by(vec![(3u64, 'a'), (1, 'b'), (3, 'c'), (2, 'd'), (1, 'e'), (3, 'f')], |x: &(u64, char)| x.0);
    assert_eq!(index.len(), 3);
    assert_eq!(index[&1], vec![(1, 'b'), (1, 'e')]);
    assert_eq!(index[&2], vec![(2, 'd')]);
    assert_eq!(index[&3], vec![(3, 'a'), (3, 'c'), (3, 'f')]);
    assert!(index.get(&4).is_none());
    let keys: Vec<u64> = index.keys().copied().collect();
    assert_eq!(keys, vec![1, 2, 3]);
}

#[test]
fn an_index_of_nothing_is_empty() {
    let index = index_by(Vec::<u64>::new(), |x: &u64| *x);
    assert!(index.is_empty());
}

#[test]
fn the_tree_lists_clients_projects_and_open_tasks() {
    let clients = vec![client(2, "Zeta"), client(1, "Acme"), client(3, "Idle")];
    let projects = vec![
        project(20, "Website", 2),
        project(10, "Audit", 1),
        project(11, "Books", 1),
        project(40, "Orphan", 9),
    ];
    let tasks = vec![
        task(100, "Design", 20, false),
        task(101, "Count", 10, false),
        task(102, "Done already", 10, true),
        task(103, "Review", 10, false),
        task(104, "Build", 20, false),
        task(105, "Nobody's", 77, false),
    ];
    let lines = list_tasks(clients, projects, tasks);
    assert_eq!(
        lines,
        vec![
            "Acme (1)",
            "  Audit (10)",
            "    Count (101)",
            "    Review (103)",
            "  Books (11)",
            "Zeta (2)",
            "  Website (20)",
            "    Design (100)",
            "    Build (104)",
        ]
    );
}

#[test]
fn the_tree_of_nothing_is_empty() {
    assert!(list_tasks(Vec::new(), Vec::new(), Vec::new()).is_empty());
    assert!(list_tasks(vec![client(1, "Acme")], Vec::new(), vec![task(1, "t", 1, false)]).is_empty());
}

#[test]
fn a_project_whose_tasks_are_all_complete_is_still_listed() {
    let lines = list_tasks(
        vec![client(1, "Acme")],
        vec![project(10, "Audit", 1)],
        vec![task(100, "Count", 10, true)],
    );
    assert_eq!(lines, vec!["Acme (1)", "  Audit (10)"]);
}
