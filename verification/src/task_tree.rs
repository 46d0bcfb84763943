//! The tree of clients, projects and tasks, as lines of text.
//!
//! A client comes with its projects below it, and a project with its tasks
//! that are not complete. Clients without a project are left out.

use std::collections::BTreeMap;
use vstd::prelude::*;
use vstd::string::StringExecFns;
use crate::index::are_keys_of;
use crate::index::index_by;
use crate::index::is_index_of;
use crate::index::items_with_key;
use crate::index::lemma_absent_key;
use crate::listing::sort_clients;
use crate::listing::sorted_by_name;
use crate::text::decimal;
use crate::text::push_decimal;
use crate::text::texts;
use crate::types::Client;
use crate::types::Project;
use crate::types::Task;

verus! {

broadcast use vstd::std_specs::btree::group_btree_axioms;

/// A line of the tree: the indentation, the name, and the identifier in brackets.
pub open spec fn labelled(indent: Seq<char>, name: Seq<char>, id: u64) -> Seq<char> {
    indent + name + " ("@ + decimal(id as nat) + ")"@
}

/// The lines of the tasks of `tasks` that are not complete.
pub open spec fn open_task_lines(tasks: Seq<Task>) -> Seq<Seq<char>>
    decreases tasks.len(),
{
    if tasks.len() == 0 {
        Seq::empty()
    } else {
        let rest = open_task_lines(tasks.drop_last());
        if tasks.last().complete {
            rest
        } else {
            rest.push(labelled("    "@, tasks.last().name@, tasks.last().id))
        }
    }
}

/// The tasks of `tasks` that belong to the project `project`, in order.
pub open spec fn tasks_of(tasks: Seq<Task>, project: u64) -> Seq<Task> {
    items_with_key(tasks, tasks.map_values(|t: Task| t.project_id), project)
}

/// The projects of `projects` that belong to the client `client`, in order.
pub open spec fn projects_of(projects: Seq<Project>, client: u64) -> Seq<Project> {
    items_with_key(projects, projects.map_values(|p: Project| p.client_id), client)
}

/// The lines of the projects `projects`, each followed by the lines of its
/// tasks among `tasks` that are not complete.
pub open spec fn project_lines(projects: Seq<Project>, tasks: Seq<Task>) -> Seq<Seq<char>>
    decreases projects.len(),
{
    if projects.len() == 0 {
        Seq::empty()
    } else {
        let project = projects.last();
        project_lines(projects.drop_last(), tasks).push(
            labelled("  "@, project.name@, project.id),
        ) + open_task_lines(tasks_of(tasks, project.id))
    }
}

/// The lines of the clients `clients` that have a project among `projects`,
/// each followed by the lines of its projects.
pub open spec fn client_lines(clients: Seq<Client>, projects: Seq<Project>, tasks: Seq<Task>) -> Seq<
    Seq<char>,
>
    decreases clients.len(),
{
    if clients.len() == 0 {
        Seq::empty()
    } else {
        let client = clients.last();
        let rest = client_lines(clients.drop_last(), projects, tasks);
        let own = projects_of(projects, client.id);
        if own.len() == 0 {
            rest
        } else {
            rest.push(labelled(""@, client.name@, client.id)) + project_lines(own, tasks)
        }
    }
}

/// The tree of the clients in the order of their names.
pub open spec fn tree_lines(clients: Seq<Client>, projects: Seq<Project>, tasks: Seq<Task>) -> Seq<
    Seq<char>,
> {
    client_lines(sorted_by_name(clients), projects, tasks)
}

/// Writes one line of the tree.
fn label(indent: &str, name: &str, id: u64) -> (line: String)
    ensures
        line@ == labelled(indent@, name@, id),
{
    let mut line = indent.to_owned();
    line.append(name);
    line.append(" (");
    push_decimal(&mut line, id);
    line.append(")");
    line
}

/// The client that a project belongs to.
fn client_of(project: &Project) -> (id: u64)
    ensures
        id == project.client_id,
{
    project.client_id
}

/// The project that a task belongs to.
fn project_of(task: &Task) -> (id: u64)
    ensures
        id == task.project_id,
{
    task.project_id
}

/// Appends the lines of the tasks of `tasks` that are not complete.
fn push_task_lines(lines: &mut Vec<String>, tasks: &Vec<Task>)
    ensures
        texts(final(lines)@) == texts(old(lines)@) + open_task_lines(tasks@),
{
    let mut at: usize = 0;
    assert(texts(lines@) + open_task_lines(tasks@.take(0)) == texts(lines@));
    while at < tasks.len()
        invariant
            at <= tasks.len(),
            texts(lines@) == texts(old(lines)@) + open_task_lines(tasks@.take(at as int)),
        decreases tasks.len() - at,
    {
        let task = &tasks[at];
        proof {
            assert(tasks@.take(at + 1).drop_last() == tasks@.take(at as int));
        }
        if !task.complete {
            let ghost before = lines@;
            let line = label("    ", task.name.as_str(), task.id);
            lines.push(line);
            assert(texts(lines@) == texts(before).push(line@));
        }
        at += 1;
    }
    assert(tasks@.take(at as int) == tasks@);
}

/// Lists the clients in the order of their names, each with its projects
/// and their tasks that are not complete.
pub fn list_tasks(clients: Vec<Client>, projects: Vec<Project>, tasks: Vec<Task>) -> (lines: Vec<
    String,
>)
    ensures
        texts(lines@) == tree_lines(clients@, projects@, tasks@),
{
    let sorted = sort_clients(clients);
    let ghost all_projects = projects@;
    let ghost all_tasks = tasks@;
    let projects_by_client_id = index_by(projects, client_of);
    let tasks_by_project_id = index_by(tasks, project_of);
    proof {
        let keys = choose|keys: Seq<u64>|
            are_keys_of(keys, all_projects, client_of) && is_index_of(
                projects_by_client_id@,
                all_projects,
                keys,
            );
        assert(keys == all_projects.map_values(|p: Project| p.client_id));
        let keys = choose|keys: Seq<u64>|
            are_keys_of(keys, all_tasks, project_of) && is_index_of(
                tasks_by_project_id@,
                all_tasks,
                keys,
            );
        assert(keys == all_tasks.map_values(|t: Task| t.project_id));
    }
    let ghost project_keys = all_projects.map_values(|p: Project| p.client_id);
    let ghost task_keys = all_tasks.map_values(|t: Task| t.project_id);
    let mut lines: Vec<String> = Vec::new();
    let mut at: usize = 0;
    assert(texts(lines@) == client_lines(sorted@.take(0), all_projects, all_tasks));
    while at < sorted.len()
        invariant
            at <= sorted.len(),
            project_keys == all_projects.map_values(|p: Project| p.client_id),
            task_keys == all_tasks.map_values(|t: Task| t.project_id),
            is_index_of(projects_by_client_id@, all_projects, project_keys),
            is_index_of(tasks_by_project_id@, all_tasks, task_keys),
            texts(lines@) == client_lines(sorted@.take(at as int), all_projects, all_tasks),
        decreases sorted.len() - at,
    {
        let client = &sorted[at];
        proof {
            assert(sorted@.take(at + 1).drop_last() == sorted@.take(at as int));
            if !project_keys.contains(client.id) {
                lemma_absent_key(all_projects, project_keys, client.id);
            }
        }
        match projects_by_client_id.get(&client.id) {
            None => {},
            Some(own) => {
                proof {
                    lemma_some_items(all_projects, project_keys, client.id);
                }
                let ghost before = lines@;
                let line = label("", client.name.as_str(), client.id);
                lines.push(line);
                assert(texts(lines@) == texts(before).push(line@));
                let ghost above = texts(lines@);
                let mut below: usize = 0;
                assert(above + project_lines(own@.take(0), all_tasks) == above);
                while below < own.len()
                    invariant
                        below <= own.len(),
                        task_keys == all_tasks.map_values(|t: Task| t.project_id),
                        is_index_of(tasks_by_project_id@, all_tasks, task_keys),
                        texts(lines@) == above + project_lines(own@.take(below as int), all_tasks),
                    decreases own.len() - below,
                {
                    let project = &own[below];
                    proof {
                        assert(own@.take(below + 1).drop_last() == own@.take(below as int));
                        if !task_keys.contains(project.id) {
                            lemma_absent_key(all_tasks, task_keys, project.id);
                        }
                    }
                    let ghost before = lines@;
                    let line = label("  ", project.name.as_str(), project.id);
                    lines.push(line);
                    assert(texts(lines@) == texts(before).push(line@));
                    let ghost headed = texts(lines@);
                    match tasks_by_project_id.get(&project.id) {
                        None => {
                            assert(headed + open_task_lines(tasks_of(all_tasks, project.id))
                                == headed);
                        },
                        Some(of_project) => {
                            push_task_lines(&mut lines, of_project);
                        },
                    }
                    proof {
                        let sofar = project_lines(own@.take(below as int), all_tasks);
                        let tail = open_task_lines(tasks_of(all_tasks, project.id));
                        assert(texts(lines@) == (above + sofar).push(line@) + tail);
                        assert((above + sofar).push(line@) + tail == above + (sofar.push(line@)
                            + tail));
                    }
                    below += 1;
                }
                proof {
                    assert(own@.take(below as int) == own@);
                    let rest = client_lines(sorted@.take(at as int), all_projects, all_tasks);
                    assert(above + project_lines(own@, all_tasks) == rest.push(line@)
                        + project_lines(own@, all_tasks));
                }
            },
        }
        at += 1;
    }
    assert(sorted@.take(at as int) == sorted@);
    lines
}

/// A key that an item has gathers at least that item.
proof fn lemma_some_items<T>(items: Seq<T>, keys: Seq<u64>, key: u64)
    requires
        keys.len() == items.len(),
        keys.contains(key),
    ensures
        items_with_key(items, keys, key).len() > 0,
    decreases items.len(),
{
    if items.len() > 0 {
        if keys.last() != key {
            let fewer = keys.drop_last();
            let i = choose|i: int| 0 <= i < keys.len() && keys[i] == key;
            assert(fewer[i] == key);
            lemma_some_items(items.drop_last(), fewer, key);
        }
    }
}

} // verus!
