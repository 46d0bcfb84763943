//! The configuration of a synchronisation run and the table of named tasks.

use vstd::prelude::*;

verus! {

/// The whole configuration.
#[derive(Debug)]
pub struct Config {
    pub general: GeneralConfig,
    pub tasks: Vec<TaskConfig>,
}

/// The settings that do not belong to one task.
#[derive(Debug)]
pub struct GeneralConfig {
    /// The token that authenticates the user to the remote service.
    pub token: String,
    /// The description under which the entries of one day and task are merged, if they are.
    pub summarize_per_day: Option<String>,
}

/// A tag of the hour log and the remote task that it stands for.
#[derive(Debug)]
pub struct TaskConfig {
    pub name: String,
    pub id: u64,
}

/// The tasks by name. No two tasks of a well-formed table share a name.
#[derive(Debug)]
pub struct TaskTable {
    pub tasks: Vec<TaskConfig>,
}

/// The names of `tasks`, in order.
pub open spec fn task_names(tasks: Seq<TaskConfig>) -> Seq<Seq<char>> {
    tasks.map_values(|t: TaskConfig| t.name@)
}

/// The identifiers of `tasks`, in order.
pub open spec fn task_ids_of(tasks: Seq<TaskConfig>) -> Seq<u64> {
    tasks.map_values(|t: TaskConfig| t.id)
}

/// Whether `at` is the first position of `names` whose name occurs earlier in `names` too.
pub open spec fn is_first_repeat(names: Seq<Seq<char>>, at: int) -> bool {
    &&& 0 <= at < names.len()
    &&& names.take(at).no_duplicates()
    &&& names.take(at).contains(names[at])
}

/// The position of the first `name` in `names`, or the length of `names` if there is none.
pub open spec fn position_of(names: Seq<Seq<char>>, name: Seq<char>) -> int
    decreases names.len(),
{
    if names.len() == 0 || names[0] == name {
        0
    } else {
        1 + position_of(names.drop_first(), name)
    }
}

/// `position_of` is the least position of the name, and the length where the name is missing.
pub proof fn lemma_position_of(names: Seq<Seq<char>>, name: Seq<char>)
    ensures
        0 <= position_of(names, name) <= names.len(),
        forall|i: int| 0 <= i < position_of(names, name) ==> names[i] != name,
        position_of(names, name) < names.len() ==> names[position_of(names, name)] == name,
        position_of(names, name) < names.len() <==> names.contains(name),
    decreases names.len(),
{
    if !(names.len() == 0 || names[0] == name) {
        let tail = names.drop_first();
        lemma_position_of(tail, name);
        assert forall|i: int| 0 <= i < position_of(names, name) implies names[i] != name by {
            if i > 0 {
                assert(names[i] == tail[i - 1]);
            }
        }
        let at = position_of(tail, name);
        if at < tail.len() {
            assert(names[at + 1] == tail[at]);
        }
        if names.contains(name) {
            let i = choose|i: int| 0 <= i < names.len() && names[i] == name;
            assert(tail[i - 1] == name);
        }
    } else if names.len() > 0 {
        assert(names[0] == name);
    }
}

impl TaskTable {
    /// Whether no two tasks share a name.
    pub open spec fn wf(&self) -> bool {
        task_names(self.tasks@).no_duplicates()
    }

    /// The table as a map from names to task identifiers. Should a name
    /// stand in the table more than once, its first task counts.
    pub open spec fn view(&self) -> Map<Seq<char>, u64> {
        Map::new(
            |name: Seq<char>| task_names(self.tasks@).contains(name),
            |name: Seq<char>| self.tasks@[position_of(task_names(self.tasks@), name)].id,
        )
    }

    /// The table without tasks.
    pub fn new() -> (table: TaskTable)
        ensures
            table.wf(),
            table.tasks@.len() == 0,
            table@ == Map::<Seq<char>, u64>::empty(),
    {
        let table = TaskTable { tasks: Vec::new() };
        assert(table@ =~= Map::<Seq<char>, u64>::empty());
        table
    }

    /// The identifier of the task named `name`, if the table holds one.
    pub fn get(&self, name: &String) -> (id: Option<u64>)
        ensures
            id == if self@.dom().contains(name@) {
                Some(self@[name@])
            } else {
                None
            },
    {
        let ghost names = task_names(self.tasks@);
        proof {
            lemma_position_of(names, name@);
        }
        let mut at: usize = 0;
        while at < self.tasks.len()
            invariant
                at <= self.tasks.len(),
                names == task_names(self.tasks@),
                forall|i: int| 0 <= i < at ==> names[i] != name@,
            decreases self.tasks.len() - at,
        {
            if self.tasks[at].name == *name {
                proof {
                    assert(names[at as int] == name@);
                    lemma_position_of(names, name@);
                }
                return Some(self.tasks[at].id);
            }
            assert(names[at as int] != name@);
            at += 1;
        }
        proof {
            if names.contains(name@) {
                let i = choose|i: int| 0 <= i < names.len() && names[i] == name@;
            }
        }
        None
    }

    /// Adds the task `name` with the identifier `id`, unless the table holds a task of that name.
    ///
    /// Returns whether the task was added.
    pub fn insert(&mut self, name: String, id: u64) -> (added: bool)
        ensures
            old(self).wf() ==> final(self).wf(),
            added == !old(self)@.dom().contains(name@),
            added ==> final(self).tasks@ == old(self).tasks@.push(TaskConfig { name, id }),
            added ==> final(self)@ == old(self)@.insert(name@, id),
            !added ==> *final(self) == *old(self),
    {
        if self.get(&name).is_some() {
            return false;
        }
        let ghost before = self.tasks@;
        let ghost key = name@;
        self.tasks.push(TaskConfig { name, id });
        proof {
            let names = task_names(before);
            let after = task_names(self.tasks@);
            assert(after == names.push(key));
            assert(after[names.len() as int] == key);
            assert forall|k: Seq<char>| self@.dom().contains(k) <==> old(self)@.insert(
                key,
                id,
            ).dom().contains(k) by {
                if names.contains(k) {
                    let i = choose|i: int| 0 <= i < names.len() && names[i] == k;
                    assert(after[i] == k);
                }
                if after.contains(k) && k != key {
                    let i = choose|i: int| 0 <= i < after.len() && after[i] == k;
                    assert(names[i] == k);
                }
            }
            assert forall|k: Seq<char>| self@.dom().contains(k) implies self@[k] == old(
                self,
            )@.insert(key, id)[k] by {
                lemma_position_of(after, k);
                lemma_position_of(names, k);
                let i = position_of(after, k);
                if k == key {
                    if i < names.len() {
                        assert(names[i] == after[i]);
                        assert(names.contains(key));
                    }
                } else {
                    assert(names[i] == k);
                    let j = position_of(names, k);
                    assert(after[j] == k);
                    if i < j {
                        assert(names[i] == after[i]);
                    }
                }
            }
            assert(self@ =~= old(self)@.insert(key, id));
        }
        true
    }
}

impl Config {
    /// The table of the configured tasks by name.
    ///
    /// Fails where two tasks share a name, with the name of the first task
    /// that repeats an earlier one.
    pub fn task_ids(&self) -> (result: Result<TaskTable, String>)
        ensures
            match result {
                Ok(table) => {
                    &&& task_names(self.tasks@).no_duplicates()
                    &&& table.wf()
                    &&& task_names(table.tasks@) == task_names(self.tasks@)
                    &&& task_ids_of(table.tasks@) == task_ids_of(self.tasks@)
                },
                Err(name) => exists|at: int|
                    is_first_repeat(task_names(self.tasks@), at) && name@ == #[trigger] task_names(
                        self.tasks@,
                    )[at],
            },
    {
        let mut table = TaskTable::new();
        let ghost names = task_names(self.tasks@);
        let mut at: usize = 0;
        while at < self.tasks.len()
            invariant
                at <= self.tasks.len(),
                names == task_names(self.tasks@),
                table.wf(),
                task_names(table.tasks@) == names.take(at as int),
                task_ids_of(table.tasks@) == task_ids_of(self.tasks@).take(at as int),
            decreases self.tasks.len() - at,
        {
            let task = &self.tasks[at];
            let name = task.name.clone();
            assert(name@ == names[at as int]);
            let ghost before = table.tasks@;
            if !table.insert(name, task.id) {
                proof {
                    assert(is_first_repeat(names, at as int));
                }
                return Err(task.name.clone());
            }
            proof {
                assert(task_names(table.tasks@) == task_names(before).push(names[at as int]));
                assert(names.take(at + 1) == names.take(at as int).push(names[at as int]));
                assert(task_ids_of(table.tasks@) == task_ids_of(before).push(task.id));
                assert(task_ids_of(self.tasks@).take(at + 1) == task_ids_of(self.tasks@).take(
                    at as int,
                ).push(task.id));
            }
            at += 1;
        }
        proof {
            assert(names.take(at as int) == names);
            assert(task_ids_of(self.tasks@).take(at as int) == task_ids_of(self.tasks@));
        }
        Ok(table)
    }
}

} // verus!
