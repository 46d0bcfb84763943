use uurlog_paymo::date::Date;
use uurlog_paymo::entry::{Entry, ResolvedEntry};
use uurlog_paymo::hours::Hours;
use uurlog_paymo::reconcile::SyncPlan;
use uurlog_paymo::sync::{Action, Next, Outcome, SyncRun};

fn wanted(description: &str) -> ResolvedEntry {
    ResolvedEntry {
        entry: Entry {
            date: Date { year: 2024, month: 1, day: 1 },
            hours: Hours::from_minutes(60),
            tags: Vec::new(),
            description: description.to_string(),
        },
        task_id: 7,
    }
}

fn plan() -> SyncPlan {
    SyncPlan { creates: vec![wanted("a"), wanted("b")], deletes: vec![5, 9, 5] }
}

fn steps(dry_run: bool, fail_at: Option<usize>) -> Vec<Next> {
    let plan = plan();
    let mut run = SyncRun::new(dry_run);
    let mut seen = Vec::new();
    loop {
        let next = run.next(&plan);
        seen.push(next);
        match next {
            Next::Finished | Next::Aborted => return seen,
            Next::Perform(_) | Next::Report(_) => {
                let outcome =
                    if fail_at == Some(seen.len() - 1) { Outcome::Failed } else { Outcome::Succeeded };
                run.record(&plan, outcome);
            }
        }
    }
}

#[test]
fn deletions_come_before_creations() {
    assert_eq!(
        steps(false, None),
        vec![
            Next::Perform(Action::Delete { id: 5 }),
            Next::Perform(Action::Delete { id: 9 }),
            Next::Perform(Action::Delete { id: 5 }),
            Next::Perform(Action::Create { index: 0 }),
            Next::Perform(Action::Create { index: 1 }),
            Next::Finished,
        ]
    );
}

#[test]
fn a_dry_run_only_tells_of_the_actions() {
    assert_eq!(
        steps(true, None),
        vec![
            Next::Report(Action::Delete { id: 5 }),
            Next::Report(Action::Delete { id: 9 }),
            Next::Report(Action::Delete { id: 5 }),
            Next::Report(Action::Create { index: 0 }),
            Next::Report(Action::Create { index: 1 }),
            Next::Finished,
        ]
    );
}

#[test]
fn a_failed_deletion_ends_the_run() {
    assert_eq!(
        steps(false, Some(1)),
        vec![
            Next::Perform(Action::Delete { id: 5 }),
            Next::Perform(Action::Delete { id: 9 }),
            Next::Aborted,
        ]
    );
}

#[test]
fn a_failed_creation_ends_the_run() {
    let seen = steps(false, Some(3));
    assert_eq!(seen.len(), 5);
    assert_eq!(seen[3], Next::Perform(Action::Create { index: 0 }));
    assert_eq!(seen[4], Next::Aborted);
}

#[test]
fn an_aborted_run_stays_aborted() {
    let plan = plan();
    let mut run = SyncRun::new(false);
    run.record(&plan, Outcome::Failed);
    assert_eq!(run.next(&plan), Next::Aborted);
    run.record(&plan, Outcome::Succeeded);
    assert_eq!(run.next(&plan), Next::Aborted);
    assert_eq!((run.deleted, run.created, run.failed), (0, 0, true));
}

#[test]
fn a_finished_run_stays_finished() {
    let plan = SyncPlan { creates: Vec::new(), deletes: Vec::new() };
    let mut run = SyncRun::new(false);
    assert_eq!(run.next(&plan), Next::Finished);
    run.record(&plan, Outcome::Failed);
    run.record(&plan, Outcome::Succeeded);
    assert_eq!(run.next(&plan), Next::Finished);
    assert_eq!((run.deleted, run.created, run.failed), (0, 0, false));
}

#[test]
fn asking_again_gives_the_same_step() {
    let plan = plan();
    let run = SyncRun::new(false);
    assert_eq!(run.next(&plan), run.next(&plan));
    assert_eq!(run.next(&plan), Next::Perform(Action::Delete { id: 5 }));
}
