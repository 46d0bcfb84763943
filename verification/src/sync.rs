//! The order in which a plan is carried out.
//!
//! The driver decides what comes next; the caller does it and reports how it
//! went. All deletions come before all creations, each group in the order of
//! the plan, and the first failure ends the run.

use vstd::prelude::*;
use crate::reconcile::SyncPlan;

verus! {

/// One action of a plan.
#[derive(Clone, Copy, Debug, PartialEq, Eq, Structural)]
pub enum Action {
    /// Delete the remote entry with this identifier.
    Delete { id: u64 },
    /// Upload the entry at this position of the plan's creations.
    Create { index: usize },
}

/// How the remote call for an action went.
#[derive(Clone, Copy, Debug, PartialEq, Eq, Structural)]
pub enum Outcome {
    Succeeded,
    Failed,
}

/// What the caller has to do next.
#[derive(Clone, Copy, Debug, PartialEq, Eq, Structural)]
pub enum Next {
    /// Make the remote call for the action, then report its outcome.
    Perform(Action),
    /// Dry run: tell of the action, make no remote call, and report success.
    Report(Action),
    /// Every action has been taken.
    Finished,
    /// A remote call failed: the rest of the plan is left undone.
    Aborted,
}

/// How far a plan has been carried out.
#[derive(Clone, Copy, Debug)]
pub struct SyncRun {
    /// Whether the actions are only told of.
    pub dry_run: bool,
    /// The deletions that have been taken.
    pub deleted: usize,
    /// The creations that have been taken.
    pub created: usize,
    /// Whether a remote call has failed.
    pub failed: bool,
}

/// The actions of a plan, in the order in which they are taken.
pub open spec fn schedule(plan: SyncPlan) -> Seq<Action> {
    Seq::new(plan.deletes@.len(), |i: int| Action::Delete { id: plan.deletes@[i] }) + Seq::new(
        plan.creates@.len(),
        |i: int| Action::Create { index: i as usize },
    )
}

impl SyncRun {
    /// Whether the run is a state of carrying out `plan`: no creation is
    /// taken before every deletion has been.
    pub open spec fn wf(&self, plan: SyncPlan) -> bool {
        &&& self.deleted <= plan.deletes@.len()
        &&& self.created <= plan.creates@.len()
        &&& self.created > 0 ==> self.deleted == plan.deletes@.len()
    }

    /// The number of actions that have been taken.
    pub open spec fn taken(&self) -> int {
        self.deleted + self.created
    }

    /// The action that is due: the next deletion while one is left, then the
    /// next creation while one is left.
    pub open spec fn pending(&self, plan: SyncPlan) -> Option<Action> {
        if self.deleted < plan.deletes@.len() {
            Some(Action::Delete { id: plan.deletes@[self.deleted as int] })
        } else if self.created < plan.creates@.len() {
            Some(Action::Create { index: self.created })
        } else {
            None
        }
    }

    /// What the caller of a run in this state has to do next.
    pub open spec fn spec_next(&self, plan: SyncPlan) -> Next {
        if self.failed {
            Next::Aborted
        } else {
            match self.pending(plan) {
                None => Next::Finished,
                Some(action) => if self.dry_run {
                    Next::Report(action)
                } else {
                    Next::Perform(action)
                },
            }
        }
    }

    /// The run of a plan of which nothing has been done yet.
    pub fn new(dry_run: bool) -> (run: SyncRun)
        ensures
            run.dry_run == dry_run,
            run.deleted == 0,
            run.created == 0,
            !run.failed,
            forall|plan: SyncPlan| run.wf(plan),
    {
        SyncRun { dry_run, deleted: 0, created: 0, failed: false }
    }

    /// Decides what the caller has to do next.
    pub fn next(&self, plan: &SyncPlan) -> (next: Next)
        ensures
            next == self.spec_next(*plan),
    {
        if self.failed {
            Next::Aborted
        } else if self.deleted < plan.deletes.len() {
            let action = Action::Delete { id: plan.deletes[self.deleted] };
            if self.dry_run {
                Next::Report(action)
            } else {
                Next::Perform(action)
            }
        } else if self.created < plan.creates.len() {
            let action = Action::Create { index: self.created };
            if self.dry_run {
                Next::Report(action)
            } else {
                Next::Perform(action)
            }
        } else {
            Next::Finished
        }
    }

    /// Takes note of how the action that `next` gave went.
    ///
    /// A success moves the run on by one action. A failure aborts it. Where
    /// there was no action to take, nothing changes.
    pub fn record(&mut self, plan: &SyncPlan, outcome: Outcome)
        ensures
            old(self).wf(*plan) ==> final(self).wf(*plan),
            final(self).dry_run == old(self).dry_run,
            match old(self).spec_next(*plan) {
                Next::Finished | Next::Aborted => *final(self) == *old(self),
                Next::Perform(action) | Next::Report(action) => match outcome {
                    Outcome::Failed => {
                        &&& final(self).failed
                        &&& final(self).deleted == old(self).deleted
                        &&& final(self).created == old(self).created
                    },
                    Outcome::Succeeded => {
                        &&& !final(self).failed
                        &&& final(self).deleted == old(self).deleted + if action is Delete {
                            1int
                        } else {
                            0int
                        }
                        &&& final(self).created == old(self).created + if action is Create {
                            1int
                        } else {
                            0int
                        }
                    },
                },
            },
    {
        if self.failed {
            return ;
        }
        let pending_delete = self.deleted < plan.deletes.len();
        let pending_create = self.created < plan.creates.len();
        if !pending_delete && !pending_create {
            return ;
        }
        match outcome {
            Outcome::Failed => {
                self.failed = true;
            },
            Outcome::Succeeded => {
                if pending_delete {
                    self.deleted = self.deleted + 1;
                } else {
                    self.created = self.created + 1;
                }
            },
        }
    }
}

/// The actions come in the order of the schedule: in a well-formed run the
/// action that is due is the one at the position that the run has reached,
/// and none is due once the schedule is through.
pub proof fn law_run_follows_schedule(run: SyncRun, plan: SyncPlan)
    requires
        run.wf(plan),
    ensures
        run.taken() < schedule(plan).len() ==> run.pending(plan) == Some(
            schedule(plan)[run.taken()],
        ),
        run.taken() >= schedule(plan).len() ==> run.pending(plan) is None,
{
}

/// Deletions come first: while a deletion of the plan is still to be taken,
/// the next action is that deletion, and a creation comes only after all of them.
pub proof fn law_deletes_before_creates(plan: SyncPlan, position: int)
    requires
        0 <= position < schedule(plan).len(),
    ensures
        position < plan.deletes@.len() ==> schedule(plan)[position] == (Action::Delete {
            id: plan.deletes@[position],
        }),
        position >= plan.deletes@.len() ==> schedule(plan)[position] == (Action::Create {
            index: (position - plan.deletes@.len()) as usize,
        }),
{
}

} // verus!
