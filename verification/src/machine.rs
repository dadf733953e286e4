//! The cascade as a step machine: a driver performs each storage action
//! against the real database and reports its outcome; the machine decides
//! what comes next. Every decision of the deletion sequence lives here,
//! so a driver only moves data back and forth.

use vstd::prelude::*;

verus! {

/// The operation the driver must perform next.
#[derive(Clone, Copy, PartialEq, Eq, Structural, Debug)]
pub enum Action {
    /// Query the identifiers of the organizations the user owns.
    FindOwnedOrgs,
    /// Delete every issue of this organization.
    DeleteIssuesOf(u64),
    /// Delete this organization's record.
    DeleteOrg(u64),
    /// Withdraw the user from every organization's member list.
    PullMembership,
    /// Delete the user record.
    DeleteUser,
    /// Answer with the fixed success acknowledgment.
    RespondOk,
    /// Answer with the collapsed database-failure report.
    RespondDbError,
}

/// What the driver reports after performing an action.
#[derive(Debug)]
pub enum Event {
    /// The owned-organization query succeeded with these identifiers.
    FoundOwned(Vec<u64>),
    /// The operation succeeded.
    OpSucceeded,
    /// The operation failed.
    OpFailed,
}

/// Mathematical value of a report.
pub enum EventV {
    FoundOwned(Seq<u64>),
    OpSucceeded,
    OpFailed,
}

impl View for Event {
    type V = EventV;

    open spec fn view(&self) -> EventV {
        match self {
            Event::FoundOwned(ids) => EventV::FoundOwned(ids@),
            Event::OpSucceeded => EventV::OpSucceeded,
            Event::OpFailed => EventV::OpFailed,
        }
    }
}

/// Where the cascade stands. The queue in the two deleting phases holds
/// the owned organizations still to cascade, the front one current.
#[derive(Debug)]
pub enum Phase {
    /// Awaiting the owned-organization query.
    Finding,
    /// Awaiting the issue deletion for the front organization.
    DeletingIssues(Vec<u64>),
    /// Awaiting the record deletion for the front organization.
    DeletingOrg(Vec<u64>),
    /// Awaiting the member-list pull.
    PullingMembers,
    /// Awaiting the user-record deletion.
    DeletingUser,
    /// The run is over; holds whether it succeeded.
    Responded(bool),
}

/// Mathematical value of a phase.
pub enum PhaseV {
    Finding,
    DeletingIssues(Seq<u64>),
    DeletingOrg(Seq<u64>),
    PullingMembers,
    DeletingUser,
    Responded(bool),
}

impl View for Phase {
    type V = PhaseV;

    open spec fn view(&self) -> PhaseV {
        match self {
            Phase::Finding => PhaseV::Finding,
            Phase::DeletingIssues(queue) => PhaseV::DeletingIssues(queue@),
            Phase::DeletingOrg(queue) => PhaseV::DeletingOrg(queue@),
            Phase::PullingMembers => PhaseV::PullingMembers,
            Phase::DeletingUser => PhaseV::DeletingUser,
            Phase::Responded(ok) => PhaseV::Responded(*ok),
        }
    }
}

/// The machine's answer to a failure — or to a report that does not fit
/// the phase: the run ends with the database-error response.
pub open spec fn halted() -> (PhaseV, Action) {
    (PhaseV::Responded(false), Action::RespondDbError)
}

/// The phase and action after the owned-organization query or after one
/// finished organization: the front of the queue is cascaded next, and an
/// empty queue moves on to the member-list pull.
pub open spec fn queue_step(remaining: Seq<u64>) -> (PhaseV, Action) {
    if remaining.len() == 0 {
        (PhaseV::PullingMembers, Action::PullMembership)
    } else {
        (PhaseV::DeletingIssues(remaining), Action::DeleteIssuesOf(remaining[0]))
    }
}

/// The transition relation: the phase the machine enters and the action it
/// hands the driver, for every phase and report.
pub open spec fn step_spec(ph: PhaseV, ev: EventV) -> (PhaseV, Action) {
    match (ph, ev) {
        (PhaseV::Finding, EventV::FoundOwned(ids)) => queue_step(ids),
        (PhaseV::DeletingIssues(queue), EventV::OpSucceeded) => if queue.len() > 0 {
            (PhaseV::DeletingOrg(queue), Action::DeleteOrg(queue[0]))
        } else {
            halted()
        },
        (PhaseV::DeletingOrg(queue), EventV::OpSucceeded) => if queue.len() > 0 {
            queue_step(queue.drop_first())
        } else {
            halted()
        },
        (PhaseV::PullingMembers, EventV::OpSucceeded) => (
            PhaseV::DeletingUser,
            Action::DeleteUser,
        ),
        (PhaseV::DeletingUser, EventV::OpSucceeded) => (
            PhaseV::Responded(true),
            Action::RespondOk,
        ),
        _ => halted(),
    }
}

/// Whether a report is of the kind the phase awaits.
pub open spec fn fits(ph: PhaseV, ev: EventV) -> bool {
    match ph {
        PhaseV::Finding => ev is FoundOwned || ev is OpFailed,
        PhaseV::Responded(_) => false,
        _ => ev is OpSucceeded || ev is OpFailed,
    }
}

/// The machine for one account deletion.
pub struct Cascade {
    pub user: u64,
    pub phase: Phase,
}

impl Cascade {
    /// A machine ready to delete the account of `user`; the driver's first
    /// action is the owned-organization query.
    pub fn new(user: u64) -> (c: Cascade)
        ensures
            c.user == user,
            c.phase@ == PhaseV::Finding,
    {
        Cascade { user, phase: Phase::Finding }
    }

    /// Feed the report on the last action; out come the machine and the
    /// next action to perform, exactly as the transition relation says.
    pub fn step(self, ev: Event) -> (r: (Cascade, Action))
        ensures
            r.0.user == self.user,
            (r.0.phase@, r.1) == step_spec(self.phase@, ev@),
    {
        let user = self.user;
        match (self.phase, ev) {
            (Phase::Finding, Event::FoundOwned(ids)) => {
                if ids.len() == 0 {
                    (Cascade { user, phase: Phase::PullingMembers }, Action::PullMembership)
                } else {
                    let first = ids[0];
                    (
                        Cascade { user, phase: Phase::DeletingIssues(ids) },
                        Action::DeleteIssuesOf(first),
                    )
                }
            },
            (Phase::DeletingIssues(queue), Event::OpSucceeded) => {
                if queue.len() > 0 {
                    let front = queue[0];
                    (Cascade { user, phase: Phase::DeletingOrg(queue) }, Action::DeleteOrg(front))
                } else {
                    (Cascade { user, phase: Phase::Responded(false) }, Action::RespondDbError)
                }
            },
            (Phase::DeletingOrg(mut queue), Event::OpSucceeded) => {
                if queue.len() > 0 {
                    let ghost before = queue@;
                    queue.remove(0);
                    proof {
                        assert(queue@ =~= before.drop_first());
                    }
                    if queue.len() == 0 {
                        (Cascade { user, phase: Phase::PullingMembers }, Action::PullMembership)
                    } else {
                        let first = queue[0];
                        (
                            Cascade { user, phase: Phase::DeletingIssues(queue) },
                            Action::DeleteIssuesOf(first),
                        )
                    }
                } else {
                    (Cascade { user, phase: Phase::Responded(false) }, Action::RespondDbError)
                }
            },
            (Phase::PullingMembers, Event::OpSucceeded) => {
                (Cascade { user, phase: Phase::DeletingUser }, Action::DeleteUser)
            },
            (Phase::DeletingUser, Event::OpSucceeded) => {
                (Cascade { user, phase: Phase::Responded(true) }, Action::RespondOk)
            },
            (_, _) => (Cascade { user, phase: Phase::Responded(false) }, Action::RespondDbError),
        }
    }
}

/// A failure report ends the machine in the failed response, whatever the
/// phase, and the finished machine awaits no further report.
pub proof fn lemma_failure_halts(ph: PhaseV, ev: EventV)
    requires
        ev is OpFailed,
    ensures
        step_spec(ph, ev) == halted(),
        forall|later: EventV| !(#[trigger] fits(step_spec(ph, ev).0, later)),
{
}

} // verus!
