//! The account-deletion cascade itself: one verified run over the store,
//! with an explicit fault point standing for the first storage operation
//! that fails, and the endpoint decision around it.
//!
//! The cascade runs in a fixed order: query the organizations the user
//! owns; for each of them, in query order, delete its issues and then its
//! record; withdraw the user from every remaining member list; delete the
//! user record. The first failing operation aborts the run, and nothing
//! already deleted is restored.

use crate::machine::{Action, Cascade, Event, PhaseV};
use crate::store::{
    after_delete, after_issues, after_orgs, after_pull, delete_issues_of, delete_org, delete_user,
    distinct_org_ids, find_owned, issue_not_among, lemma_after_orgs_full, lemma_filter_distinct,
    lemma_issue_step, lemma_org_step, lemma_pull_keeps_distinct, not_owned_by, org_not_among,
    owned_by, owned_org_ids, pull_membership, Database, DbView,
};
use vstd::prelude::*;

verus! {

/// The storage operation, if any, that fails during a run. A fault named
/// for an operation the run never reaches (an index past the owned list)
/// leaves the run unaffected.
#[derive(Clone, Copy, PartialEq, Eq, Structural, Debug)]
pub enum Fault {
    /// Every operation succeeds.
    NoFault,
    /// The query for owned organizations fails.
    AtOwnedQuery,
    /// Deleting the issues of the owned organization at this position
    /// fails.
    AtIssueDelete(usize),
    /// Deleting the record of the owned organization at this position
    /// fails.
    AtOrgDelete(usize),
    /// The member-list pull fails.
    AtMemberPull,
    /// Deleting the user record fails.
    AtUserDelete,
}

/// The store value and acknowledgment a run with the given fault must end
/// in.
pub open spec fn cascade_outcome(pre: DbView, user: u64, fault: Fault) -> (DbView, bool) {
    let n = owned_org_ids(pre, user).len() as int;
    match fault {
        Fault::NoFault => (after_delete(pre, user), true),
        Fault::AtOwnedQuery => (pre, false),
        Fault::AtIssueDelete(j) => if (j as int) < n {
            (after_orgs(pre, user, j as int), false)
        } else {
            (after_delete(pre, user), true)
        },
        Fault::AtOrgDelete(j) => if (j as int) < n {
            (after_issues(pre, user, j as int), false)
        } else {
            (after_delete(pre, user), true)
        },
        Fault::AtMemberPull => (after_orgs(pre, user, n), false),
        Fault::AtUserDelete => (after_pull(pre, user), false),
    }
}

/// One full run of the deletion cascade for `user`. Returns whether the
/// run completed; the store is left exactly at the fault's outcome, with
/// everything before the failing operation deleted and nothing after it
/// touched. Organization identifiers must be unique, as record
/// identifiers are in the underlying document database.
pub fn run_cascade(d: &mut Database, user: u64, fault: Fault) -> (ok: bool)
    requires
        distinct_org_ids(old(d)@.orgs),
    ensures
        final(d)@ == cascade_outcome(old(d)@, user, fault).0,
        ok == cascade_outcome(old(d)@, user, fault).1,
        distinct_org_ids(final(d)@.orgs),
{
    let ghost pre = d@;
    if let Fault::AtOwnedQuery = fault {
        proof {
            lemma_preserves_distinct(pre, user, fault);
        }
        return false;
    }
    let owned = find_owned(d, user);
    let ghost n = owned@.len() as int;
    let mut j: usize = 0;
    proof {
        assert(owned@.subrange(0, 0) =~= Seq::<u64>::empty());
        crate::seq_facts::lemma_filter_all(pre.orgs, org_not_among(owned@.subrange(0, 0)));
        crate::seq_facts::lemma_filter_all(pre.issues, issue_not_among(owned@.subrange(0, 0)));
        assert(after_orgs(pre, user, 0) =~= pre);
    }
    while j < owned.len()
        invariant
            j <= owned.len(),
            pre == old(d)@,
            owned@ == owned_org_ids(pre, user),
            distinct_org_ids(pre.orgs),
            d@ == after_orgs(pre, user, j as int),
            fault matches Fault::AtIssueDelete(f) ==> f >= j,
            fault matches Fault::AtOrgDelete(f) ==> f >= j,
            !(fault matches Fault::AtOwnedQuery),
        decreases owned.len() - j,
    {
        let oid = owned[j];
        if let Fault::AtIssueDelete(f) = fault {
            if f == j {
                proof {
                    lemma_preserves_distinct(pre, user, fault);
                }
                return false;
            }
        }
        delete_issues_of(d, oid);
        proof {
            lemma_issue_step(pre, user, j as int);
            assert(d@ =~= after_issues(pre, user, j as int));
        }
        if let Fault::AtOrgDelete(f) = fault {
            if f == j {
                proof {
                    lemma_preserves_distinct(pre, user, fault);
                }
                return false;
            }
        }
        delete_org(d, oid);
        proof {
            lemma_org_step(pre, user, j as int);
            assert(d@ =~= after_orgs(pre, user, j as int + 1));
        }
        j = j + 1;
    }
    if let Fault::AtMemberPull = fault {
        proof {
            lemma_preserves_distinct(pre, user, fault);
        }
        return false;
    }
    pull_membership(d, user);
    proof {
        assert(d@ =~= after_pull(pre, user));
    }
    if let Fault::AtUserDelete = fault {
        proof {
            lemma_preserves_distinct(pre, user, fault);
        }
        return false;
    }
    delete_user(d, user);
    proof {
        lemma_after_orgs_full(pre, user);
        assert(d@ =~= after_delete(pre, user));
        lemma_preserves_distinct(pre, user, fault);
    }
    true
}

/// Every outcome of a run keeps organization identifiers unique.
proof fn lemma_preserves_distinct(pre: DbView, user: u64, fault: Fault)
    requires
        distinct_org_ids(pre.orgs),
    ensures
        distinct_org_ids(cascade_outcome(pre, user, fault).0.orgs),
{
    let n = owned_org_ids(pre, user).len() as int;
    lemma_filter_distinct(pre.orgs, not_owned_by(user));
    lemma_pull_keeps_distinct(pre.orgs.filter(not_owned_by(user)), user);
    lemma_filter_distinct(pre.orgs, org_not_among(owned_org_ids(pre, user).subrange(0, n)));
    lemma_pull_keeps_distinct(
        pre.orgs.filter(org_not_among(owned_org_ids(pre, user).subrange(0, n))),
        user,
    );
    match fault {
        Fault::AtIssueDelete(j) => {
            if (j as int) < n {
                lemma_filter_distinct(
                    pre.orgs,
                    org_not_among(owned_org_ids(pre, user).subrange(0, j as int)),
                );
            }
        },
        Fault::AtOrgDelete(j) => {
            if (j as int) < n {
                lemma_filter_distinct(
                    pre.orgs,
                    org_not_among(owned_org_ids(pre, user).subrange(0, j as int)),
                );
            }
        },
        _ => {},
    }
}

/// What must hold between the machine's phase, the action the driver is
/// about to perform, the store, and the progress made so far — `done`
/// counts the owned organizations already fully cascaded.
spec fn driver_inv(
    ph: PhaseV,
    action: Action,
    cur: DbView,
    pre: DbView,
    user: u64,
    done: int,
    fault: Fault,
) -> bool {
    let owned = owned_org_ids(pre, user);
    let n = owned.len() as int;
    match (ph, action) {
        (PhaseV::Finding, Action::FindOwnedOrgs) => cur == pre && done == 0,
        (PhaseV::DeletingIssues(q), Action::DeleteIssuesOf(x)) => {
            &&& 0 <= done < n
            &&& q == owned.subrange(done, n)
            &&& x == owned[done]
            &&& cur == after_orgs(pre, user, done)
            &&& !(fault is AtOwnedQuery)
            &&& (fault matches Fault::AtIssueDelete(f) ==> f as int >= done)
            &&& (fault matches Fault::AtOrgDelete(f) ==> f as int >= done)
        },
        (PhaseV::DeletingOrg(q), Action::DeleteOrg(x)) => {
            &&& 0 <= done < n
            &&& q == owned.subrange(done, n)
            &&& x == owned[done]
            &&& cur == after_issues(pre, user, done)
            &&& !(fault is AtOwnedQuery)
            &&& (fault matches Fault::AtIssueDelete(f) ==> f as int > done)
            &&& (fault matches Fault::AtOrgDelete(f) ==> f as int >= done)
        },
        (PhaseV::PullingMembers, Action::PullMembership) => {
            &&& done == n
            &&& cur == after_orgs(pre, user, n)
            &&& !(fault is AtOwnedQuery)
            &&& (fault matches Fault::AtIssueDelete(f) ==> f as int >= n)
            &&& (fault matches Fault::AtOrgDelete(f) ==> f as int >= n)
        },
        (PhaseV::DeletingUser, Action::DeleteUser) => {
            &&& cur == after_pull(pre, user)
            &&& !(fault is AtOwnedQuery)
            &&& !(fault is AtMemberPull)
            &&& (fault matches Fault::AtIssueDelete(f) ==> f as int >= n)
            &&& (fault matches Fault::AtOrgDelete(f) ==> f as int >= n)
        },
        (PhaseV::Responded(ok), Action::RespondOk) => ok && cur == cascade_outcome(
            pre,
            user,
            fault,
        ).0 && cascade_outcome(pre, user, fault).1,
        (PhaseV::Responded(ok), Action::RespondDbError) => !ok && cur == cascade_outcome(
            pre,
            user,
            fault,
        ).0 && !cascade_outcome(pre, user, fault).1,
        _ => false,
    }
}

/// Whether the machine still awaits the owned-organization query.
spec fn phase_stage(ph: PhaseV) -> int {
    if ph is Finding {
        1
    } else {
        0
    }
}

/// How far the machine is from responding, once the queue is known.
spec fn phase_measure(ph: PhaseV) -> int {
    match ph {
        PhaseV::Finding => 0,
        PhaseV::DeletingIssues(q) => 2 + 2 * (q.len() as int),
        PhaseV::DeletingOrg(q) => 1 + 2 * (q.len() as int),
        PhaseV::PullingMembers => 2,
        PhaseV::DeletingUser => 1,
        PhaseV::Responded(_) => 0,
    }
}

/// The same cascade, run by driving the step machine against the store:
/// each action the machine hands out is performed as the corresponding
/// storage operation — or fails, where the fault names it — and the
/// outcome is reported back. The run ends in exactly the store value and
/// acknowledgment of the fault's outcome, so a driver that obeys the
/// machine inherits every guarantee proved of the cascade.
pub fn run_machine(d: &mut Database, user: u64, fault: Fault) -> (ok: bool)
    requires
        distinct_org_ids(old(d)@.orgs),
    ensures
        final(d)@ == cascade_outcome(old(d)@, user, fault).0,
        ok == cascade_outcome(old(d)@, user, fault).1,
        distinct_org_ids(final(d)@.orgs),
{
    let ghost pre = d@;
    let mut machine = Cascade::new(user);
    let mut action = Action::FindOwnedOrgs;
    let mut done: usize = 0;
    let ghost n = owned_org_ids(pre, user).len() as int;
    let total_orgs = d.orgs.len();
    proof {
        pre.orgs.lemma_filter_len(owned_by(user));
        assert(n <= total_orgs as int);
    }
    loop
        invariant
            pre == old(d)@,
            distinct_org_ids(pre.orgs),
            n == owned_org_ids(pre, user).len(),
            n <= usize::MAX as int,
            driver_inv(machine.phase@, action, d@, pre, user, done as int, fault),
        decreases phase_stage(machine.phase@), phase_measure(machine.phase@),
    {
        let event: Event = match action {
            Action::FindOwnedOrgs => {
                if let Fault::AtOwnedQuery = fault {
                    Event::OpFailed
                } else {
                    let owned = find_owned(d, user);
                    proof {
                        assert(owned@.subrange(0, 0) =~= Seq::<u64>::empty());
                        crate::seq_facts::lemma_filter_all(
                            pre.orgs,
                            org_not_among(owned@.subrange(0, 0)),
                        );
                        crate::seq_facts::lemma_filter_all(
                            pre.issues,
                            issue_not_among(owned@.subrange(0, 0)),
                        );
                        assert(after_orgs(pre, user, 0) =~= pre);
                        assert(owned@.subrange(0, n) =~= owned@);
                    }
                    Event::FoundOwned(owned)
                }
            },
            Action::DeleteIssuesOf(org_id) => {
                let mut hit = false;
                if let Fault::AtIssueDelete(f) = fault {
                    if f == done {
                        hit = true;
                    }
                }
                if hit {
                    Event::OpFailed
                } else {
                    delete_issues_of(d, org_id);
                    proof {
                        lemma_issue_step(pre, user, done as int);
                        assert(d@ =~= after_issues(pre, user, done as int));
                    }
                    Event::OpSucceeded
                }
            },
            Action::DeleteOrg(org_id) => {
                let mut hit = false;
                if let Fault::AtOrgDelete(f) = fault {
                    if f == done {
                        hit = true;
                    }
                }
                if hit {
                    Event::OpFailed
                } else {
                    delete_org(d, org_id);
                    proof {
                        lemma_org_step(pre, user, done as int);
                        assert(d@ =~= after_orgs(pre, user, done as int + 1));
                        let owned = owned_org_ids(pre, user);
                        assert(owned.subrange(done as int, n).drop_first() =~= owned.subrange(
                            done as int + 1,
                            n,
                        ));
                    }
                    done = done + 1;
                    Event::OpSucceeded
                }
            },
            Action::PullMembership => {
                if let Fault::AtMemberPull = fault {
                    Event::OpFailed
                } else {
                    pull_membership(d, user);
                    proof {
                        assert(d@ =~= after_pull(pre, user));
                    }
                    Event::OpSucceeded
                }
            },
            Action::DeleteUser => {
                if let Fault::AtUserDelete = fault {
                    Event::OpFailed
                } else {
                    delete_user(d, user);
                    proof {
                        lemma_after_orgs_full(pre, user);
                        assert(d@ =~= after_delete(pre, user));
                    }
                    Event::OpSucceeded
                }
            },
            Action::RespondOk => {
                proof {
                    lemma_preserves_distinct(pre, user, fault);
                }
                return true;
            },
            Action::RespondDbError => {
                proof {
                    lemma_preserves_distinct(pre, user, fault);
                }
                return false;
            },
        };
        let (stepped, next_action) = machine.step(event);
        machine = stepped;
        action = next_action;
    }
}

/// What the endpoint answers: the fixed success acknowledgment, the one
/// collapsed database-failure report, or the authentication collaborator's
/// own error, passed through untouched.
pub enum Response<E> {
    /// The cascade completed; the acknowledgment body is fixed.
    Success,
    /// Some storage operation failed; every such failure is reported the
    /// same way.
    DatabaseError,
    /// The caller's identity did not resolve; carries the resolver's error
    /// exactly as produced.
    Unauthorized(E),
}

/// The whole endpoint decision. An unresolved identity short-circuits:
/// the store is not touched and the resolver's error is the answer. A
/// resolved identity runs the cascade, answering success exactly when
/// every storage operation succeeded.
pub fn handle_delete<E>(d: &mut Database, auth: Result<u64, E>, fault: Fault) -> (r: Response<E>)
    requires
        distinct_org_ids(old(d)@.orgs),
    ensures
        auth matches Err(e) ==> final(d)@ == old(d)@ && r == Response::<E>::Unauthorized(e),
        auth matches Ok(user) ==> {
            &&& final(d)@ == cascade_outcome(old(d)@, user, fault).0
            &&& (r is Success <==> cascade_outcome(old(d)@, user, fault).1)
            &&& (!cascade_outcome(old(d)@, user, fault).1 ==> r is DatabaseError)
        },
        distinct_org_ids(final(d)@.orgs),
{
    match auth {
        Err(e) => Response::Unauthorized(e),
        Ok(user) => {
            if run_cascade(d, user, fault) {
                Response::Success
            } else {
                Response::DatabaseError
            }
        },
    }
}

} // verus!
