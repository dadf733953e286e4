use account_cascade::cascade::{handle_delete, run_cascade, run_machine, Fault, Response};
use account_cascade::store::{
    delete_issues_of, delete_org, delete_user, find_owned, pull_membership, Database, Issue,
    Organization,
};

fn org(id: u64, owner: u64, members: Vec<u64>) -> Organization {
    Organization { id, owner, members }
}

fn issue(id: u64, org_id: u64) -> Issue {
    Issue { id, org: org_id }
}

/// User 1 owns organizations 10 and 11; organization 20 belongs to user 2
/// and lists user 1 as a member; issues 100..103 sit in those
/// organizations.
fn sample_db() -> Database {
    Database {
        users: vec![1, 2, 3],
        orgs: vec![
            org(10, 1, vec![1, 2]),
            org(20, 2, vec![1, 2, 3]),
            org(11, 1, vec![3]),
        ],
        issues: vec![issue(100, 10), issue(101, 20), issue(102, 11), issue(103, 10)],
    }
}

fn org_ids(d: &Database) -> Vec<u64> {
    d.orgs.iter().map(|o| o.id).collect()
}

fn issue_ids(d: &Database) -> Vec<u64> {
    d.issues.iter().map(|i| i.id).collect()
}

#[test]
fn owner_cascade_removes_everything() {
    let mut d = sample_db();
    let r: Response<&str> = handle_delete(&mut d, Ok(1), Fault::NoFault);
    assert!(matches!(r, Response::Success));
    assert_eq!(d.users, vec![2, 3]);
    assert_eq!(org_ids(&d), vec![20]);
    assert_eq!(d.orgs[0].owner, 2);
    assert_eq!(d.orgs[0].members, vec![2, 3]);
    assert_eq!(issue_ids(&d), vec![101]);
}

#[test]
fn zero_owned_orgs_removes_only_user_record() {
    let mut d = sample_db();
    let r: Response<&str> = handle_delete(&mut d, Ok(3), Fault::NoFault);
    assert!(matches!(r, Response::Success));
    assert_eq!(d.users, vec![1, 2]);
    assert_eq!(org_ids(&d), vec![10, 20, 11]);
    // the membership pull ran over every organization
    assert_eq!(d.orgs[0].members, vec![1, 2]);
    assert_eq!(d.orgs[1].members, vec![1, 2]);
    assert_eq!(d.orgs[2].members, Vec::<u64>::new());
    assert_eq!(issue_ids(&d), vec![100, 101, 102, 103]);
}

#[test]
fn member_only_org_survives_without_member() {
    let mut d = Database {
        users: vec![1, 2, 3],
        orgs: vec![org(40, 2, vec![1, 3])],
        issues: vec![issue(500, 40)],
    };
    let r: Response<&str> = handle_delete(&mut d, Ok(1), Fault::NoFault);
    assert!(matches!(r, Response::Success));
    assert_eq!(org_ids(&d), vec![40]);
    assert_eq!(d.orgs[0].members, vec![3]);
    assert_eq!(issue_ids(&d), vec![500]);
    assert_eq!(d.users, vec![2, 3]);
}

#[test]
fn auth_failure_touches_nothing() {
    let mut d = sample_db();
    let r = handle_delete(&mut d, Err("expired token"), Fault::NoFault);
    match r {
        Response::Unauthorized(e) => assert_eq!(e, "expired token"),
        _ => panic!("expected the resolver's error back"),
    }
    assert_eq!(d.users, vec![1, 2, 3]);
    assert_eq!(org_ids(&d), vec![10, 20, 11]);
    assert_eq!(d.orgs[0].members, vec![1, 2]);
    assert_eq!(issue_ids(&d), vec![100, 101, 102, 103]);
}

#[test]
fn issue_delete_fault_stops_whole_cascade() {
    let mut d = sample_db();
    let ok = run_cascade(&mut d, 1, Fault::AtIssueDelete(0));
    assert!(!ok);
    // nothing at all was deleted: the first issue-delete failed
    assert_eq!(d.users, vec![1, 2, 3]);
    assert_eq!(org_ids(&d), vec![10, 20, 11]);
    assert_eq!(d.orgs[0].members, vec![1, 2]);
    assert_eq!(d.orgs[1].members, vec![1, 2, 3]);
    assert_eq!(issue_ids(&d), vec![100, 101, 102, 103]);
}

#[test]
fn issue_delete_fault_on_second_org_keeps_it() {
    let mut d = sample_db();
    let ok = run_cascade(&mut d, 1, Fault::AtIssueDelete(1));
    assert!(!ok);
    // organization 10 was fully cascaded, organization 11 not touched
    assert_eq!(org_ids(&d), vec![20, 11]);
    assert_eq!(issue_ids(&d), vec![101, 102]);
    // no membership pull and no user delete happened
    assert_eq!(d.users, vec![1, 2, 3]);
    assert_eq!(d.orgs[0].members, vec![1, 2, 3]);
}

#[test]
fn org_delete_fault_keeps_record_but_not_issues() {
    let mut d = sample_db();
    let ok = run_cascade(&mut d, 1, Fault::AtOrgDelete(0));
    assert!(!ok);
    // issues of organization 10 are gone, its record is still there
    assert_eq!(org_ids(&d), vec![10, 20, 11]);
    assert_eq!(issue_ids(&d), vec![101, 102]);
    assert_eq!(d.users, vec![1, 2, 3]);
}

#[test]
fn owned_query_fault_touches_nothing() {
    let mut d = sample_db();
    let r: Response<&str> = handle_delete(&mut d, Ok(1), Fault::AtOwnedQuery);
    assert!(matches!(r, Response::DatabaseError));
    assert_eq!(d.users, vec![1, 2, 3]);
    assert_eq!(org_ids(&d), vec![10, 20, 11]);
    assert_eq!(issue_ids(&d), vec![100, 101, 102, 103]);
}

#[test]
fn member_pull_fault_keeps_memberships_and_user() {
    let mut d = sample_db();
    let ok = run_cascade(&mut d, 1, Fault::AtMemberPull);
    assert!(!ok);
    assert_eq!(org_ids(&d), vec![20]);
    assert_eq!(d.orgs[0].members, vec![1, 2, 3]);
    assert_eq!(d.users, vec![1, 2, 3]);
}

#[test]
fn user_delete_fault_keeps_user_record() {
    let mut d = sample_db();
    let ok = run_cascade(&mut d, 1, Fault::AtUserDelete);
    assert!(!ok);
    assert_eq!(org_ids(&d), vec![20]);
    assert_eq!(d.orgs[0].members, vec![2, 3]);
    assert_eq!(d.users, vec![1, 2, 3]);
}

#[test]
fn fault_past_the_owned_list_changes_nothing_about_success() {
    let mut d = sample_db();
    let ok = run_cascade(&mut d, 1, Fault::AtIssueDelete(2));
    assert!(ok);
    assert_eq!(org_ids(&d), vec![20]);
    assert_eq!(d.users, vec![2, 3]);
}

#[test]
fn second_run_is_a_noop() {
    let mut d = sample_db();
    let first: Response<&str> = handle_delete(&mut d, Ok(1), Fault::NoFault);
    assert!(matches!(first, Response::Success));
    let users = d.users.clone();
    let orgs: Vec<(u64, u64, Vec<u64>)> =
        d.orgs.iter().map(|o| (o.id, o.owner, o.members.clone())).collect();
    let issues: Vec<(u64, u64)> = d.issues.iter().map(|i| (i.id, i.org)).collect();
    let second: Response<&str> = handle_delete(&mut d, Ok(1), Fault::NoFault);
    assert!(matches!(second, Response::Success));
    assert_eq!(d.users, users);
    let orgs_after: Vec<(u64, u64, Vec<u64>)> =
        d.orgs.iter().map(|o| (o.id, o.owner, o.members.clone())).collect();
    let issues_after: Vec<(u64, u64)> = d.issues.iter().map(|i| (i.id, i.org)).collect();
    assert_eq!(orgs_after, orgs);
    assert_eq!(issues_after, issues);
}

#[test]
fn delete_for_absent_user_does_not_crash() {
    let mut d = sample_db();
    let r: Response<&str> = handle_delete(&mut d, Ok(9), Fault::NoFault);
    assert!(matches!(r, Response::Success));
    assert_eq!(d.users, vec![1, 2, 3]);
    assert_eq!(org_ids(&d), vec![10, 20, 11]);
    assert_eq!(issue_ids(&d), vec![100, 101, 102, 103]);
}

#[test]
fn machine_driver_matches_direct_run() {
    let mut direct = sample_db();
    let mut driven = sample_db();
    assert!(run_cascade(&mut direct, 1, Fault::NoFault));
    assert!(run_machine(&mut driven, 1, Fault::NoFault));
    assert_eq!(direct.users, driven.users);
    assert_eq!(org_ids(&direct), org_ids(&driven));
    assert_eq!(issue_ids(&direct), issue_ids(&driven));
}

#[test]
fn machine_driver_stops_on_fault_like_direct_run() {
    let mut direct = sample_db();
    let mut driven = sample_db();
    assert!(!run_cascade(&mut direct, 1, Fault::AtIssueDelete(1)));
    assert!(!run_machine(&mut driven, 1, Fault::AtIssueDelete(1)));
    assert_eq!(direct.users, driven.users);
    assert_eq!(org_ids(&direct), org_ids(&driven));
    assert_eq!(issue_ids(&direct), issue_ids(&driven));
    assert_eq!(org_ids(&driven), vec![20, 11]);
}

#[test]
fn find_owned_lists_owned_ids_in_store_order() {
    let d = sample_db();
    assert_eq!(find_owned(&d, 1), vec![10, 11]);
    assert_eq!(find_owned(&d, 2), vec![20]);
    assert_eq!(find_owned(&d, 3), Vec::<u64>::new());
}

#[test]
fn delete_issues_of_removes_exactly_that_org() {
    let mut d = sample_db();
    delete_issues_of(&mut d, 10);
    assert_eq!(issue_ids(&d), vec![101, 102]);
    assert_eq!(d.users, vec![1, 2, 3]);
    assert_eq!(org_ids(&d), vec![10, 20, 11]);
}

#[test]
fn delete_org_removes_exactly_that_record() {
    let mut d = sample_db();
    delete_org(&mut d, 20);
    assert_eq!(org_ids(&d), vec![10, 11]);
    assert_eq!(issue_ids(&d), vec![100, 101, 102, 103]);
}

#[test]
fn pull_membership_touches_only_member_lists() {
    let mut d = sample_db();
    pull_membership(&mut d, 1);
    assert_eq!(org_ids(&d), vec![10, 20, 11]);
    assert_eq!(d.orgs[0].members, vec![2]);
    assert_eq!(d.orgs[1].members, vec![2, 3]);
    assert_eq!(d.orgs[2].members, vec![3]);
    assert_eq!(d.users, vec![1, 2, 3]);
}

#[test]
fn delete_user_is_a_noop_for_absent_id() {
    let mut d = sample_db();
    delete_user(&mut d, 7);
    assert_eq!(d.users, vec![1, 2, 3]);
    delete_user(&mut d, 2);
    assert_eq!(d.users, vec![1, 3]);
}
