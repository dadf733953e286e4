use account_cascade::machine::{Action, Cascade, Event, Phase};

#[test]
fn full_run_follows_the_fixed_order() {
    let c = Cascade::new(1);
    assert!(matches!(c.phase, Phase::Finding));
    let (c, a) = c.step(Event::FoundOwned(vec![10, 11]));
    assert_eq!(a, Action::DeleteIssuesOf(10));
    let (c, a) = c.step(Event::OpSucceeded);
    assert_eq!(a, Action::DeleteOrg(10));
    let (c, a) = c.step(Event::OpSucceeded);
    assert_eq!(a, Action::DeleteIssuesOf(11));
    let (c, a) = c.step(Event::OpSucceeded);
    assert_eq!(a, Action::DeleteOrg(11));
    let (c, a) = c.step(Event::OpSucceeded);
    assert_eq!(a, Action::PullMembership);
    let (c, a) = c.step(Event::OpSucceeded);
    assert_eq!(a, Action::DeleteUser);
    let (c, a) = c.step(Event::OpSucceeded);
    assert_eq!(a, Action::RespondOk);
    assert!(matches!(c.phase, Phase::Responded(true)));
}

#[test]
fn no_owned_orgs_skips_to_the_pull() {
    let c = Cascade::new(4);
    let (_, a) = c.step(Event::FoundOwned(Vec::new()));
    assert_eq!(a, Action::PullMembership);
}

#[test]
fn failure_at_any_point_responds_db_error() {
    let c = Cascade::new(1);
    let (c, _) = c.step(Event::FoundOwned(vec![10]));
    let (c, a) = c.step(Event::OpFailed);
    assert_eq!(a, Action::RespondDbError);
    assert!(matches!(c.phase, Phase::Responded(false)));
}

#[test]
fn failure_on_the_query_responds_db_error() {
    let c = Cascade::new(1);
    let (c, a) = c.step(Event::OpFailed);
    assert_eq!(a, Action::RespondDbError);
    assert!(matches!(c.phase, Phase::Responded(false)));
}
