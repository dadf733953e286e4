//! In-memory model of the document store the cascade mutates, together
//! with the verified storage operations the cascade is built from.
//!
//! Identifiers are plain integers; an organization record carries its
//! owner and its member list, an issue record the organization it belongs
//! to. Each operation's contract states exactly which records survive it,
//! in store order.

use vstd::prelude::*;

verus! {

broadcast use vstd::seq_lib::group_filter_ensures, Seq::lemma_filter_push;

/// One organization: a record identifier, its owner, and its members.
#[derive(Debug)]
pub struct Organization {
    pub id: u64,
    pub owner: u64,
    pub members: Vec<u64>,
}

/// One issue, tied to the organization it belongs to.
#[derive(Clone, Copy, Debug)]
pub struct Issue {
    pub id: u64,
    pub org: u64,
}

/// The three collections the deletion cascade touches.
#[derive(Debug)]
pub struct Database {
    pub users: Vec<u64>,
    pub orgs: Vec<Organization>,
    pub issues: Vec<Issue>,
}

/// Mathematical value of an organization record.
#[verifier::ext_equal]
pub struct OrgView {
    pub id: u64,
    pub owner: u64,
    pub members: Seq<u64>,
}

/// Mathematical value of an issue record.
#[verifier::ext_equal]
pub struct IssueView {
    pub id: u64,
    pub org: u64,
}

/// Mathematical value of the whole store.
#[verifier::ext_equal]
pub struct DbView {
    pub users: Seq<u64>,
    pub orgs: Seq<OrgView>,
    pub issues: Seq<IssueView>,
}

impl View for Organization {
    type V = OrgView;

    open spec fn view(&self) -> OrgView {
        OrgView { id: self.id, owner: self.owner, members: self.members@ }
    }
}

impl View for Issue {
    type V = IssueView;

    open spec fn view(&self) -> IssueView {
        IssueView { id: self.id, org: self.org }
    }
}

impl View for Database {
    type V = DbView;

    open spec fn view(&self) -> DbView {
        DbView {
            users: self.users@,
            orgs: self.orgs@.map_values(|o: Organization| o@),
            issues: self.issues@.map_values(|i: Issue| i@),
        }
    }
}

/// Keeps the user identifiers other than `user`.
pub open spec fn other_user(user: u64) -> spec_fn(u64) -> bool {
    |x: u64| x != user
}

/// Keeps the issues that do not reference organization `org_id`.
pub open spec fn other_org(org_id: u64) -> spec_fn(IssueView) -> bool {
    |i: IssueView| i.org != org_id
}

/// Keeps the organization records whose identifier is not `org_id`.
pub open spec fn other_id(org_id: u64) -> spec_fn(OrgView) -> bool {
    |o: OrgView| o.id != org_id
}

/// Keeps the organizations the user does not own.
pub open spec fn not_owned_by(user: u64) -> spec_fn(OrgView) -> bool {
    |o: OrgView| o.owner != user
}

/// Keeps the organizations the user owns.
pub open spec fn owned_by(user: u64) -> spec_fn(OrgView) -> bool {
    |o: OrgView| o.owner == user
}

/// The identifier of an organization record.
pub open spec fn org_id_of() -> spec_fn(OrgView) -> u64 {
    |o: OrgView| o.id
}

/// An organization with `user` withdrawn from its member list.
pub open spec fn pull_member(o: OrgView, user: u64) -> OrgView {
    OrgView { id: o.id, owner: o.owner, members: o.members.filter(other_user(user)) }
}

/// `pull_member` as a value, for mapping over a whole collection.
pub open spec fn pull_fn(user: u64) -> spec_fn(OrgView) -> OrgView {
    |o: OrgView| pull_member(o, user)
}

/// The identifiers of the organizations the user owns, in store order.
pub open spec fn owned_org_ids(d: DbView, user: u64) -> Seq<u64> {
    d.orgs.filter(owned_by(user)).map_values(org_id_of())
}

/// Whether some organization record with identifier `org_id` is owned by
/// `user`.
pub open spec fn org_owned_by(d: DbView, org_id: u64, user: u64) -> bool {
    exists|k: int|
        0 <= k < d.orgs.len() && (#[trigger] d.orgs[k]).id == org_id && d.orgs[k].owner == user
}

/// Keeps the issues whose organization is not owned by `user` in `d`.
pub open spec fn issue_not_of_owned(d: DbView, user: u64) -> spec_fn(IssueView) -> bool {
    |i: IssueView| !org_owned_by(d, i.org, user)
}

/// Keeps the organizations whose identifier is not among `ids`.
pub open spec fn org_not_among(ids: Seq<u64>) -> spec_fn(OrgView) -> bool {
    |o: OrgView| !ids.contains(o.id)
}

/// Keeps the issues whose organization is not among `ids`.
pub open spec fn issue_not_among(ids: Seq<u64>) -> spec_fn(IssueView) -> bool {
    |i: IssueView| !ids.contains(i.org)
}

/// Model invariant: organization identifiers are unique in the store, as
/// record identifiers are in the underlying document database.
pub open spec fn distinct_org_ids(orgs: Seq<OrgView>) -> bool {
    forall|i: int, j: int|
        0 <= i < j < orgs.len() ==> (#[trigger] orgs[i]).id != (#[trigger] orgs[j]).id
}

/// The whole store after a completed deletion cascade for `user`: the user
/// record is gone, the organizations the user owned are gone, every issue
/// of those organizations is gone, and the user is withdrawn from every
/// surviving member list.
pub open spec fn after_delete(d: DbView, user: u64) -> DbView {
    DbView {
        users: d.users.filter(other_user(user)),
        orgs: d.orgs.filter(not_owned_by(user)).map_values(pull_fn(user)),
        issues: d.issues.filter(issue_not_of_owned(d, user)),
    }
}

/// The store after the first `j` owned organizations have been fully
/// cascaded: their issues and their records deleted, nothing else touched.
pub open spec fn after_orgs(d: DbView, user: u64, j: int) -> DbView {
    let done = owned_org_ids(d, user).subrange(0, j);
    DbView {
        users: d.users,
        orgs: d.orgs.filter(org_not_among(done)),
        issues: d.issues.filter(issue_not_among(done)),
    }
}

/// The store after the first `j` owned organizations have been cascaded
/// and the issues of owned organization `j` deleted, but with that
/// organization's own record still present.
pub open spec fn after_issues(d: DbView, user: u64, j: int) -> DbView {
    let done = owned_org_ids(d, user).subrange(0, j);
    let through = owned_org_ids(d, user).subrange(0, j + 1);
    DbView {
        users: d.users,
        orgs: d.orgs.filter(org_not_among(done)),
        issues: d.issues.filter(issue_not_among(through)),
    }
}

/// The store after every owned organization has been cascaded and the
/// member-list pull applied, but with the user record still present.
pub open spec fn after_pull(d: DbView, user: u64) -> DbView {
    let n = owned_org_ids(d, user).len() as int;
    DbView {
        users: d.users,
        orgs: after_orgs(d, user, n).orgs.map_values(pull_fn(user)),
        issues: after_orgs(d, user, n).issues,
    }
}

/// The list of identifiers with every occurrence of `x` removed, order
/// kept.
fn without_value(v: &Vec<u64>, x: u64) -> (r: Vec<u64>)
    ensures
        r@ == v@.filter(other_user(x)),
{
    let mut r: Vec<u64> = Vec::new();
    let mut k: usize = 0;
    while k < v.len()
        invariant
            k <= v.len(),
            r@ == v@.subrange(0, k as int).filter(other_user(x)),
        decreases v.len() - k,
    {
        let y = v[k];
        proof {
            assert(v@.subrange(0, k + 1) =~= v@.subrange(0, k as int).push(v@[k as int]));
        }
        if y != x {
            r.push(y);
        }
        k = k + 1;
    }
    proof {
        assert(v@.subrange(0, v@.len() as int) =~= v@);
    }
    r
}

/// A copy of a list of identifiers.
fn copy_ids(v: &Vec<u64>) -> (r: Vec<u64>)
    ensures
        r@ == v@,
{
    let mut r: Vec<u64> = Vec::new();
    let mut k: usize = 0;
    while k < v.len()
        invariant
            k <= v.len(),
            r@ == v@.subrange(0, k as int),
        decreases v.len() - k,
    {
        r.push(v[k]);
        proof {
            assert(v@.subrange(0, k + 1) =~= v@.subrange(0, k as int).push(v@[k as int]));
        }
        k = k + 1;
    }
    proof {
        assert(v@.subrange(0, v@.len() as int) =~= v@);
    }
    r
}

/// The query for the organizations `user` owns: their identifiers, in
/// store order.
pub fn find_owned(d: &Database, user: u64) -> (r: Vec<u64>)
    ensures
        r@ == owned_org_ids(d@, user),
{
    let mut r: Vec<u64> = Vec::new();
    let mut k: usize = 0;
    while k < d.orgs.len()
        invariant
            k <= d.orgs.len(),
            r@ == d@.orgs.subrange(0, k as int).filter(owned_by(user)).map_values(org_id_of()),
        decreases d.orgs.len() - k,
    {
        let ghost pre = r@;
        if d.orgs[k].owner == user {
            r.push(d.orgs[k].id);
        }
        proof {
            let s = d@.orgs;
            assert(s.subrange(0, k + 1) =~= s.subrange(0, k as int).push(s[k as int]));
            if d.orgs@[k as int].owner == user {
                assert(s.subrange(0, k as int).filter(owned_by(user)).push(s[k as int])
                    .map_values(org_id_of()) =~= pre.push(s[k as int].id));
            }
        }
        k = k + 1;
    }
    proof {
        assert(d@.orgs.subrange(0, d@.orgs.len() as int) =~= d@.orgs);
    }
    r
}

/// Deletion of every issue that references organization `org_id`.
pub fn delete_issues_of(d: &mut Database, org_id: u64)
    ensures
        final(d)@.issues == old(d)@.issues.filter(other_org(org_id)),
        final(d)@.users == old(d)@.users,
        final(d)@.orgs == old(d)@.orgs,
{
    let mut kept: Vec<Issue> = Vec::new();
    let mut k: usize = 0;
    while k < d.issues.len()
        invariant
            k <= d.issues.len(),
            *d == *old(d),
            kept@.map_values(|i: Issue| i@)
                == old(d)@.issues.subrange(0, k as int).filter(other_org(org_id)),
        decreases d.issues.len() - k,
    {
        let ghost pre = kept@.map_values(|i: Issue| i@);
        let it = d.issues[k];
        if it.org != org_id {
            kept.push(it);
        }
        proof {
            let s = old(d)@.issues;
            assert(s.subrange(0, k + 1) =~= s.subrange(0, k as int).push(s[k as int]));
            if it@.org != org_id {
                assert(kept@.map_values(|i: Issue| i@) =~= pre.push(s[k as int]));
            }
        }
        k = k + 1;
    }
    proof {
        assert(old(d)@.issues.subrange(0, old(d)@.issues.len() as int) =~= old(d)@.issues);
    }
    d.issues = kept;
}

/// Deletion of the organization record with identifier `org_id`.
pub fn delete_org(d: &mut Database, org_id: u64)
    ensures
        final(d)@.orgs == old(d)@.orgs.filter(other_id(org_id)),
        final(d)@.users == old(d)@.users,
        final(d)@.issues == old(d)@.issues,
{
    let mut kept: Vec<Organization> = Vec::new();
    let mut k: usize = 0;
    while k < d.orgs.len()
        invariant
            k <= d.orgs.len(),
            *d == *old(d),
            kept@.map_values(|o: Organization| o@)
                == old(d)@.orgs.subrange(0, k as int).filter(other_id(org_id)),
        decreases d.orgs.len() - k,
    {
        let ghost pre = kept@.map_values(|o: Organization| o@);
        proof {
            let s = old(d)@.orgs;
            assert(s.subrange(0, k + 1) =~= s.subrange(0, k as int).push(s[k as int]));
        }
        if d.orgs[k].id != org_id {
            let o = Organization {
                id: d.orgs[k].id,
                owner: d.orgs[k].owner,
                members: copy_ids(&d.orgs[k].members),
            };
            proof {
                assert(o@ == old(d)@.orgs[k as int]);
            }
            kept.push(o);
            proof {
                assert(kept@.map_values(|o2: Organization| o2@)
                    =~= pre.push(old(d)@.orgs[k as int]));
            }
        }
        k = k + 1;
    }
    proof {
        assert(old(d)@.orgs.subrange(0, old(d)@.orgs.len() as int) =~= old(d)@.orgs);
    }
    d.orgs = kept;
}

/// Withdrawal of `user` from every organization's member list; owners and
/// record identifiers are untouched.
pub fn pull_membership(d: &mut Database, user: u64)
    ensures
        final(d)@.orgs == old(d)@.orgs.map_values(pull_fn(user)),
        final(d)@.users == old(d)@.users,
        final(d)@.issues == old(d)@.issues,
{
    let mut updated: Vec<Organization> = Vec::new();
    let mut k: usize = 0;
    while k < d.orgs.len()
        invariant
            k <= d.orgs.len(),
            *d == *old(d),
            updated@.map_values(|o: Organization| o@)
                == old(d)@.orgs.subrange(0, k as int).map_values(pull_fn(user)),
        decreases d.orgs.len() - k,
    {
        let ghost pre = updated@.map_values(|o: Organization| o@);
        let o = Organization {
            id: d.orgs[k].id,
            owner: d.orgs[k].owner,
            members: without_value(&d.orgs[k].members, user),
        };
        proof {
            assert(o@ == pull_member(old(d)@.orgs[k as int], user));
        }
        updated.push(o);
        proof {
            let s = old(d)@.orgs;
            assert(s.subrange(0, k + 1) =~= s.subrange(0, k as int).push(s[k as int]));
            assert(s.subrange(0, k + 1).map_values(pull_fn(user))
                =~= pre.push(pull_member(s[k as int], user)));
            assert(updated@.map_values(|o2: Organization| o2@)
                =~= pre.push(pull_member(s[k as int], user)));
        }
        k = k + 1;
    }
    proof {
        assert(old(d)@.orgs.subrange(0, old(d)@.orgs.len() as int) =~= old(d)@.orgs);
    }
    d.orgs = updated;
}

/// Uniqueness of a list of identifiers.
pub open spec fn distinct_values(s: Seq<u64>) -> bool {
    forall|i: int, j: int| 0 <= i < j < s.len() ==> (#[trigger] s[i]) != (#[trigger] s[j])
}

/// An identifier is among the owned-organization identifiers exactly when
/// some organization record with that identifier is owned by the user.
pub proof fn lemma_owned_contains(d: DbView, user: u64)
    ensures
        forall|oid: u64|
            #[trigger] owned_org_ids(d, user).contains(oid) <==> org_owned_by(d, oid, user),
{
    let fil = d.orgs.filter(owned_by(user));
    let owned = owned_org_ids(d, user);
    assert forall|oid: u64| #[trigger] owned.contains(oid) implies org_owned_by(d, oid, user) by {
        let i = choose|i: int| 0 <= i < owned.len() && owned[i] == oid;
        assert(owned[i] == fil[i].id);
        assert(owned_by(user)(fil[i]));
        assert(fil.contains(fil[i]));
        d.orgs.lemma_filter_contains_rev(owned_by(user), fil[i]);
        let k = choose|k: int| 0 <= k < d.orgs.len() && d.orgs[k] == fil[i];
        assert(0 <= k < d.orgs.len() && d.orgs[k].id == oid && d.orgs[k].owner == user);
    }
    assert forall|oid: u64| org_owned_by(d, oid, user) implies #[trigger] owned.contains(oid) by {
        let k = choose|k: int|
            0 <= k < d.orgs.len() && (#[trigger] d.orgs[k]).id == oid && d.orgs[k].owner == user;
        assert(owned_by(user)(d.orgs[k]));
        assert(fil.contains(d.orgs[k]));
        let i = choose|i: int| 0 <= i < fil.len() && fil[i] == d.orgs[k];
        assert(owned[i] == oid);
    }
}

/// Filtering a store with unique organization identifiers keeps them
/// unique.
pub proof fn lemma_filter_distinct(orgs: Seq<OrgView>, p: spec_fn(OrgView) -> bool)
    requires
        distinct_org_ids(orgs),
    ensures
        distinct_org_ids(orgs.filter(p)),
    decreases orgs.len(),
{
    reveal(Seq::filter);
    if orgs.len() > 0 {
        let sub = orgs.drop_last();
        let last = orgs.last();
        assert forall|i: int, j: int| 0 <= i < j < sub.len() implies (#[trigger] sub[i]).id != (
        #[trigger] sub[j]).id by {
            assert(sub[i] == orgs[i] && sub[j] == orgs[j]);
        }
        lemma_filter_distinct(sub, p);
        if p(last) {
            assert forall|i: int| 0 <= i < sub.filter(p).len() implies (#[trigger] sub.filter(
                p,
            )[i]).id != last.id by {
                let x = sub.filter(p)[i];
                assert(sub.filter(p).contains(x));
                sub.lemma_filter_contains_rev(p, x);
                let k = choose|k: int| 0 <= k < sub.len() && sub[k] == x;
                assert(orgs[k] == x);
                assert(orgs[k].id != last.id);
            }
            assert(orgs.filter(p) == sub.filter(p).push(last));
        }
    }
}

/// The owned-organization identifiers are unique when the store's
/// organization identifiers are.
pub proof fn lemma_owned_ids_distinct(d: DbView, user: u64)
    requires
        distinct_org_ids(d.orgs),
    ensures
        distinct_values(owned_org_ids(d, user)),
{
    lemma_filter_distinct(d.orgs, owned_by(user));
    let fil = d.orgs.filter(owned_by(user));
    let owned = owned_org_ids(d, user);
    assert forall|i: int, j: int| 0 <= i < j < owned.len() implies (#[trigger] owned[i]) != (#[trigger] owned[j]) by {
        assert(owned[i] == fil[i].id && owned[j] == fil[j].id);
    }
}

/// The member-list pull keeps organization identifiers unique.
pub proof fn lemma_pull_keeps_distinct(orgs: Seq<OrgView>, user: u64)
    requires
        distinct_org_ids(orgs),
    ensures
        distinct_org_ids(orgs.map_values(pull_fn(user))),
{
    let m = orgs.map_values(pull_fn(user));
    assert forall|i: int, j: int| 0 <= i < j < m.len() implies (#[trigger] m[i]).id != (
    #[trigger] m[j]).id by {
        assert(m[i] == pull_member(orgs[i], user) && m[j] == pull_member(orgs[j], user));
    }
}

/// Deleting the issues of owned organization `j` advances the store from
/// `after_orgs(d, user, j)` to `after_issues(d, user, j)`.
pub proof fn lemma_issue_step(d: DbView, user: u64, j: int)
    requires
        0 <= j < owned_org_ids(d, user).len(),
    ensures
        after_issues(d, user, j) == (DbView {
            issues: after_orgs(d, user, j).issues.filter(other_org(owned_org_ids(d, user)[j])),
            ..after_orgs(d, user, j)
        }),
{
    broadcast use vstd::seq_lib::lemma_seq_contains_after_push;

    let owned = owned_org_ids(d, user);
    let done = owned.subrange(0, j);
    let through = owned.subrange(0, j + 1);
    let oid = owned[j];
    assert(through =~= done.push(oid));
    assert forall|i: IssueView| #[trigger] issue_not_among(through)(i) == (issue_not_among(done)(i)
        && other_org(oid)(i)) by {
        assert(through.contains(i.org) == (done.contains(i.org) || i.org == oid));
    }
    crate::seq_facts::lemma_filter_compose(
        d.issues,
        issue_not_among(done),
        other_org(oid),
        issue_not_among(through),
    );
}

/// Deleting owned organization `j`'s record advances the store from
/// `after_issues(d, user, j)` to `after_orgs(d, user, j + 1)`.
pub proof fn lemma_org_step(d: DbView, user: u64, j: int)
    requires
        0 <= j < owned_org_ids(d, user).len(),
    ensures
        after_orgs(d, user, j + 1) == (DbView {
            orgs: after_issues(d, user, j).orgs.filter(other_id(owned_org_ids(d, user)[j])),
            ..after_issues(d, user, j)
        }),
{
    broadcast use vstd::seq_lib::lemma_seq_contains_after_push;

    let owned = owned_org_ids(d, user);
    let done = owned.subrange(0, j);
    let through = owned.subrange(0, j + 1);
    let oid = owned[j];
    assert(through =~= done.push(oid));
    assert forall|o: OrgView| #[trigger] org_not_among(through)(o) == (org_not_among(done)(o)
        && other_id(oid)(o)) by {
        assert(through.contains(o.id) == (done.contains(o.id) || o.id == oid));
    }
    crate::seq_facts::lemma_filter_compose(
        d.orgs,
        org_not_among(done),
        other_id(oid),
        org_not_among(through),
    );
}

/// With every owned organization cascaded, the surviving organizations are
/// exactly those the user does not own, and the surviving issues exactly
/// those of organizations the user never owned.
pub proof fn lemma_after_orgs_full(d: DbView, user: u64)
    requires
        distinct_org_ids(d.orgs),
    ensures
        after_orgs(d, user, owned_org_ids(d, user).len() as int).orgs == d.orgs.filter(
            not_owned_by(user),
        ),
        after_orgs(d, user, owned_org_ids(d, user).len() as int).issues == d.issues.filter(
            issue_not_of_owned(d, user),
        ),
{
    let owned = owned_org_ids(d, user);
    let n = owned.len() as int;
    assert(owned.subrange(0, n) =~= owned);
    lemma_owned_contains(d, user);
    assert forall|k: int| 0 <= k < d.orgs.len() implies org_not_among(owned)(
        #[trigger] d.orgs[k],
    ) == not_owned_by(user)(d.orgs[k]) by {
        let o = d.orgs[k];
        if o.owner == user {
            assert(org_owned_by(d, o.id, user));
        } else {
            if org_owned_by(d, o.id, user) {
                let k2 = choose|k2: int|
                    0 <= k2 < d.orgs.len() && (#[trigger] d.orgs[k2]).id == o.id && d.orgs[k2].owner
                        == user;
                assert(k2 != k);
                assert(false);
            }
        }
    }
    crate::seq_facts::lemma_filter_congruence(d.orgs, org_not_among(owned), not_owned_by(user));
    assert forall|k: int| 0 <= k < d.issues.len() implies issue_not_among(owned)(
        #[trigger] d.issues[k],
    ) == issue_not_of_owned(d, user)(d.issues[k]) by {
        assert(owned.contains(d.issues[k].org) == org_owned_by(d, d.issues[k].org, user));
    }
    crate::seq_facts::lemma_filter_congruence(
        d.issues,
        issue_not_among(owned),
        issue_not_of_owned(d, user),
    );
}

/// Deletion of the user record; an absent identifier makes this a no-op.
pub fn delete_user(d: &mut Database, user: u64)
    ensures
        final(d)@.users == old(d)@.users.filter(other_user(user)),
        final(d)@.orgs == old(d)@.orgs,
        final(d)@.issues == old(d)@.issues,
{
    let kept = without_value(&d.users, user);
    d.users = kept;
}

} // verus!
