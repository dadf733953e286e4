//! The guarantees of a completed — or aborted — deletion cascade, proved
//! once and for all over the store model.

use crate::store::{
    after_delete, after_orgs, distinct_org_ids, issue_not_of_owned, lemma_owned_ids_distinct,
    not_owned_by, org_not_among, org_owned_by, other_user, owned_by, owned_org_ids, pull_fn,
    pull_member, DbView,
};
use vstd::prelude::*;

verus! {

broadcast use vstd::seq_lib::group_filter_ensures;

/// After a completed cascade nothing left in the store refers to the
/// deleted user: the user record is gone, no surviving organization is
/// owned by the user or lists the user as a member, and every surviving
/// issue belongs to an organization the user never owned.
pub proof fn lemma_cascade_invariant(d: DbView, user: u64)
    ensures
        !after_delete(d, user).users.contains(user),
        forall|k: int|
            0 <= k < after_delete(d, user).orgs.len() ==> (#[trigger] after_delete(
                d,
                user,
            ).orgs[k]).owner != user,
        forall|k: int|
            0 <= k < after_delete(d, user).orgs.len() ==> !(#[trigger] after_delete(
                d,
                user,
            ).orgs[k]).members.contains(user),
        forall|k: int|
            0 <= k < after_delete(d, user).issues.len() ==> !org_owned_by(
                d,
                (#[trigger] after_delete(d, user).issues[k]).org,
                user,
            ),
{
    let a = after_delete(d, user);
    if a.users.contains(user) {
        let i = choose|i: int| 0 <= i < a.users.len() && a.users[i] == user;
        assert(other_user(user)(a.users[i]));
    }
    let fil = d.orgs.filter(not_owned_by(user));
    assert forall|k: int| 0 <= k < a.orgs.len() implies (#[trigger] a.orgs[k]).owner != user && !(
    a.orgs[k]).members.contains(user) by {
        assert(a.orgs[k] == pull_member(fil[k], user));
        assert(not_owned_by(user)(fil[k]));
        if a.orgs[k].members.contains(user) {
            let i = choose|i: int|
                0 <= i < a.orgs[k].members.len() && a.orgs[k].members[i] == user;
            assert(other_user(user)(fil[k].members.filter(other_user(user))[i]));
        }
    }
    assert forall|k: int| 0 <= k < a.issues.len() implies !org_owned_by(
        d,
        (#[trigger] a.issues[k]).org,
        user,
    ) by {
        assert(issue_not_of_owned(d, user)(d.issues.filter(issue_not_of_owned(d, user))[k]));
    }
}

/// Querying by the identifier of any organization the user owned finds
/// nothing after the cascade: neither an organization record nor an issue.
pub proof fn lemma_owned_data_erased(d: DbView, user: u64, org_id: u64)
    requires
        distinct_org_ids(d.orgs),
        org_owned_by(d, org_id, user),
    ensures
        forall|k: int|
            0 <= k < after_delete(d, user).orgs.len() ==> (#[trigger] after_delete(
                d,
                user,
            ).orgs[k]).id != org_id,
        forall|k: int|
            0 <= k < after_delete(d, user).issues.len() ==> (#[trigger] after_delete(
                d,
                user,
            ).issues[k]).org != org_id,
{
    let a = after_delete(d, user);
    let owner_k = choose|k: int|
        0 <= k < d.orgs.len() && (#[trigger] d.orgs[k]).id == org_id && d.orgs[k].owner == user;
    let fil = d.orgs.filter(not_owned_by(user));
    assert forall|k: int| 0 <= k < a.orgs.len() implies (#[trigger] a.orgs[k]).id != org_id by {
        assert(a.orgs[k] == pull_member(fil[k], user));
        assert(not_owned_by(user)(fil[k]));
        if fil[k].id == org_id {
            assert(fil.contains(fil[k]));
            d.orgs.lemma_filter_contains_rev(not_owned_by(user), fil[k]);
            let k2 = choose|k2: int| 0 <= k2 < d.orgs.len() && d.orgs[k2] == fil[k];
            assert(k2 != owner_k);
            assert(false);
        }
    }
    assert forall|k: int| 0 <= k < a.issues.len() implies (#[trigger] a.issues[k]).org
        != org_id by {
        assert(issue_not_of_owned(d, user)(d.issues.filter(issue_not_of_owned(d, user))[k]));
    }
}

/// An organization the user does not own survives the cascade as the same
/// record with the user withdrawn from its member list.
pub proof fn lemma_member_only_org_survives(d: DbView, user: u64, k: int)
    requires
        0 <= k < d.orgs.len(),
        d.orgs[k].owner != user,
    ensures
        exists|k2: int|
            0 <= k2 < after_delete(d, user).orgs.len() && #[trigger] after_delete(
                d,
                user,
            ).orgs[k2] == pull_member(d.orgs[k], user),
{
    let fil = d.orgs.filter(not_owned_by(user));
    assert(not_owned_by(user)(d.orgs[k]));
    assert(fil.contains(d.orgs[k]));
    let i = choose|i: int| 0 <= i < fil.len() && fil[i] == d.orgs[k];
    assert(after_delete(d, user).orgs[i] == pull_member(d.orgs[k], user));
}

/// For a user who owns no organization the cascade removes only the user
/// record: no organization record and no issue is deleted, and the member
/// pull still applies to every organization.
pub proof fn lemma_no_owned_orgs(d: DbView, user: u64)
    requires
        forall|k: int| 0 <= k < d.orgs.len() ==> (#[trigger] d.orgs[k]).owner != user,
    ensures
        after_delete(d, user).users == d.users.filter(other_user(user)),
        after_delete(d, user).orgs == d.orgs.map_values(pull_fn(user)),
        after_delete(d, user).issues == d.issues,
{
    crate::seq_facts::lemma_filter_all(d.orgs, not_owned_by(user));
    assert forall|i: int| 0 <= i < d.issues.len() implies issue_not_of_owned(d, user)(
        #[trigger] d.issues[i],
    ) by {
        if org_owned_by(d, d.issues[i].org, user) {
            let k = choose|k: int|
                0 <= k < d.orgs.len() && (#[trigger] d.orgs[k]).id == d.issues[i].org
                    && d.orgs[k].owner == user;
            assert(false);
        }
    }
    crate::seq_facts::lemma_filter_all(d.issues, issue_not_of_owned(d, user));
}

/// For a user who owns no organization and stands in no member list, the
/// cascade leaves every organization and issue record exactly as it was.
pub proof fn lemma_bystander_records_untouched(d: DbView, user: u64)
    requires
        forall|k: int| 0 <= k < d.orgs.len() ==> (#[trigger] d.orgs[k]).owner != user,
        forall|k: int| 0 <= k < d.orgs.len() ==> !(#[trigger] d.orgs[k]).members.contains(user),
    ensures
        after_delete(d, user).users == d.users.filter(other_user(user)),
        after_delete(d, user).orgs == d.orgs,
        after_delete(d, user).issues == d.issues,
{
    lemma_no_owned_orgs(d, user);
    assert forall|k: int| 0 <= k < d.orgs.len() implies pull_member(#[trigger] d.orgs[k], user)
        == d.orgs[k] by {
        assert forall|i: int| 0 <= i < d.orgs[k].members.len() implies other_user(user)(
            #[trigger] d.orgs[k].members[i],
        ) by {
            if d.orgs[k].members[i] == user {
                assert(d.orgs[k].members.contains(user));
            }
        }
        crate::seq_facts::lemma_filter_all(d.orgs[k].members, other_user(user));
    }
    assert(d.orgs.map_values(pull_fn(user)) =~= d.orgs);
}

/// Running the cascade for a user a second time changes nothing: after one
/// completed cascade the user owns no organization, stands in no member
/// list, and has no user record, so every step of the second run is a
/// no-op.
pub proof fn lemma_cascade_idempotent(d: DbView, user: u64)
    ensures
        after_delete(after_delete(d, user), user) == after_delete(d, user),
{
    let a = after_delete(d, user);
    lemma_cascade_invariant(d, user);
    lemma_bystander_records_untouched(a, user);
    assert forall|i: int| 0 <= i < a.users.len() implies other_user(user)(
        #[trigger] a.users[i],
    ) by {
        assert(other_user(user)(d.users.filter(other_user(user))[i]));
    }
    crate::seq_facts::lemma_filter_all(a.users, other_user(user));
    assert(after_delete(a, user) =~= a);
}

/// When deleting the issues of the owned organization at position `j`
/// fails, that organization's record is still present in the resulting
/// store — the cascade never reached the step that would remove it — and
/// no user record or member list has been touched.
pub proof fn lemma_faulted_org_survives(d: DbView, user: u64, j: int)
    requires
        distinct_org_ids(d.orgs),
        0 <= j < owned_org_ids(d, user).len(),
    ensures
        org_owned_by(after_orgs(d, user, j), owned_org_ids(d, user)[j], user),
        after_orgs(d, user, j).users == d.users,
{
    let owned = owned_org_ids(d, user);
    let done = owned.subrange(0, j);
    let oid = owned[j];
    let fil = d.orgs.filter(owned_by(user));
    assert(owned[j] == fil[j].id);
    assert(owned_by(user)(fil[j]));
    assert(fil.contains(fil[j]));
    d.orgs.lemma_filter_contains_rev(owned_by(user), fil[j]);
    let k = choose|k: int| 0 <= k < d.orgs.len() && d.orgs[k] == fil[j];
    lemma_owned_ids_distinct(d, user);
    if done.contains(oid) {
        let i = choose|i: int| 0 <= i < done.len() && done[i] == oid;
        assert(owned[i] == owned[j]);
        assert(false);
    }
    assert(org_not_among(done)(d.orgs[k]));
    let surviving = d.orgs.filter(org_not_among(done));
    assert(surviving.contains(d.orgs[k]));
    let k2 = choose|k2: int| 0 <= k2 < surviving.len() && surviving[k2] == d.orgs[k];
    assert(after_orgs(d, user, j).orgs == surviving);
    assert((#[trigger] after_orgs(d, user, j).orgs[k2]).id == oid && after_orgs(
        d,
        user,
        j,
    ).orgs[k2].owner == user);
}

} // verus!
