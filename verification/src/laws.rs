//! What holds of the core whatever requests it is sent.

use vstd::prelude::*;
use crate::catalog::{all_permissions, all_permissions_complete, Permission, PermissionGroupTag};
use crate::engine::Engine;
use crate::error::AuthzError;
use crate::model::{
    BindingStatus, Principal, Resolved, Role, SessionDescriptor, TokenPurpose, UserRole,
};
use crate::routes::{AuthRequirement, gate_verdict};
use crate::rules::{
    activated, binds, candidate_merchants, has_binding, has_role, keeps_active, keeps_scopes,
    role_by_id, role_lookup, selected,
};

verus! {

/// Roles that went through no change at all kept their scopes.
pub proof fn scopes_kept_by_no_change(roles: Seq<Role>)
    ensures
        keeps_scopes(roles, roles),
{
}

/// The level of a role is fixed for good: what holds from one state to
/// the next holds over any number of steps.
pub proof fn scopes_kept_over_steps(first: Seq<Role>, second: Seq<Role>, third: Seq<Role>)
    requires
        keeps_scopes(first, second),
        keeps_scopes(second, third),
    ensures
        keeps_scopes(first, third),
{
    assert forall|i: int| 0 <= i < first.len() implies {
        &&& (#[trigger] third[i]).role_id == first[i].role_id
        &&& third[i].scope_level == first[i].scope_level
        &&& third[i].lineage == first[i].lineage
    } by {
        assert(second[i].role_id == first[i].role_id);
    }
}

/// A role that is looked up by its identifier before and after any
/// number of requests has the level and the place that it was made with.
pub proof fn role_keeps_its_scope(before: Engine, after: Engine, role_id: u64)
    requires
        before.wf(),
        after.wf(),
        keeps_scopes(before.roles(), after.roles()),
        has_role(before.roles(), role_id),
    ensures
        has_role(after.roles(), role_id),
        role_by_id(after.roles(), role_id).scope_level == role_by_id(
            before.roles(),
            role_id,
        ).scope_level,
        role_by_id(after.roles(), role_id).lineage == role_by_id(before.roles(), role_id).lineage,
{
    let k = choose|k: int|
        0 <= k < before.roles().len() && (#[trigger] before.roles()[k]).role_id == role_id;
    role_lookup(before.roles(), before.catalog(), before.next_role_id(), k);
    assert(after.roles()[k].role_id == role_id);
    role_lookup(after.roles(), after.catalog(), after.next_role_id(), k);
}

/// What resolving a principal gives as its permissions is what the
/// catalog, asked on its own for the group tags of the principal's role,
/// gives.
pub proof fn resolve_agrees_with_catalog(
    engine: Engine,
    principal: Principal,
    resolved: Result<Resolved, AuthzError>,
    direct: Result<Vec<Permission>, AuthzError>,
)
    requires
        engine.wf(),
        has_role(engine.roles(), principal.role_id),
        engine.resolve_result(principal, resolved),
        engine.catalog().permissions_for_result(
            role_by_id(engine.roles(), principal.role_id).groups@,
            direct,
        ),
    ensures
        resolved is Ok,
        direct is Ok,
        resolved->Ok_0.permissions@ == direct->Ok_0@,
{
    let k = choose|k: int|
        0 <= k < engine.roles().len() && (#[trigger] engine.roles()[k]).role_id
            == principal.role_id;
    role_lookup(engine.roles(), engine.catalog(), engine.next_role_id(), k);
}

/// A permission is among those that a list of tags grants exactly when
/// one of the tags grants it.
pub proof fn permitted_means_granted(engine: Engine, tags: Seq<PermissionGroupTag>, p: Permission)
    ensures
        engine.catalog().permitted(tags).contains(p) <==> engine.catalog().granted(tags, p),
{
    let pred = engine.catalog().grant_pred(tags);
    let all = all_permissions();
    all_permissions_complete(p);
    if engine.catalog().granted(tags, p) {
        all.lemma_filter_contains(pred, p.ordinal() as int);
    }
    if engine.catalog().permitted(tags).contains(p) {
        let out = engine.catalog().permitted(tags);
        let k = choose|k: int| 0 <= k < out.len() && out[k] == p;
        all.lemma_filter_pred(pred, k);
    }
}

/// A credential that was not issued for accepting invitations never gets
/// an invitation accepted, whatever the state and whoever the holder.
pub proof fn wrong_purpose_never_accepts(engine: Engine, principal: Principal)
    requires
        principal.token_purpose != Some(TokenPurpose::AcceptInvite),
    ensures
        engine.accept_verdict(principal) == Some(AuthzError::InvalidTokenPurpose),
        forall|m: u64|
            engine.select_verdict(principal, m) == Some(AuthzError::InvalidTokenPurpose),
        gate_verdict(
            engine,
            principal,
            AuthRequirement::RequireTokenPurpose(TokenPurpose::AcceptInvite),
        ) == Some(AuthzError::InvalidTokenPurpose),
{
}

/// A credential that is bound to a purpose opens no flow that asks for a
/// full session.
pub proof fn purpose_bound_credential_is_no_session(
    engine: Engine,
    principal: Principal,
    permission: Permission,
)
    requires
        principal.token_purpose is Some,
    ensures
        gate_verdict(engine, principal, AuthRequirement::RequirePermission(permission)) == Some(
            AuthzError::InvalidTokenPurpose,
        ),
        gate_verdict(engine, principal, AuthRequirement::NoPermission) == Some(
            AuthzError::InvalidTokenPurpose,
        ),
{
}

/// Every binding of `before` is still bound, as whatever, in `after`.
pub open spec fn none_removed(before: Seq<UserRole>, after: Seq<UserRole>) -> bool {
    forall|i: int|
        0 <= i < before.len() ==> has_binding(
            after,
            (#[trigger] before[i]).user_id,
            before[i].lineage,
        )
}

/// A binding that became active stays active over any number of requests
/// for as long as it is not removed.
pub proof fn active_kept_over_steps(
    first: Seq<UserRole>,
    second: Seq<UserRole>,
    third: Seq<UserRole>,
)
    requires
        keeps_active(first, second),
        keeps_active(second, third),
        none_removed(first, second),
    ensures
        keeps_active(first, third),
{
    assert forall|i: int, j: int|
        0 <= i < first.len() && 0 <= j < third.len() && (#[trigger] first[i]).status
            == BindingStatus::Active && binds(
            #[trigger] third[j],
            first[i].user_id,
            first[i].lineage,
        ) implies third[j].status == BindingStatus::Active by {
        assert(has_binding(second, first[i].user_id, first[i].lineage));
        let k = choose|k: int|
            0 <= k < second.len() && binds(#[trigger] second[k], first[i].user_id, first[i].lineage);
        assert(second[k].status == BindingStatus::Active);
        assert(binds(third[j], second[k].user_id, second[k].lineage));
    }
}

/// Choosing a merchant spends the credential: after a choice that was
/// granted, every further choice by the same invitee is turned down as
/// already processed, whichever merchant it names.
pub proof fn merchant_select_is_single_use(
    before: Engine,
    after: Engine,
    principal: Principal,
    merchant_id: u64,
    now: u64,
    session: SessionDescriptor,
    again: u64,
)
    requires
        before.select_verdict(principal, merchant_id) is None,
        before.select_outcome(after, principal, merchant_id, now, session),
    ensures
        after.select_verdict(principal, again) == Some(AuthzError::AlreadyProcessed),
{
}

/// Choosing a merchant accepts the invitations under that merchant and
/// leaves those under every other merchant open.
pub proof fn merchant_select_leaves_the_rest(
    bindings: Seq<UserRole>,
    user_id: u64,
    merchant_id: u64,
    now: u64,
    i: int,
)
    requires
        0 <= i < bindings.len(),
    ensures
        selected(bindings[i], user_id, Some(merchant_id)) ==> activated(
            bindings,
            user_id,
            Some(merchant_id),
            now,
        )[i].status == BindingStatus::Active,
        !selected(bindings[i], user_id, Some(merchant_id)) ==> activated(
            bindings,
            user_id,
            Some(merchant_id),
            now,
        )[i] == bindings[i],
{
}

/// The merchant that was chosen is no candidate afterwards: the same
/// choice cannot be made twice.
pub proof fn chosen_merchant_is_no_candidate(
    bindings: Seq<UserRole>,
    user_id: u64,
    merchant_id: u64,
    now: u64,
)
    ensures
        !candidate_merchants(activated(bindings, user_id, Some(merchant_id), now), user_id).contains(
            merchant_id,
        ),
{
    let after = activated(bindings, user_id, Some(merchant_id), now);
    crate::rules::candidates_are_invitations(after, user_id, after.len() as int, merchant_id);
    assert forall|k: int| 0 <= k < after.len() implies !selected(
        #[trigger] after[k],
        user_id,
        Some(merchant_id),
    ) by {}
}

} // verus!
