//! The entry points of the core. Each one names its flow, checks the
//! caller's credential against what the flow requires, and only then
//! hands the request to the engine.

use vstd::prelude::*;
use crate::catalog::{GroupInfo, Permission, PermissionGroupTag};
use crate::engine::Engine;
use crate::error::AuthzError;
use crate::model::{
    AcceptInvitationResponse, CreateRoleRequest, DeleteUserRoleRequest, GetRoleRequest,
    MerchantSelectRequest, Principal, Role, RoleDetails, RoleSummary, SessionDescriptor,
    TokenPurpose, UpdateRoleRequest, UpdateUserRoleRequest, UserSummary,
};
use crate::rules::{
    bindings_confined, has_role, keeps_active, keeps_scopes, others_untouched, role_by_id,
    roles_confined,
};

verus! {

/// The operations that callers can ask for.
#[derive(Clone, Copy, Debug, PartialEq, Eq, Structural)]
pub enum Flow {
    GetAuthorizationInfo,
    GetRoleFromToken,
    CreateRole,
    ListRoles,
    GetRole,
    UpdateRole,
    UpdateUserRole,
    AcceptInvitation,
    MerchantSelect,
    DeleteUserRole,
    GetRolesInfo,
    ListUsersInLineage,
}

/// What a flow asks of the caller's credential.
#[derive(Clone, Copy, Debug, PartialEq, Eq, Structural)]
pub enum AuthRequirement {
    /// A full session whose role grants the permission.
    RequirePermission(Permission),
    /// A credential issued for exactly this purpose.
    RequireTokenPurpose(TokenPurpose),
    /// A full session; no permission is asked for.
    NoPermission,
}

/// Whether a flow wants the caller to hold a lock on a resource while the
/// core works.
#[derive(Clone, Copy, Debug, PartialEq, Eq, Structural)]
pub enum LockAction {
    /// The caller has to hold the lock on the resource with this key.
    Hold { resource: u64 },
    /// No lock is needed.
    NotApplicable,
}

impl Flow {
    /// What the flow requires of the caller.
    pub open spec fn required(self) -> AuthRequirement {
        match self {
            Flow::GetAuthorizationInfo => AuthRequirement::RequirePermission(Permission::UsersRead),
            Flow::GetRoleFromToken => AuthRequirement::NoPermission,
            Flow::CreateRole => AuthRequirement::RequirePermission(Permission::UsersWrite),
            Flow::ListRoles => AuthRequirement::RequirePermission(Permission::UsersRead),
            Flow::GetRole => AuthRequirement::RequirePermission(Permission::UsersRead),
            Flow::UpdateRole => AuthRequirement::RequirePermission(Permission::UsersWrite),
            Flow::UpdateUserRole => AuthRequirement::RequirePermission(Permission::UsersWrite),
            Flow::AcceptInvitation => AuthRequirement::RequireTokenPurpose(
                TokenPurpose::AcceptInvite,
            ),
            Flow::MerchantSelect => AuthRequirement::RequireTokenPurpose(TokenPurpose::AcceptInvite),
            Flow::DeleteUserRole => AuthRequirement::RequirePermission(Permission::UsersWrite),
            Flow::GetRolesInfo => AuthRequirement::RequirePermission(Permission::UsersRead),
            Flow::ListUsersInLineage => AuthRequirement::NoPermission,
        }
    }

    /// Computes [`Flow::required`].
    pub fn requirement(self) -> (r: AuthRequirement)
        ensures
            r == self.required(),
    {
        match self {
            Flow::GetAuthorizationInfo => AuthRequirement::RequirePermission(Permission::UsersRead),
            Flow::GetRoleFromToken => AuthRequirement::NoPermission,
            Flow::CreateRole => AuthRequirement::RequirePermission(Permission::UsersWrite),
            Flow::ListRoles => AuthRequirement::RequirePermission(Permission::UsersRead),
            Flow::GetRole => AuthRequirement::RequirePermission(Permission::UsersRead),
            Flow::UpdateRole => AuthRequirement::RequirePermission(Permission::UsersWrite),
            Flow::UpdateUserRole => AuthRequirement::RequirePermission(Permission::UsersWrite),
            Flow::AcceptInvitation => AuthRequirement::RequireTokenPurpose(
                TokenPurpose::AcceptInvite,
            ),
            Flow::MerchantSelect => AuthRequirement::RequireTokenPurpose(TokenPurpose::AcceptInvite),
            Flow::DeleteUserRole => AuthRequirement::RequirePermission(Permission::UsersWrite),
            Flow::GetRolesInfo => AuthRequirement::RequirePermission(Permission::UsersRead),
            Flow::ListUsersInLineage => AuthRequirement::NoPermission,
        }
    }

    /// The lock that the flow wants held: none of these flows wants one,
    /// since each changes the state in one step.
    pub fn lock_action(self) -> (a: LockAction)
        ensures
            a == LockAction::NotApplicable,
    {
        LockAction::NotApplicable
    }
}

/// Why the caller's credential does not meet a requirement, if it does
/// not. A credential that was issued for one purpose serves that purpose
/// only: where a full session is asked for, it is turned down as such.
pub open spec fn gate_verdict(
    engine: Engine,
    principal: Principal,
    requirement: AuthRequirement,
) -> Option<AuthzError> {
    match requirement {
        AuthRequirement::RequireTokenPurpose(purpose) => if principal.token_purpose == Some(
            purpose,
        ) {
            None
        } else {
            Some(AuthzError::InvalidTokenPurpose)
        },
        AuthRequirement::NoPermission => if principal.token_purpose is Some {
            Some(AuthzError::InvalidTokenPurpose)
        } else {
            None
        },
        AuthRequirement::RequirePermission(permission) => if principal.token_purpose is Some {
            Some(AuthzError::InvalidTokenPurpose)
        } else if !has_role(engine.roles(), principal.role_id) {
            Some(AuthzError::RoleNotFound)
        } else if !engine.catalog().permitted(
            role_by_id(engine.roles(), principal.role_id).groups@,
        ).contains(permission) {
            Some(AuthzError::InsufficientPrivilege)
        } else {
            None
        },
    }
}

/// The one gate that every entry point passes before it does anything.
pub fn authorize(engine: &Engine, principal: &Principal, requirement: AuthRequirement) -> (r: Result<
    (),
    AuthzError,
>)
    requires
        engine.wf(),
    ensures
        gate_verdict(*engine, *principal, requirement) matches Some(e) ==> r == Err::<
            (),
            AuthzError,
        >(e),
        gate_verdict(*engine, *principal, requirement) is None ==> r is Ok,
{
    match requirement {
        AuthRequirement::RequireTokenPurpose(purpose) => {
            if crate::engine::holds_purpose(principal, purpose) {
                Ok(())
            } else {
                Err(AuthzError::InvalidTokenPurpose)
            }
        },
        AuthRequirement::NoPermission => {
            if principal.token_purpose.is_some() {
                Err(AuthzError::InvalidTokenPurpose)
            } else {
                Ok(())
            }
        },
        AuthRequirement::RequirePermission(permission) => {
            if principal.token_purpose.is_some() {
                return Err(AuthzError::InvalidTokenPurpose);
            }
            match engine.resolve(principal) {
                Err(e) => Err(e),
                Ok(resolved) => {
                    if crate::catalog::holds(&resolved.permissions, permission) {
                        Ok(())
                    } else {
                        Err(AuthzError::InsufficientPrivilege)
                    }
                },
            }
        },
    }
}

/// One line of the listing of group tags.
#[derive(Debug)]
pub struct TagDescription {
    pub tag: PermissionGroupTag,
    /// The tag as it is written in requests.
    pub name: String,
    pub description: String,
}

/// The listing holds, for each tag that the catalog defines, the tag, its
/// description and its permissions, in the order of the tags' ordinals.
pub open spec fn is_authorization_info(engine: Engine, infos: Seq<GroupInfo>) -> bool {
    &&& infos.len() == engine.catalog().defined_tags().len()
    &&& forall|k: int|
        0 <= k < infos.len() ==> {
            &&& (#[trigger] infos[k]).tag == engine.catalog().defined_tags()[k]
            &&& infos[k].description@ == engine.catalog().description_of(infos[k].tag)
            &&& infos[k].permissions@ == engine.catalog().bundle(infos[k].tag)
        }
}

/// Lists what each group tag of the catalog stands for. The caller needs
/// a full session that may read users.
pub fn get_authorization_info(engine: &Engine, principal: &Principal) -> (r: Result<
    Vec<GroupInfo>,
    AuthzError,
>)
    requires
        engine.wf(),
    ensures
        match gate_verdict(*engine, *principal, Flow::GetAuthorizationInfo.required()) {
            Some(e) => r == Err::<Vec<GroupInfo>, AuthzError>(e),
            None => r is Ok && is_authorization_info(*engine, r->Ok_0@),
        },
{
    match authorize(engine, principal, Flow::GetAuthorizationInfo.requirement()) {
        Err(e) => Err(e),
        Ok(_) => Ok(engine.permission_catalog().all_group_tags_with_descriptions()),
    }
}

/// The listing holds, for each tag that the catalog defines, the tag, its
/// name and its description, in the order of the tags' ordinals.
pub open spec fn is_role_information(engine: Engine, lines: Seq<TagDescription>) -> bool {
    &&& lines.len() == engine.catalog().defined_tags().len()
    &&& forall|k: int|
        0 <= k < lines.len() ==> {
            &&& (#[trigger] lines[k]).tag == engine.catalog().defined_tags()[k]
            &&& lines[k].name@ == lines[k].tag.spelling()
            &&& lines[k].description@ == engine.catalog().description_of(lines[k].tag)
        }
}

/// Lists the group tags that roles can carry, each with its name and its
/// description. The caller needs a full session that may read users.
pub fn get_role_information(engine: &Engine, principal: &Principal) -> (r: Result<
    Vec<TagDescription>,
    AuthzError,
>)
    requires
        engine.wf(),
    ensures
        match gate_verdict(*engine, *principal, Flow::GetRolesInfo.required()) {
            Some(e) => r == Err::<Vec<TagDescription>, AuthzError>(e),
            None => r is Ok && is_role_information(*engine, r->Ok_0@),
        },
{
    match authorize(engine, principal, Flow::GetRolesInfo.requirement()) {
        Err(e) => {
            return Err(e);
        },
        Ok(_) => {},
    }
    let infos = engine.permission_catalog().all_group_tags_with_descriptions();
    let mut lines: Vec<TagDescription> = Vec::new();
    let mut k: usize = 0;
    while k < infos.len()
        invariant
            k <= infos.len(),
            lines@.len() == k,
            is_authorization_info(*engine, infos@),
            forall|j: int|
                0 <= j < k ==> {
                    &&& (#[trigger] lines@[j]).tag == infos@[j].tag
                    &&& lines@[j].name@ == lines@[j].tag.spelling()
                    &&& lines@[j].description@ == infos@[j].description@
                },
        decreases infos.len() - k,
    {
        let info = &infos[k];
        lines.push(
            TagDescription {
                tag: info.tag,
                name: info.tag.name().to_owned(),
                description: info.description.clone(),
            },
        );
        k = k + 1;
    }
    Ok(lines)
}

/// The level and the group tags of the caller's role. The caller needs a
/// full session.
pub fn get_role_from_token(engine: &Engine, principal: &Principal) -> (r: Result<
    RoleSummary,
    AuthzError,
>)
    requires
        engine.wf(),
    ensures
        match gate_verdict(*engine, *principal, Flow::GetRoleFromToken.required()) {
            Some(e) => r == Err::<RoleSummary, AuthzError>(e),
            None => engine.role_from_token_result(*principal, r),
        },
{
    match authorize(engine, principal, Flow::GetRoleFromToken.requirement()) {
        Err(e) => Err(e),
        Ok(_) => engine.role_from_token(principal),
    }
}

/// Creates a role. The caller needs a full session that may write users;
/// what happens then is what [`Engine::create_role`] does.
pub fn create_role(engine: &mut Engine, principal: &Principal, request: CreateRoleRequest, now: u64) -> (r:
    Result<Role, AuthzError>)
    requires
        old(engine).wf(),
    ensures
        final(engine).wf(),
        match gate_verdict(*old(engine), *principal, Flow::CreateRole.required()) {
            Some(e) => r == Err::<Role, AuthzError>(e) && *final(engine) == *old(engine),
            None => old(engine).create_role_result(*final(engine), *principal, request, now, r),
        },
        keeps_scopes(old(engine).roles(), final(engine).roles()),
        keeps_active(old(engine).bindings(), final(engine).bindings()),
        old(engine).confined_to(*final(engine), *principal),
{
    proof {
        unchanged_is_harmless(*engine, *principal);
    }
    match authorize(engine, principal, Flow::CreateRole.requirement()) {
        Err(e) => Err(e),
        Ok(_) => engine.create_role(principal, request, now),
    }
}

/// Lists the roles that the caller may grant. The caller needs a full
/// session that may read users.
pub fn list_all_roles(engine: &Engine, principal: &Principal) -> (r: Result<Vec<Role>, AuthzError>)
    requires
        engine.wf(),
    ensures
        match gate_verdict(*engine, *principal, Flow::ListRoles.required()) {
            Some(e) => r == Err::<Vec<Role>, AuthzError>(e),
            None => engine.list_roles_result(*principal, r),
        },
{
    match authorize(engine, principal, Flow::ListRoles.requirement()) {
        Err(e) => Err(e),
        Ok(_) => engine.list_invitable_roles(principal),
    }
}

/// Reads a role. The caller needs a full session that may read users.
pub fn get_role(engine: &Engine, principal: &Principal, request: GetRoleRequest) -> (r: Result<
    RoleDetails,
    AuthzError,
>)
    requires
        engine.wf(),
    ensures
        match gate_verdict(*engine, *principal, Flow::GetRole.required()) {
            Some(e) => r == Err::<RoleDetails, AuthzError>(e),
            None => engine.get_role_result(*principal, request.role_id, r),
        },
{
    match authorize(engine, principal, Flow::GetRole.requirement()) {
        Err(e) => Err(e),
        Ok(_) => engine.get_role(principal, request),
    }
}

/// Changes a role. The caller needs a full session that may write users;
/// what happens then is what [`Engine::update_role`] does.
pub fn update_role(
    engine: &mut Engine,
    principal: &Principal,
    role_id: u64,
    request: UpdateRoleRequest,
    now: u64,
) -> (r: Result<Role, AuthzError>)
    requires
        old(engine).wf(),
    ensures
        final(engine).wf(),
        match gate_verdict(*old(engine), *principal, Flow::UpdateRole.required()) {
            Some(e) => r == Err::<Role, AuthzError>(e) && *final(engine) == *old(engine),
            None => old(engine).update_role_result(
                *final(engine),
                *principal,
                role_id,
                request,
                now,
                r,
            ),
        },
        keeps_scopes(old(engine).roles(), final(engine).roles()),
        keeps_active(old(engine).bindings(), final(engine).bindings()),
        old(engine).confined_to(*final(engine), *principal),
{
    proof {
        unchanged_is_harmless(*engine, *principal);
    }
    match authorize(engine, principal, Flow::UpdateRole.requirement()) {
        Err(e) => Err(e),
        Ok(_) => engine.update_role(principal, role_id, request, now),
    }
}

/// Gives a binding another role. The caller needs a full session that
/// may write users; what happens then is what
/// [`Engine::update_user_role`] does.
pub fn update_user_role(
    engine: &mut Engine,
    principal: &Principal,
    request: UpdateUserRoleRequest,
    now: u64,
) -> (r: Result<(), AuthzError>)
    requires
        old(engine).wf(),
    ensures
        final(engine).wf(),
        match gate_verdict(*old(engine), *principal, Flow::UpdateUserRole.required()) {
            Some(e) => r == Err::<(), AuthzError>(e) && *final(engine) == *old(engine),
            None => old(engine).update_user_role_result(*final(engine), *principal, request, now, r),
        },
        keeps_scopes(old(engine).roles(), final(engine).roles()),
        keeps_active(old(engine).bindings(), final(engine).bindings()),
        old(engine).confined_to(*final(engine), *principal),
{
    proof {
        unchanged_is_harmless(*engine, *principal);
    }
    match authorize(engine, principal, Flow::UpdateUserRole.requirement()) {
        Err(e) => Err(e),
        Ok(_) => engine.update_user_role(principal, request, now),
    }
}

/// Accepts the caller's open invitations. The caller needs a credential
/// issued for accepting invitations, whatever else the request says; what
/// happens then is what [`Engine::accept_invitation`] does.
pub fn accept_invitation(engine: &mut Engine, principal: &Principal, now: u64) -> (r: Result<
    AcceptInvitationResponse,
    AuthzError,
>)
    requires
        old(engine).wf(),
    ensures
        final(engine).wf(),
        principal.token_purpose != Some(TokenPurpose::AcceptInvite) ==> r == Err::<
            AcceptInvitationResponse,
            AuthzError,
        >(AuthzError::InvalidTokenPurpose) && *final(engine) == *old(engine),
        old(engine).accept_result(*final(engine), *principal, now, r),
        keeps_scopes(old(engine).roles(), final(engine).roles()),
        keeps_active(old(engine).bindings(), final(engine).bindings()),
        others_untouched(old(engine).bindings(), final(engine).bindings(), principal.user_id),
{
    proof {
        unchanged_is_harmless(*engine, *principal);
    }
    match authorize(engine, principal, Flow::AcceptInvitation.requirement()) {
        Err(e) => Err(e),
        Ok(_) => engine.accept_invitation(principal, now),
    }
}

/// Exchanges the credential for choosing a merchant for a session. The
/// caller needs a credential issued for accepting invitations; what
/// happens then is what [`Engine::merchant_select_token_only_flow`] does.
pub fn merchant_select(
    engine: &mut Engine,
    principal: &Principal,
    request: MerchantSelectRequest,
    now: u64,
) -> (r: Result<SessionDescriptor, AuthzError>)
    requires
        old(engine).wf(),
    ensures
        final(engine).wf(),
        principal.token_purpose != Some(TokenPurpose::AcceptInvite) ==> r == Err::<
            SessionDescriptor,
            AuthzError,
        >(AuthzError::InvalidTokenPurpose) && *final(engine) == *old(engine),
        old(engine).select_result(*final(engine), *principal, request.merchant_id, now, r),
        keeps_scopes(old(engine).roles(), final(engine).roles()),
        keeps_active(old(engine).bindings(), final(engine).bindings()),
        others_untouched(old(engine).bindings(), final(engine).bindings(), principal.user_id),
{
    proof {
        unchanged_is_harmless(*engine, *principal);
    }
    match authorize(engine, principal, Flow::MerchantSelect.requirement()) {
        Err(e) => Err(e),
        Ok(_) => engine.merchant_select_token_only_flow(principal, request, now),
    }
}

/// Removes a binding. The caller needs a full session that may write
/// users; what happens then is what
/// [`Engine::delete_user_role_binding`] does.
pub fn delete_user_role(engine: &mut Engine, principal: &Principal, request: DeleteUserRoleRequest) -> (r:
    Result<(), AuthzError>)
    requires
        old(engine).wf(),
    ensures
        final(engine).wf(),
        match gate_verdict(*old(engine), *principal, Flow::DeleteUserRole.required()) {
            Some(e) => r == Err::<(), AuthzError>(e) && *final(engine) == *old(engine),
            None => old(engine).delete_result(
                *final(engine),
                *principal,
                request.user_id,
                request.lineage,
                r,
            ),
        },
        keeps_scopes(old(engine).roles(), final(engine).roles()),
        keeps_active(old(engine).bindings(), final(engine).bindings()),
        old(engine).confined_to(*final(engine), *principal),
{
    proof {
        unchanged_is_harmless(*engine, *principal);
    }
    match authorize(engine, principal, Flow::DeleteUserRole.requirement()) {
        Err(e) => Err(e),
        Ok(_) => engine.delete_user_role_binding(principal, request.user_id, request.lineage),
    }
}

/// Lists the users bound at places that the caller dominates. The caller
/// needs a full session.
pub fn list_users_in_lineage(engine: &Engine, principal: &Principal) -> (r: Result<
    Vec<UserSummary>,
    AuthzError,
>)
    requires
        engine.wf(),
    ensures
        match gate_verdict(*engine, *principal, Flow::ListUsersInLineage.required()) {
            Some(e) => r == Err::<Vec<UserSummary>, AuthzError>(e),
            None => engine.list_users_result(*principal, r),
        },
{
    match authorize(engine, principal, Flow::ListUsersInLineage.requirement()) {
        Err(e) => Err(e),
        Ok(_) => engine.list_users_in_lineage(principal),
    }
}

/// A state that no request changed keeps every scope, every active
/// binding and every record outside anybody's reach.
pub proof fn unchanged_is_harmless(engine: Engine, principal: Principal)
    requires
        engine.wf(),
    ensures
        keeps_scopes(engine.roles(), engine.roles()),
        keeps_active(engine.bindings(), engine.bindings()),
        others_untouched(engine.bindings(), engine.bindings(), principal.user_id),
        roles_confined(
            engine.roles(),
            engine.roles(),
            engine.actor_level(principal),
            principal.lineage,
        ),
        bindings_confined(
            engine.bindings(),
            engine.bindings(),
            engine.actor_level(principal),
            principal.lineage,
        ),
{
    let bs = engine.bindings();
    assert forall|i: int, j: int|
        0 <= i < bs.len() && 0 <= j < bs.len() && (#[trigger] bs[i]).status
            == crate::model::BindingStatus::Active && crate::rules::binds(
            #[trigger] bs[j],
            bs[i].user_id,
            bs[i].lineage,
        ) implies bs[j].status == crate::model::BindingStatus::Active by {
        if i != j {
            assert(!crate::rules::binds(bs[j], bs[i].user_id, bs[i].lineage));
        }
    }
}

} // verus!
