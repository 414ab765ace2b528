use role_authz::catalog::{Catalog, Permission, PermissionGroupTag};
use role_authz::engine::Engine;
use role_authz::error::AuthzError;
use role_authz::model::{
    AcceptInvitationResponse, BindingStatus, CreateRoleRequest, DeleteUserRoleRequest,
    GetRoleRequest, InviteUserRequest, MerchantSelectRequest, Principal, TokenPurpose,
    UpdateRoleRequest, UpdateUserRoleRequest,
};
use role_authz::routes::{
    accept_invitation, authorize, create_role, delete_user_role, get_authorization_info, get_role,
    get_role_from_token, get_role_information, list_all_roles, list_users_in_lineage,
    merchant_select, update_role, update_user_role, AuthRequirement, Flow, LockAction,
};
use role_authz::scope::{Lineage, ScopeLevel};

const ORG: u64 = 3;
const M: u64 = 31;
const N: u64 = 32;

fn whole_org() -> Lineage {
    Lineage { org_id: ORG, merchant_id: None, profile_id: None }
}

fn under(m: u64) -> Lineage {
    Lineage { org_id: ORG, merchant_id: Some(m), profile_id: None }
}

fn new_role(name: &str, tags: Vec<PermissionGroupTag>, level: ScopeLevel, place: Lineage) -> CreateRoleRequest {
    CreateRoleRequest { name: String::from(name), group_tags: tags, scope_level: level, lineage: place }
}

/// Role 1: organization admin who may write users. Role 2: organization
/// reader who may read users. Role 3: organization role without any
/// right over users.
fn three_roles() -> (Engine, Principal, Principal, Principal) {
    let mut engine = Engine::new(Catalog::standard());
    engine
        .seed_role(new_role("admin", vec![PermissionGroupTag::UsersWrite], ScopeLevel::Organization, whole_org()), 1)
        .unwrap();
    engine
        .seed_role(new_role("reader", vec![PermissionGroupTag::UsersRead], ScopeLevel::Organization, whole_org()), 1)
        .unwrap();
    engine
        .seed_role(new_role("numbers", vec![PermissionGroupTag::AnalyticsRead], ScopeLevel::Organization, whole_org()), 1)
        .unwrap();
    let who = |user_id, role_id| Principal { user_id, role_id, lineage: whole_org(), token_purpose: None };
    (engine, who(1, 1), who(2, 2), who(3, 3))
}

fn with_purpose(p: &Principal, purpose: TokenPurpose) -> Principal {
    Principal { token_purpose: Some(purpose), ..*p }
}

#[test]
fn every_flow_names_its_requirement_and_needs_no_lock() {
    let read = AuthRequirement::RequirePermission(Permission::UsersRead);
    let write = AuthRequirement::RequirePermission(Permission::UsersWrite);
    let accept = AuthRequirement::RequireTokenPurpose(TokenPurpose::AcceptInvite);
    let table = [
        (Flow::GetAuthorizationInfo, read),
        (Flow::GetRoleFromToken, AuthRequirement::NoPermission),
        (Flow::CreateRole, write),
        (Flow::ListRoles, read),
        (Flow::GetRole, read),
        (Flow::UpdateRole, write),
        (Flow::UpdateUserRole, write),
        (Flow::AcceptInvitation, accept),
        (Flow::MerchantSelect, accept),
        (Flow::DeleteUserRole, write),
        (Flow::GetRolesInfo, read),
        (Flow::ListUsersInLineage, AuthRequirement::NoPermission),
    ];
    for (flow, requirement) in table {
        assert_eq!(flow.requirement(), requirement);
        assert_eq!(flow.lock_action(), LockAction::NotApplicable);
    }
}

#[test]
fn gate_tells_wrong_purpose_from_missing_permission() {
    let (engine, admin, reader, numbers) = three_roles();
    let write = AuthRequirement::RequirePermission(Permission::UsersWrite);
    let read = AuthRequirement::RequirePermission(Permission::UsersRead);
    assert_eq!(authorize(&engine, &admin, write), Ok(()));
    assert_eq!(authorize(&engine, &admin, read), Ok(()));
    assert_eq!(authorize(&engine, &reader, read), Ok(()));
    assert_eq!(authorize(&engine, &reader, write), Err(AuthzError::InsufficientPrivilege));
    assert_eq!(authorize(&engine, &numbers, read), Err(AuthzError::InsufficientPrivilege));
    let invited = with_purpose(&admin, TokenPurpose::AcceptInvite);
    assert_eq!(authorize(&engine, &invited, write), Err(AuthzError::InvalidTokenPurpose));
    assert_eq!(authorize(&engine, &invited, AuthRequirement::NoPermission), Err(AuthzError::InvalidTokenPurpose));
    assert_eq!(authorize(&engine, &admin, AuthRequirement::NoPermission), Ok(()));
    let accept = AuthRequirement::RequireTokenPurpose(TokenPurpose::AcceptInvite);
    assert_eq!(authorize(&engine, &invited, accept), Ok(()));
    assert_eq!(authorize(&engine, &admin, accept), Err(AuthzError::InvalidTokenPurpose));
    assert_eq!(
        authorize(&engine, &with_purpose(&admin, TokenPurpose::MerchantSelect), accept),
        Err(AuthzError::InvalidTokenPurpose)
    );
    let orphan = Principal { user_id: 9, role_id: 404, lineage: whole_org(), token_purpose: None };
    assert_eq!(authorize(&engine, &orphan, read), Err(AuthzError::RoleNotFound));
    assert_eq!(authorize(&engine, &orphan, AuthRequirement::NoPermission), Ok(()));
}

#[test]
fn authorization_info_lists_the_catalog_for_readers() {
    let (engine, admin, reader, numbers) = three_roles();
    let listed = get_authorization_info(&engine, &reader).unwrap();
    assert_eq!(listed.len(), 7);
    assert_eq!(listed[1].tag, PermissionGroupTag::UsersWrite);
    assert_eq!(listed[1].description, "Invite users, assign roles and manage role definitions");
    assert_eq!(listed[1].permissions, vec![Permission::UsersRead, Permission::UsersWrite]);
    assert_eq!(get_authorization_info(&engine, &admin).unwrap().len(), 7);
    assert_eq!(get_authorization_info(&engine, &numbers).err(), Some(AuthzError::InsufficientPrivilege));
    let lines = get_role_information(&engine, &reader).unwrap();
    assert_eq!(lines.len(), 7);
    assert_eq!(lines[0].tag, PermissionGroupTag::UsersRead);
    assert_eq!(lines[0].name, "users-read");
    assert_eq!(lines[0].description, "View users and roles");
    assert_eq!(lines[5].name, "operations-write");
    assert_eq!(lines[5].description, "Create and change payments and refunds");
    assert_eq!(get_role_information(&engine, &numbers).err(), Some(AuthzError::InsufficientPrivilege));
    assert_eq!(
        get_role_information(&engine, &with_purpose(&reader, TokenPurpose::VerifyEmail)).err(),
        Some(AuthzError::InvalidTokenPurpose)
    );
}

#[test]
fn role_from_token_needs_only_a_session() {
    let (engine, _, _, numbers) = three_roles();
    let summary = get_role_from_token(&engine, &numbers).unwrap();
    assert_eq!(summary.scope_level, ScopeLevel::Organization);
    assert_eq!(summary.group_tags, vec![PermissionGroupTag::AnalyticsRead]);
    assert_eq!(
        get_role_from_token(&engine, &with_purpose(&numbers, TokenPurpose::ResetPassword)).err(),
        Some(AuthzError::InvalidTokenPurpose)
    );
    let orphan = Principal { user_id: 9, role_id: 404, lineage: whole_org(), token_purpose: None };
    assert_eq!(get_role_from_token(&engine, &orphan).err(), Some(AuthzError::RoleNotFound));
}

#[test]
fn role_writes_need_the_write_permission() {
    let (mut engine, admin, reader, _) = three_roles();
    let denied = create_role(
        &mut engine,
        &reader,
        new_role("Analyst", vec![PermissionGroupTag::UsersRead], ScopeLevel::Merchant, under(M)),
        5,
    );
    assert_eq!(denied.err(), Some(AuthzError::InsufficientPrivilege));
    assert_eq!(engine.role_count(), 3);
    let made = create_role(
        &mut engine,
        &admin,
        new_role("Analyst", vec![PermissionGroupTag::UsersRead], ScopeLevel::Merchant, under(M)),
        5,
    )
    .unwrap();
    assert_eq!(made.role_id, 4);
    let rename = || UpdateRoleRequest { name: Some(String::from("Examiner")), group_tags: None, scope_level: None };
    assert_eq!(update_role(&mut engine, &reader, 4, rename(), 6).err(), Some(AuthzError::InsufficientPrivilege));
    assert_eq!(
        update_role(&mut engine, &with_purpose(&admin, TokenPurpose::AcceptInvite), 4, rename(), 6).err(),
        Some(AuthzError::InvalidTokenPurpose)
    );
    assert_eq!(get_role(&engine, &reader, GetRoleRequest { role_id: 4 }).unwrap().role.name, "Analyst");
    assert_eq!(update_role(&mut engine, &admin, 4, rename(), 6).unwrap().name, "Examiner");
    let move_it = UpdateRoleRequest { name: None, group_tags: None, scope_level: Some(ScopeLevel::Profile) };
    assert_eq!(update_role(&mut engine, &admin, 4, move_it, 7).err(), Some(AuthzError::ImmutableField));
    let listed = list_all_roles(&engine, &reader).unwrap();
    let names: Vec<&str> = listed.iter().map(|r| r.name.as_str()).collect();
    assert_eq!(names, vec!["admin", "numbers", "reader", "Examiner"]);
    let orphan = Principal { user_id: 9, role_id: 404, lineage: whole_org(), token_purpose: None };
    assert_eq!(list_all_roles(&engine, &orphan).err(), Some(AuthzError::RoleNotFound));
    assert_eq!(get_role(&engine, &orphan, GetRoleRequest { role_id: 4 }).err(), Some(AuthzError::RoleNotFound));
}

#[test]
fn invitation_flow_through_the_entry_points() {
    let (mut engine, admin, reader, _) = three_roles();
    let analyst = create_role(
        &mut engine,
        &admin,
        new_role("Analyst", vec![PermissionGroupTag::UsersRead], ScopeLevel::Merchant, under(M)),
        5,
    )
    .unwrap()
    .role_id;
    let user = 77;
    engine.invite_user(&admin, InviteUserRequest { user_id: user, role_id: analyst, lineage: under(M) }, 6).unwrap();
    engine.invite_user(&admin, InviteUserRequest { user_id: user, role_id: analyst, lineage: under(N) }, 6).unwrap();
    let session_holder = Principal { user_id: user, role_id: 0, lineage: whole_org(), token_purpose: None };
    assert_eq!(accept_invitation(&mut engine, &session_holder, 7).err(), Some(AuthzError::InvalidTokenPurpose));
    assert_eq!(
        accept_invitation(&mut engine, &with_purpose(&session_holder, TokenPurpose::MerchantSelect), 7).err(),
        Some(AuthzError::InvalidTokenPurpose)
    );
    let invitee = with_purpose(&session_holder, TokenPurpose::AcceptInvite);
    let response = accept_invitation(&mut engine, &invitee, 7).unwrap();
    assert!(matches!(response, AcceptInvitationResponse::PendingMerchantSelect(ref t) if t.candidates == vec![M, N]));
    assert_eq!(
        merchant_select(&mut engine, &session_holder, MerchantSelectRequest { merchant_id: M }, 8).err(),
        Some(AuthzError::InvalidTokenPurpose)
    );
    assert_eq!(
        merchant_select(&mut engine, &invitee, MerchantSelectRequest { merchant_id: 9999 }, 8).err(),
        Some(AuthzError::InvalidSelection)
    );
    let session = merchant_select(&mut engine, &invitee, MerchantSelectRequest { merchant_id: M }, 8).unwrap();
    assert_eq!(session.lineage, under(M));
    assert_eq!(session.permissions, vec![Permission::UsersRead]);
    assert_eq!(
        merchant_select(&mut engine, &invitee, MerchantSelectRequest { merchant_id: M }, 9).err(),
        Some(AuthzError::AlreadyProcessed)
    );
    let users = list_users_in_lineage(&engine, &reader).unwrap();
    assert_eq!(users.len(), 2);
    assert_eq!(users[0].status, BindingStatus::Active);
    assert_eq!(users[0].lineage, under(M));
    assert_eq!(users[1].status, BindingStatus::Invited);
    assert_eq!(users[1].lineage, under(N));
    assert_eq!(list_users_in_lineage(&engine, &invitee).err(), Some(AuthzError::InvalidTokenPurpose));
    let to_reader = UpdateUserRoleRequest { user_id: user, role_id: analyst, lineage: under(M) };
    assert_eq!(update_user_role(&mut engine, &reader, to_reader, 10), Err(AuthzError::InsufficientPrivilege));
    assert_eq!(update_user_role(&mut engine, &admin, to_reader, 10), Ok(()));
    let gone = DeleteUserRoleRequest { user_id: user, lineage: under(N) };
    assert_eq!(delete_user_role(&mut engine, &reader, gone), Err(AuthzError::InsufficientPrivilege));
    assert_eq!(delete_user_role(&mut engine, &invitee, gone), Err(AuthzError::InvalidTokenPurpose));
    assert_eq!(delete_user_role(&mut engine, &admin, gone), Ok(()));
    assert_eq!(delete_user_role(&mut engine, &admin, gone), Err(AuthzError::NotFound));
    assert_eq!(engine.binding_count(), 1);
}
