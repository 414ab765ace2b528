use role_authz::catalog::{Catalog, Permission, PermissionGroupTag};
use role_authz::engine::Engine;
use role_authz::error::AuthzError;
use role_authz::model::{
    CreateRoleRequest, GetRoleRequest, Principal, Role, TokenPurpose, UpdateRoleRequest,
};
use role_authz::scope::{Lineage, ScopeLevel};

const ORG: u64 = 1;
const M: u64 = 70;
const N: u64 = 80;

fn at_org() -> Lineage {
    Lineage { org_id: ORG, merchant_id: None, profile_id: None }
}

fn at_merchant(m: u64) -> Lineage {
    Lineage { org_id: ORG, merchant_id: Some(m), profile_id: None }
}

fn at_profile(m: u64, p: u64) -> Lineage {
    Lineage { org_id: ORG, merchant_id: Some(m), profile_id: Some(p) }
}

fn request(name: &str, tags: Vec<PermissionGroupTag>, level: ScopeLevel, place: Lineage) -> CreateRoleRequest {
    CreateRoleRequest { name: String::from(name), group_tags: tags, scope_level: level, lineage: place }
}

fn session(user_id: u64, role: &Role, place: Lineage) -> Principal {
    Principal { user_id, role_id: role.role_id, lineage: place, token_purpose: None }
}

fn started() -> (Engine, Principal) {
    let mut engine = Engine::new(Catalog::standard());
    let admin_role = engine
        .seed_role(
            request("org_admin", vec![PermissionGroupTag::UsersWrite], ScopeLevel::Organization, at_org()),
            100,
        )
        .unwrap();
    let admin = session(1, &admin_role, at_org());
    (engine, admin)
}

#[test]
fn organization_principal_creates_merchant_scoped_role() {
    let (mut engine, admin) = started();
    let tag = PermissionGroupTag::parse("users-read").unwrap();
    let role = engine
        .create_role(&admin, request("Analyst", vec![tag], ScopeLevel::Merchant, at_merchant(M)), 200)
        .unwrap();
    assert_eq!(role.scope_level, ScopeLevel::Merchant);
    assert_eq!(role.lineage, at_merchant(M));
    assert_eq!(role.lineage.org_id, ORG);
    assert_eq!(role.lineage.merchant_id, Some(M));
    assert_eq!(role.lineage.profile_id, None);
    assert_eq!(role.name, "Analyst");
    assert_eq!(role.groups, vec![PermissionGroupTag::UsersRead]);
    assert_eq!(role.role_id, 2);
    assert_eq!(role.created_by, Some(1));
    assert_eq!(role.created_at, 200);
    assert_eq!(role.updated_at, 200);
    assert_eq!(engine.role_count(), 2);
    let read_back = engine.get_role(&admin, GetRoleRequest { role_id: role.role_id }).unwrap();
    assert_eq!(read_back.role.name, "Analyst");
    assert_eq!(read_back.role.scope_level, ScopeLevel::Merchant);
    assert_eq!(read_back.role.lineage, at_merchant(M));
}

#[test]
fn profile_principal_cannot_create_organization_role() {
    let (mut engine, admin) = started();
    let profile_role = engine
        .create_role(
            &admin,
            request("clerk", vec![PermissionGroupTag::UsersWrite], ScopeLevel::Profile, at_profile(M, 5)),
            200,
        )
        .unwrap();
    let clerk = session(2, &profile_role, at_profile(M, 5));
    let got = engine.create_role(
        &clerk,
        request("boss", vec![PermissionGroupTag::UsersRead], ScopeLevel::Organization, at_org()),
        300,
    );
    assert_eq!(got.err(), Some(AuthzError::InsufficientPrivilege));
    assert_eq!(engine.role_count(), 2);
}

#[test]
fn seeded_role_has_no_creator_and_the_first_identifier() {
    let mut engine = Engine::new(Catalog::standard());
    assert_eq!(engine.role_count(), 0);
    let role = engine
        .seed_role(
            request(
                "root",
                vec![PermissionGroupTag::UsersWrite, PermissionGroupTag::UsersRead, PermissionGroupTag::UsersWrite],
                ScopeLevel::Organization,
                at_org(),
            ),
            7,
        )
        .unwrap();
    assert_eq!(role.role_id, 1);
    assert_eq!(role.created_by, None);
    assert_eq!(role.created_at, 7);
    assert_eq!(role.groups, vec![PermissionGroupTag::UsersRead, PermissionGroupTag::UsersWrite]);
    assert_eq!(engine.role_count(), 1);
}

#[test]
fn seeding_checks_lineage_and_tags() {
    let mut engine = Engine::new(Catalog::standard());
    let got = engine.seed_role(
        request("bad", vec![PermissionGroupTag::UsersRead], ScopeLevel::Organization, at_merchant(M)),
        7,
    );
    assert_eq!(got.err(), Some(AuthzError::InvalidScope));
    let mut narrow = Engine::new(Catalog::new());
    let got = narrow.seed_role(
        request("bad", vec![PermissionGroupTag::UsersRead], ScopeLevel::Organization, at_org()),
        7,
    );
    assert_eq!(got.err(), Some(AuthzError::UnknownPermissionGroup));
    assert_eq!(narrow.role_count(), 0);
}

#[test]
fn create_role_rejects_lineage_that_does_not_fit_the_level() {
    let (mut engine, admin) = started();
    let wrong = [
        (ScopeLevel::Merchant, at_org()),
        (ScopeLevel::Organization, at_merchant(M)),
        (ScopeLevel::Profile, at_merchant(M)),
        (ScopeLevel::Merchant, at_profile(M, 1)),
        (ScopeLevel::Profile, Lineage { org_id: ORG, merchant_id: None, profile_id: Some(1) }),
    ];
    for (level, place) in wrong {
        let got =
            engine.create_role(&admin, request("x", vec![PermissionGroupTag::UsersRead], level, place), 5);
        assert_eq!(got.err(), Some(AuthzError::InvalidScope));
    }
    assert_eq!(engine.role_count(), 1);
}

#[test]
fn create_role_rejects_unknown_tag() {
    let mut catalog = Catalog::new();
    catalog
        .define(PermissionGroupTag::UsersWrite, String::from("manage users"), vec![
            Permission::UsersRead,
            Permission::UsersWrite,
        ])
        .unwrap();
    let mut engine = Engine::new(catalog);
    let admin_role = engine
        .seed_role(
            request("org_admin", vec![PermissionGroupTag::UsersWrite], ScopeLevel::Organization, at_org()),
            1,
        )
        .unwrap();
    let admin = session(1, &admin_role, at_org());
    let got = engine.create_role(
        &admin,
        request(
            "Analyst",
            vec![PermissionGroupTag::UsersWrite, PermissionGroupTag::AnalyticsRead],
            ScopeLevel::Merchant,
            at_merchant(M),
        ),
        2,
    );
    assert_eq!(got.err(), Some(AuthzError::UnknownPermissionGroup));
    assert_eq!(engine.role_count(), 1);
}

#[test]
fn create_role_by_principal_without_role_is_role_not_found() {
    let (mut engine, _) = started();
    let ghost = Principal { user_id: 9, role_id: 999, lineage: at_org(), token_purpose: None };
    let got = engine.create_role(
        &ghost,
        request("x", vec![PermissionGroupTag::UsersRead], ScopeLevel::Merchant, at_merchant(M)),
        5,
    );
    assert_eq!(got.err(), Some(AuthzError::RoleNotFound));
    // the same principal with a request that is wrong in every other way
    let got = engine.create_role(
        &ghost,
        request("x", vec![PermissionGroupTag::UsersRead], ScopeLevel::Merchant, at_org()),
        5,
    );
    assert_eq!(got.err(), Some(AuthzError::RoleNotFound));
}

#[test]
fn invalid_scope_is_reported_before_insufficient_privilege() {
    let (mut engine, admin) = started();
    let merchant_role = engine
        .create_role(
            &admin,
            request("m_admin", vec![PermissionGroupTag::UsersWrite], ScopeLevel::Merchant, at_merchant(M)),
            2,
        )
        .unwrap();
    let m_admin = session(2, &merchant_role, at_merchant(M));
    let got = engine.create_role(
        &m_admin,
        request("x", vec![PermissionGroupTag::UsersRead], ScopeLevel::Organization, at_merchant(M)),
        3,
    );
    assert_eq!(got.err(), Some(AuthzError::InvalidScope));
    let got = engine.create_role(
        &m_admin,
        request("x", vec![PermissionGroupTag::UsersRead], ScopeLevel::Organization, at_org()),
        3,
    );
    assert_eq!(got.err(), Some(AuthzError::InsufficientPrivilege));
}

#[test]
fn merchant_principal_creates_only_inside_its_merchant() {
    let (mut engine, admin) = started();
    let merchant_role = engine
        .create_role(
            &admin,
            request("m_admin", vec![PermissionGroupTag::UsersWrite], ScopeLevel::Merchant, at_merchant(M)),
            2,
        )
        .unwrap();
    let m_admin = session(2, &merchant_role, at_merchant(M));
    let ok = engine.create_role(
        &m_admin,
        request("teller", vec![PermissionGroupTag::OperationsRead], ScopeLevel::Profile, at_profile(M, 4)),
        3,
    );
    assert_eq!(ok.unwrap().role_id, 3);
    let ok = engine.create_role(
        &m_admin,
        request("peer", vec![PermissionGroupTag::OperationsRead], ScopeLevel::Merchant, at_merchant(M)),
        3,
    );
    assert_eq!(ok.unwrap().role_id, 4);
    let no = engine.create_role(
        &m_admin,
        request("elsewhere", vec![PermissionGroupTag::OperationsRead], ScopeLevel::Merchant, at_merchant(N)),
        3,
    );
    assert_eq!(no.err(), Some(AuthzError::InsufficientPrivilege));
    let no = engine.create_role(
        &m_admin,
        request("elsewhere", vec![PermissionGroupTag::OperationsRead], ScopeLevel::Profile, at_profile(N, 4)),
        3,
    );
    assert_eq!(no.err(), Some(AuthzError::InsufficientPrivilege));
    assert_eq!(engine.role_count(), 4);
}

#[test]
fn update_role_changes_name_and_groups_and_time_only() {
    let (mut engine, admin) = started();
    let role = engine
        .create_role(
            &admin,
            request("Analyst", vec![PermissionGroupTag::UsersRead], ScopeLevel::Merchant, at_merchant(M)),
            200,
        )
        .unwrap();
    let patch = UpdateRoleRequest {
        name: Some(String::from("Senior Analyst")),
        group_tags: Some(vec![PermissionGroupTag::AnalyticsRead, PermissionGroupTag::UsersRead]),
        scope_level: None,
    };
    let updated = engine.update_role(&admin, role.role_id, patch, 300).unwrap();
    assert_eq!(updated.role_id, role.role_id);
    assert_eq!(updated.name, "Senior Analyst");
    assert_eq!(updated.groups, vec![PermissionGroupTag::UsersRead, PermissionGroupTag::AnalyticsRead]);
    assert_eq!(updated.scope_level, ScopeLevel::Merchant);
    assert_eq!(updated.lineage, at_merchant(M));
    assert_eq!(updated.created_by, Some(1));
    assert_eq!(updated.created_at, 200);
    assert_eq!(updated.updated_at, 300);
    let kept = engine.get_role(&admin, GetRoleRequest { role_id: role.role_id }).unwrap().role;
    assert_eq!(kept.name, "Senior Analyst");
    assert_eq!(kept.updated_at, 300);
    let only_time =
        engine.update_role(&admin, role.role_id, UpdateRoleRequest { name: None, group_tags: None, scope_level: None }, 400).unwrap();
    assert_eq!(only_time.name, "Senior Analyst");
    assert_eq!(only_time.groups, vec![PermissionGroupTag::UsersRead, PermissionGroupTag::AnalyticsRead]);
    assert_eq!(only_time.updated_at, 400);
    assert_eq!(only_time.created_at, 200);
}

#[test]
fn scope_level_survives_any_number_of_updates() {
    let (mut engine, admin) = started();
    let role = engine
        .create_role(
            &admin,
            request("Analyst", vec![PermissionGroupTag::UsersRead], ScopeLevel::Merchant, at_merchant(M)),
            200,
        )
        .unwrap();
    let wanted = [None, Some(ScopeLevel::Organization), Some(ScopeLevel::Merchant), Some(ScopeLevel::Profile), None];
    for (i, level) in wanted.iter().enumerate() {
        let patch = UpdateRoleRequest { name: Some(format!("name {}", i)), group_tags: None, scope_level: *level };
        let got = engine.update_role(&admin, role.role_id, patch, 300 + i as u64);
        match level {
            Some(ScopeLevel::Organization) | Some(ScopeLevel::Profile) => {
                assert_eq!(got.err(), Some(AuthzError::ImmutableField))
            }
            _ => assert_eq!(got.unwrap().scope_level, ScopeLevel::Merchant),
        }
        let kept = engine.get_role(&admin, GetRoleRequest { role_id: role.role_id }).unwrap().role;
        assert_eq!(kept.scope_level, ScopeLevel::Merchant);
        assert_eq!(kept.lineage, at_merchant(M));
    }
    let kept = engine.get_role(&admin, GetRoleRequest { role_id: role.role_id }).unwrap().role;
    assert_eq!(kept.name, "name 4");
}

#[test]
fn update_role_with_another_level_changes_nothing() {
    let (mut engine, admin) = started();
    let role = engine
        .create_role(
            &admin,
            request("Analyst", vec![PermissionGroupTag::UsersRead], ScopeLevel::Merchant, at_merchant(M)),
            200,
        )
        .unwrap();
    let patch = UpdateRoleRequest {
        name: Some(String::from("Other")),
        group_tags: Some(vec![PermissionGroupTag::UsersWrite]),
        scope_level: Some(ScopeLevel::Organization),
    };
    assert_eq!(engine.update_role(&admin, role.role_id, patch, 300).err(), Some(AuthzError::ImmutableField));
    let kept = engine.get_role(&admin, GetRoleRequest { role_id: role.role_id }).unwrap().role;
    assert_eq!(kept.name, "Analyst");
    assert_eq!(kept.groups, vec![PermissionGroupTag::UsersRead]);
    assert_eq!(kept.updated_at, 200);
}

#[test]
fn update_role_outside_reach_or_absent_is_not_found() {
    let (mut engine, admin) = started();
    let m_role = engine
        .create_role(
            &admin,
            request("m_admin", vec![PermissionGroupTag::UsersWrite], ScopeLevel::Merchant, at_merchant(M)),
            2,
        )
        .unwrap();
    let n_role = engine
        .create_role(
            &admin,
            request("n_admin", vec![PermissionGroupTag::UsersWrite], ScopeLevel::Merchant, at_merchant(N)),
            2,
        )
        .unwrap();
    let m_admin = session(2, &m_role, at_merchant(M));
    let rename = || UpdateRoleRequest { name: Some(String::from("renamed")), group_tags: None, scope_level: None };
    assert_eq!(engine.update_role(&m_admin, n_role.role_id, rename(), 9).err(), Some(AuthzError::NotFound));
    assert_eq!(engine.update_role(&m_admin, 1, rename(), 9).err(), Some(AuthzError::NotFound));
    assert_eq!(engine.update_role(&m_admin, 4242, rename(), 9).err(), Some(AuthzError::NotFound));
    assert_eq!(engine.get_role(&m_admin, GetRoleRequest { role_id: n_role.role_id }).err(), Some(AuthzError::NotFound));
    assert_eq!(engine.get_role(&m_admin, GetRoleRequest { role_id: 4242 }).err(), Some(AuthzError::NotFound));
    assert_eq!(engine.update_role(&m_admin, m_role.role_id, rename(), 9).unwrap().name, "renamed");
    let kept = engine.get_role(&admin, GetRoleRequest { role_id: n_role.role_id }).unwrap().role;
    assert_eq!(kept.name, "n_admin");
    assert_eq!(kept.updated_at, 2);
}

#[test]
fn update_role_rejects_unknown_tag_before_immutable_field() {
    let mut catalog = Catalog::new();
    catalog
        .define(PermissionGroupTag::UsersWrite, String::from("manage users"), vec![Permission::UsersWrite])
        .unwrap();
    let mut engine = Engine::new(catalog);
    let admin_role = engine
        .seed_role(
            request("org_admin", vec![PermissionGroupTag::UsersWrite], ScopeLevel::Organization, at_org()),
            1,
        )
        .unwrap();
    let admin = session(1, &admin_role, at_org());
    let patch = UpdateRoleRequest {
        name: None,
        group_tags: Some(vec![PermissionGroupTag::AccountRead]),
        scope_level: Some(ScopeLevel::Profile),
    };
    assert_eq!(engine.update_role(&admin, 1, patch, 9).err(), Some(AuthzError::UnknownPermissionGroup));
}

#[test]
fn get_role_joins_the_catalog() {
    let (mut engine, admin) = started();
    let role = engine
        .create_role(
            &admin,
            request(
                "Ops",
                vec![PermissionGroupTag::OperationsWrite, PermissionGroupTag::UsersRead],
                ScopeLevel::Merchant,
                at_merchant(M),
            ),
            200,
        )
        .unwrap();
    let details = engine.get_role(&admin, GetRoleRequest { role_id: role.role_id }).unwrap();
    assert!(details.is_invitable);
    assert_eq!(details.groups.len(), 2);
    assert_eq!(details.groups[0].tag, PermissionGroupTag::UsersRead);
    assert_eq!(details.groups[0].description, "View users and roles");
    assert_eq!(details.groups[0].permissions, vec![Permission::UsersRead]);
    assert_eq!(details.groups[1].tag, PermissionGroupTag::OperationsWrite);
    assert_eq!(details.groups[1].description, "Create and change payments and refunds");
    assert_eq!(
        details.groups[1].permissions,
        vec![Permission::PaymentRead, Permission::PaymentWrite, Permission::RefundRead, Permission::RefundWrite]
    );
}

#[test]
fn resolve_matches_the_catalog_asked_directly() {
    let (mut engine, admin) = started();
    let role = engine
        .create_role(
            &admin,
            request(
                "Ops",
                vec![PermissionGroupTag::OperationsRead, PermissionGroupTag::AccountWrite],
                ScopeLevel::Merchant,
                at_merchant(M),
            ),
            200,
        )
        .unwrap();
    let ops = session(5, &role, at_merchant(M));
    let resolved = engine.resolve(&ops).unwrap();
    assert_eq!(resolved.group_tags, vec![PermissionGroupTag::AccountWrite, PermissionGroupTag::OperationsRead]);
    assert_eq!(
        resolved.permissions,
        vec![Permission::AccountRead, Permission::AccountWrite, Permission::PaymentRead, Permission::RefundRead]
    );
    let direct = engine.permission_catalog().permissions_for(&role.groups).unwrap();
    assert_eq!(resolved.permissions, direct);
    let summary = engine.role_from_token(&ops).unwrap();
    assert_eq!(summary.scope_level, ScopeLevel::Merchant);
    assert_eq!(summary.group_tags, resolved.group_tags);
}

#[test]
fn resolve_surfaces_an_orphaned_role() {
    let (engine, _) = started();
    let orphan = Principal { user_id: 3, role_id: 77, lineage: at_org(), token_purpose: None };
    assert_eq!(engine.resolve(&orphan).err(), Some(AuthzError::RoleNotFound));
    assert_eq!(engine.role_from_token(&orphan).err(), Some(AuthzError::RoleNotFound));
    assert_eq!(engine.list_invitable_roles(&orphan).err(), Some(AuthzError::RoleNotFound));
    assert_eq!(engine.list_users_in_lineage(&orphan).err(), Some(AuthzError::RoleNotFound));
    assert_eq!(engine.get_role(&orphan, GetRoleRequest { role_id: 1 }).err(), Some(AuthzError::RoleNotFound));
    let with_purpose = Principal { user_id: 3, role_id: 77, lineage: at_org(), token_purpose: Some(TokenPurpose::VerifyEmail) };
    assert_eq!(engine.resolve(&with_purpose).err(), Some(AuthzError::RoleNotFound));
}

#[test]
fn invitable_roles_are_ordered_by_level_then_name() {
    let (mut engine, admin) = started();
    let names = [
        ("Zeta", ScopeLevel::Merchant, at_merchant(M)),
        ("teller", ScopeLevel::Profile, at_profile(M, 1)),
        ("Alpha", ScopeLevel::Merchant, at_merchant(N)),
        ("Beta", ScopeLevel::Organization, at_org()),
        ("Alpha", ScopeLevel::Merchant, at_merchant(M)),
        ("Alp", ScopeLevel::Merchant, at_merchant(M)),
    ];
    for (name, level, place) in names {
        engine.create_role(&admin, request(name, vec![PermissionGroupTag::UsersWrite], level, place), 5).unwrap();
    }
    let listed = engine.list_invitable_roles(&admin).unwrap();
    let got: Vec<(String, u64)> = listed.iter().map(|r| (r.name.clone(), r.role_id)).collect();
    assert_eq!(
        got,
        vec![
            (String::from("Beta"), 5),
            (String::from("org_admin"), 1),
            (String::from("Alp"), 7),
            (String::from("Alpha"), 4),
            (String::from("Alpha"), 6),
            (String::from("Zeta"), 2),
            (String::from("teller"), 3),
        ]
    );
    let m_admin = Principal { user_id: 2, role_id: 2, lineage: at_merchant(M), token_purpose: None };
    let listed = engine.list_invitable_roles(&m_admin).unwrap();
    let got: Vec<u64> = listed.iter().map(|r| r.role_id).collect();
    assert_eq!(got, vec![7, 6, 2, 3]);
    let teller = Principal { user_id: 3, role_id: 3, lineage: at_profile(M, 1), token_purpose: None };
    let listed = engine.list_invitable_roles(&teller).unwrap();
    let got: Vec<u64> = listed.iter().map(|r| r.role_id).collect();
    assert_eq!(got, vec![3]);
    let other_profile = Principal { user_id: 3, role_id: 3, lineage: at_profile(M, 2), token_purpose: None };
    assert_eq!(engine.list_invitable_roles(&other_profile).unwrap().len(), 0);
}

#[test]
fn duplicate_keeps_every_field() {
    let (engine, admin) = started();
    let role = engine.get_role(&admin, GetRoleRequest { role_id: 1 }).unwrap().role;
    let copy = role.duplicate();
    assert_eq!(copy.role_id, role.role_id);
    assert_eq!(copy.name, role.name);
    assert_eq!(copy.groups, role.groups);
    assert_eq!(copy.scope_level, role.scope_level);
    assert_eq!(copy.lineage, role.lineage);
    assert_eq!(copy.created_by, role.created_by);
    assert_eq!(copy.created_at, role.created_at);
    assert_eq!(copy.updated_at, role.updated_at);
}

#[test]
fn restored_engine_continues_where_the_records_left_off() {
    let (mut engine, admin) = started();
    engine
        .create_role(
            &admin,
            request("Analyst", vec![PermissionGroupTag::UsersRead], ScopeLevel::Merchant, at_merchant(M)),
            200,
        )
        .unwrap();
    let roles = engine.roles_snapshot();
    assert_eq!(roles.len(), 2);
    assert_eq!(roles[1].name, "Analyst");
    assert_eq!(engine.upcoming_role_id(), 3);
    let mut again = Engine::restore(
        Catalog::standard(),
        roles,
        engine.bindings_snapshot(),
        engine.pending_snapshot(),
        engine.upcoming_role_id(),
    )
    .unwrap();
    assert_eq!(again.role_count(), 2);
    let made = again
        .create_role(
            &admin,
            request("Second", vec![PermissionGroupTag::UsersRead], ScopeLevel::Merchant, at_merchant(N)),
            300,
        )
        .unwrap();
    assert_eq!(made.role_id, 3);
}

#[test]
fn create_role_without_identifier_left_is_storage_unavailable() {
    let (engine, admin) = started();
    let mut full = Engine::restore(
        Catalog::standard(),
        engine.roles_snapshot(),
        Vec::new(),
        Vec::new(),
        u64::MAX,
    )
    .unwrap();
    let got = full.create_role(
        &admin,
        request("Analyst", vec![PermissionGroupTag::UsersRead], ScopeLevel::Merchant, at_merchant(M)),
        200,
    );
    assert_eq!(got.err(), Some(AuthzError::StorageUnavailable));
    let got = full.seed_role(
        request("Analyst", vec![PermissionGroupTag::UsersRead], ScopeLevel::Merchant, at_merchant(M)),
        200,
    );
    assert_eq!(got.err(), Some(AuthzError::StorageUnavailable));
    assert_eq!(full.role_count(), 1);
    assert!(AuthzError::StorageUnavailable.is_retryable());
}

#[test]
fn restore_turns_down_records_that_break_a_rule() {
    let role = |id: u64, level: ScopeLevel, place: Lineage, tags: Vec<PermissionGroupTag>| Role {
        role_id: id,
        name: format!("role {}", id),
        groups: tags,
        scope_level: level,
        lineage: place,
        created_by: None,
        created_at: 1,
        updated_at: 1,
    };
    let good = || role(1, ScopeLevel::Organization, at_org(), vec![PermissionGroupTag::UsersRead]);
    let binding = |user_id: u64, role_id: u64, place: Lineage| role_authz::model::UserRole {
        user_id,
        role_id,
        lineage: place,
        status: role_authz::model::BindingStatus::Active,
        invited_by: 1,
        created_at: 1,
        updated_at: 1,
    };
    let failed = |roles: Vec<Role>, bindings: Vec<role_authz::model::UserRole>, next: u64| {
        Engine::restore(Catalog::standard(), roles, bindings, Vec::new(), next).err()
    };
    assert_eq!(failed(vec![good()], vec![binding(5, 1, at_org())], 2), None);
    assert_eq!(failed(vec![good()], Vec::new(), 1), Some(AuthzError::ConfigurationError));
    assert_eq!(
        failed(vec![role(1, ScopeLevel::Merchant, at_org(), Vec::new())], Vec::new(), 9),
        Some(AuthzError::ConfigurationError)
    );
    assert_eq!(
        failed(vec![role(2, ScopeLevel::Organization, at_org(), Vec::new()), good()], Vec::new(), 9),
        Some(AuthzError::ConfigurationError)
    );
    assert_eq!(failed(vec![good(), good()], Vec::new(), 9), Some(AuthzError::ConfigurationError));
    assert_eq!(failed(vec![good()], vec![binding(5, 2, at_org())], 9), Some(AuthzError::ConfigurationError));
    assert_eq!(
        failed(vec![good()], vec![binding(5, 1, at_merchant(M))], 9),
        Some(AuthzError::ConfigurationError)
    );
    assert_eq!(
        failed(vec![good()], vec![binding(5, 1, at_org()), binding(6, 1, at_org()), binding(5, 1, at_org())], 9),
        Some(AuthzError::ConfigurationError)
    );
    let narrow = Engine::restore(Catalog::new(), vec![good()], Vec::new(), Vec::new(), 9);
    assert_eq!(narrow.err(), Some(AuthzError::ConfigurationError));
}
