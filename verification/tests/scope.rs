use role_authz::engine::lineage_level;
use role_authz::error::AuthzError;
use role_authz::names::{side_of_bytes, side_of_names, Side};
use role_authz::rules::{lineage_comes_before, summary_comes_before};
use role_authz::model::{BindingStatus, UserSummary};
use role_authz::scope::{check_dominates, same_id, Lineage, ScopeLevel};

fn org(o: u64) -> Lineage {
    Lineage { org_id: o, merchant_id: None, profile_id: None }
}

fn merchant(o: u64, m: u64) -> Lineage {
    Lineage { org_id: o, merchant_id: Some(m), profile_id: None }
}

fn profile(o: u64, m: u64, p: u64) -> Lineage {
    Lineage { org_id: o, merchant_id: Some(m), profile_id: Some(p) }
}

#[test]
fn levels_are_ranked_broadest_highest() {
    assert_eq!(ScopeLevel::Organization.rank(), 2);
    assert_eq!(ScopeLevel::Merchant.rank(), 1);
    assert_eq!(ScopeLevel::Profile.rank(), 0);
    assert!(ScopeLevel::Organization.is_at_least(ScopeLevel::Profile));
    assert!(ScopeLevel::Merchant.is_at_least(ScopeLevel::Merchant));
    assert!(!ScopeLevel::Profile.is_at_least(ScopeLevel::Merchant));
}

#[test]
fn lineage_has_to_name_what_the_level_asks_for() {
    assert!(org(1).matches_level(ScopeLevel::Organization));
    assert!(!org(1).matches_level(ScopeLevel::Merchant));
    assert!(merchant(1, 2).matches_level(ScopeLevel::Merchant));
    assert!(!merchant(1, 2).matches_level(ScopeLevel::Organization));
    assert!(!merchant(1, 2).matches_level(ScopeLevel::Profile));
    assert!(profile(1, 2, 3).matches_level(ScopeLevel::Profile));
    let broken = Lineage { org_id: 1, merchant_id: None, profile_id: Some(3) };
    assert!(!broken.matches_level(ScopeLevel::Organization));
    assert!(!broken.matches_level(ScopeLevel::Merchant));
    assert!(!broken.matches_level(ScopeLevel::Profile));
    assert_eq!(lineage_level(&org(1)), ScopeLevel::Organization);
    assert_eq!(lineage_level(&merchant(1, 2)), ScopeLevel::Merchant);
    assert_eq!(lineage_level(&profile(1, 2, 3)), ScopeLevel::Profile);
}

#[test]
fn organization_scope_dominates_everything_in_its_organization() {
    let holder = profile(1, 2, 3);
    assert!(check_dominates(ScopeLevel::Organization, &holder, ScopeLevel::Merchant, &merchant(1, 9)));
    assert!(check_dominates(ScopeLevel::Organization, &holder, ScopeLevel::Profile, &profile(1, 9, 9)));
    assert!(check_dominates(ScopeLevel::Organization, &holder, ScopeLevel::Organization, &org(1)));
    assert!(!check_dominates(ScopeLevel::Organization, &holder, ScopeLevel::Merchant, &merchant(2, 2)));
}

#[test]
fn merchant_scope_stays_inside_its_merchant() {
    let holder = merchant(1, 2);
    assert!(check_dominates(ScopeLevel::Merchant, &holder, ScopeLevel::Merchant, &merchant(1, 2)));
    assert!(check_dominates(ScopeLevel::Merchant, &holder, ScopeLevel::Profile, &profile(1, 2, 5)));
    assert!(!check_dominates(ScopeLevel::Merchant, &holder, ScopeLevel::Merchant, &merchant(1, 3)));
    assert!(!check_dominates(ScopeLevel::Merchant, &holder, ScopeLevel::Organization, &org(1)));
    assert!(!check_dominates(ScopeLevel::Merchant, &org(1), ScopeLevel::Merchant, &merchant(1, 2)));
}

#[test]
fn profile_scope_dominates_only_its_own_profile() {
    let holder = profile(1, 2, 3);
    assert!(check_dominates(ScopeLevel::Profile, &holder, ScopeLevel::Profile, &profile(1, 2, 3)));
    assert!(!check_dominates(ScopeLevel::Profile, &holder, ScopeLevel::Profile, &profile(1, 2, 4)));
    assert!(!check_dominates(ScopeLevel::Profile, &holder, ScopeLevel::Merchant, &merchant(1, 2)));
    assert!(!check_dominates(ScopeLevel::Profile, &holder, ScopeLevel::Organization, &org(1)));
}

#[test]
fn dominance_chains_and_mutual_dominance_means_same_place() {
    let a = (ScopeLevel::Organization, org(1));
    let b = (ScopeLevel::Merchant, merchant(1, 2));
    let c = (ScopeLevel::Profile, profile(1, 2, 3));
    assert!(check_dominates(a.0, &a.1, b.0, &b.1));
    assert!(check_dominates(b.0, &b.1, c.0, &c.1));
    assert!(check_dominates(a.0, &a.1, c.0, &c.1));
    assert!(!check_dominates(b.0, &b.1, a.0, &a.1));
    assert!(check_dominates(b.0, &b.1, b.0, &b.1));
}

#[test]
fn lineage_equality_is_field_by_field() {
    assert!(merchant(1, 2).same_as(&merchant(1, 2)));
    assert!(!merchant(1, 2).same_as(&merchant(1, 3)));
    assert!(!merchant(1, 2).same_as(&org(1)));
    assert!(!profile(1, 2, 3).same_as(&merchant(1, 2)));
    assert!(same_id(None, None));
    assert!(same_id(Some(4), Some(4)));
    assert!(!same_id(Some(4), None));
    assert!(!same_id(Some(4), Some(5)));
    assert!(profile(1, 2, 3).is_within(ScopeLevel::Profile, &profile(1, 2, 3)));
    assert!(!profile(1, 2, 3).is_within(ScopeLevel::Profile, &profile(1, 2, 4)));
}

#[test]
fn names_are_ordered_byte_by_byte() {
    assert_eq!(side_of_names(&String::from("Admin"), &String::from("Analyst")), Side::Before);
    assert_eq!(side_of_names(&String::from("Analyst"), &String::from("Admin")), Side::After);
    assert_eq!(side_of_names(&String::from("Analyst"), &String::from("Analyst")), Side::Same);
    assert_eq!(side_of_names(&String::from("Ana"), &String::from("Analyst")), Side::Before);
    assert_eq!(side_of_names(&String::from("Analyst"), &String::from("Ana")), Side::After);
    assert_eq!(side_of_names(&String::from(""), &String::from("a")), Side::Before);
    assert_eq!(side_of_names(&String::from(""), &String::from("")), Side::Same);
    assert_eq!(side_of_names(&String::from("Zed"), &String::from("abc")), Side::Before);
    assert_eq!(side_of_names(&String::from("z"), &String::from("\u{e9}")), Side::Before);
    assert_eq!(side_of_bytes(&[1, 2, 3], &[1, 2, 4]), Side::Before);
    assert_eq!(side_of_bytes(&[1, 2, 3], &[1, 2]), Side::After);
    assert_eq!(side_of_bytes(&[200], &[100, 7]), Side::After);
}

#[test]
fn lineages_are_ordered_by_organization_merchant_profile() {
    assert!(lineage_comes_before(&org(1), &org(2)));
    assert!(!lineage_comes_before(&org(2), &org(1)));
    assert!(lineage_comes_before(&org(1), &merchant(1, 0)));
    assert!(lineage_comes_before(&merchant(1, 5), &merchant(1, 6)));
    assert!(lineage_comes_before(&merchant(1, 5), &profile(1, 5, 0)));
    assert!(lineage_comes_before(&profile(1, 5, 9), &merchant(1, 6)));
    assert!(!lineage_comes_before(&merchant(1, 5), &merchant(1, 5)));
    assert!(lineage_comes_before(&merchant(1, u64::MAX), &merchant(2, 0)));
    let a = UserSummary { user_id: 3, role_id: 9, lineage: merchant(1, 5), status: BindingStatus::Active };
    let b = UserSummary { user_id: 4, role_id: 1, lineage: org(0), status: BindingStatus::Invited };
    let c = UserSummary { user_id: 3, role_id: 1, lineage: merchant(1, 6), status: BindingStatus::Invited };
    assert!(summary_comes_before(&a, &b));
    assert!(summary_comes_before(&a, &c));
    assert!(!summary_comes_before(&c, &a));
    assert!(!summary_comes_before(&a, &a));
}

#[test]
fn each_failure_has_a_code_of_its_own() {
    let all = [
        AuthzError::InvalidScope,
        AuthzError::UnknownPermissionGroup,
        AuthzError::InsufficientPrivilege,
        AuthzError::ImmutableField,
        AuthzError::NotFound,
        AuthzError::RoleNotFound,
        AuthzError::InvalidTokenPurpose,
        AuthzError::InvalidSelection,
        AuthzError::AlreadyExists,
        AuthzError::AlreadyProcessed,
        AuthzError::StorageUnavailable,
        AuthzError::ConfigurationError,
    ];
    for (i, a) in all.iter().enumerate() {
        assert_eq!(a.status_code() as usize, i);
        assert_eq!(a.is_retryable(), *a == AuthzError::StorageUnavailable);
    }
}
